//! The state of a task runner that keeps only the outcome of the operation
//! started last. Each start takes the next generation; an operation that
//! completes hands in the generation it was started with, and its outcome is
//! dropped unless that is still the current one.

use vstd::prelude::*;

verus! {

/// What is known of the operation started last.
#[derive(Debug, Clone, PartialEq)]
pub enum AsyncTaskStatus<T> {
    /// Nothing was started yet.
    Idle,
    /// The operation is under way.
    Loading,
    /// The operation gave a value.
    Loaded(T),
    /// The operation failed, with this message.
    Error(String),
}

/// A runner as plain values.
pub struct RunnerView<T> {
    pub generation: nat,
    pub status: AsyncTaskStatus<T>,
}

/// The status that an outcome leaves behind.
pub open spec fn status_of<T>(outcome: Result<T, String>) -> AsyncTaskStatus<T> {
    match outcome {
        Ok(value) => AsyncTaskStatus::Loaded(value),
        Err(message) => AsyncTaskStatus::Error(message),
    }
}

/// The runner before anything was started.
pub open spec fn spec_new<T>() -> RunnerView<T> {
    RunnerView { generation: 0, status: AsyncTaskStatus::Idle }
}

/// The runner after one more operation was started.
pub open spec fn spec_start<T>(runner: RunnerView<T>) -> RunnerView<T> {
    RunnerView { generation: runner.generation + 1, status: AsyncTaskStatus::Loading }
}

/// The runner after an operation started as `generation` has completed with
/// `outcome`.
pub open spec fn spec_complete<T>(
    runner: RunnerView<T>,
    generation: nat,
    outcome: Result<T, String>,
) -> RunnerView<T> {
    if generation == runner.generation {
        RunnerView { generation: runner.generation, status: status_of(outcome) }
    } else {
        runner
    }
}

/// The generation counter and the status of the operation started last.
pub struct AsyncTaskRunner<T> {
    generation: u64,
    status: AsyncTaskStatus<T>,
}

impl<T> View for AsyncTaskRunner<T> {
    type V = RunnerView<T>;

    closed spec fn view(&self) -> RunnerView<T> {
        RunnerView { generation: self.generation as nat, status: self.status }
    }
}

impl<T> AsyncTaskRunner<T> {
    /// A runner on which nothing was started.
    pub fn new() -> (r: AsyncTaskRunner<T>)
        ensures
            r@ == spec_new::<T>(),
    {
        AsyncTaskRunner { generation: 0, status: AsyncTaskStatus::Idle }
    }

    /// Starts one more operation: whatever was started before is superseded,
    /// and the status is `Loading`. Returns the generation that the new
    /// operation has to hand in when it completes.
    pub fn start_operation(&mut self) -> (generation: u64)
        requires
            old(self)@.generation < u64::MAX,
        ensures
            final(self)@ == spec_start(old(self)@),
            generation == final(self)@.generation,
    {
        self.generation = self.generation + 1;
        self.status = AsyncTaskStatus::Loading;
        self.generation
    }

    /// Takes the outcome of the operation started as `generation`. It
    /// becomes the status if that operation is still the current one;
    /// otherwise nothing changes. Returns whether it was taken, which is when
    /// subscribers are to be told.
    pub fn complete(&mut self, generation: u64, outcome: Result<T, String>) -> (taken: bool)
        ensures
            final(self)@ == spec_complete(old(self)@, generation as nat, outcome),
            taken == (generation == old(self)@.generation),
    {
        if generation != self.generation {
            return false;
        }
        self.status = match outcome {
            Ok(value) => AsyncTaskStatus::Loaded(value),
            Err(message) => AsyncTaskStatus::Error(message),
        };
        true
    }

    /// The status of the operation started last.
    pub fn status(&self) -> (r: &AsyncTaskStatus<T>)
        ensures
            *r == self@.status,
    {
        &self.status
    }

    /// The current generation.
    pub fn generation(&self) -> (r: u64)
        ensures
            r == self@.generation,
    {
        self.generation
    }
}

/// Of two operations started one after the other, only the second one's
/// outcome is ever seen: it becomes the status when the second completes, and
/// stays so when the first completes later.
pub proof fn lemma_later_start_wins<T>(
    runner: RunnerView<T>,
    first: Result<T, String>,
    second: Result<T, String>,
)
    ensures
        ({
            let a = spec_start(runner);
            let b = spec_start(a);
            let done = spec_complete(b, b.generation, second);
            &&& done.status == status_of(second)
            &&& spec_complete(done, a.generation, first) == done
        }),
{
}

/// Where the superseded operation completes first, the status stays
/// `Loading` until the current one completes, and is then its outcome.
pub proof fn lemma_stale_outcome_is_dropped<T>(
    runner: RunnerView<T>,
    first: Result<T, String>,
    second: Result<T, String>,
)
    ensures
        ({
            let a = spec_start(runner);
            let b = spec_start(a);
            let early = spec_complete(b, a.generation, first);
            &&& early == b
            &&& early.status == AsyncTaskStatus::<T>::Loading
            &&& spec_complete(early, b.generation, second).status == status_of(second)
        }),
{
}

/// An outcome is taken exactly if it hands in the current generation, and no
/// completion changes the generation.
pub proof fn lemma_complete<T>(runner: RunnerView<T>, generation: nat, outcome: Result<T, String>)
    ensures
        spec_complete(runner, generation, outcome).generation == runner.generation,
        generation == runner.generation ==> spec_complete(runner, generation, outcome).status
            == status_of(outcome),
        generation != runner.generation ==> spec_complete(runner, generation, outcome) == runner,
{
}

/// Every start takes a generation that no earlier start has taken.
pub proof fn lemma_generation_rises<T>(runner: RunnerView<T>)
    ensures
        spec_start(runner).generation > runner.generation,
{
}

/// What happens to a runner: an operation is started, or an operation
/// started as some generation completes with some outcome.
pub enum RunnerEvent<T> {
    Start,
    Complete(nat, Result<T, String>),
}

/// The runner after one event.
pub open spec fn spec_step<T>(runner: RunnerView<T>, event: RunnerEvent<T>) -> RunnerView<T> {
    match event {
        RunnerEvent::Start => spec_start(runner),
        RunnerEvent::Complete(generation, outcome) => spec_complete(runner, generation, outcome),
    }
}

/// The runner after a series of events.
pub open spec fn spec_run<T>(runner: RunnerView<T>, events: Seq<RunnerEvent<T>>) -> RunnerView<T>
    decreases events.len(),
{
    if events.len() == 0 {
        runner
    } else {
        spec_step(spec_run(runner, events.drop_last()), events.last())
    }
}

/// How many operations a series of events starts.
pub open spec fn spec_starts<T>(events: Seq<RunnerEvent<T>>) -> nat
    decreases events.len(),
{
    if events.len() == 0 {
        0
    } else {
        spec_starts(events.drop_last()) + if events.last() is Start {
            1nat
        } else {
            0nat
        }
    }
}

/// Whether the status shown after `events` is the outcome that the `i`th
/// event handed in with the generation that is current at the end, no
/// operation having been started since.
pub open spec fn shown_by<T>(events: Seq<RunnerEvent<T>>, i: int, status: AsyncTaskStatus<T>) -> bool {
    &&& 0 <= i < events.len()
    &&& events[i] matches RunnerEvent::Complete(generation, outcome)
    &&& generation == spec_starts(events)
    &&& status == status_of(outcome)
    &&& forall|j: int| i < j < events.len() ==> !(events[j] is Start)
}

/// Whatever happens to a new runner, in whatever order: its generation
/// counts the operations started, and only the operation started last is
/// ever seen. The status is `Idle` before the first start and `Loading` from
/// the last start on, until an operation hands in an outcome with the
/// current generation; the status is then such an outcome, and none that a
/// superseded operation has handed in.
pub proof fn lemma_only_the_last_start_is_seen<T>(events: Seq<RunnerEvent<T>>)
    ensures
        spec_run(spec_new::<T>(), events).generation == spec_starts(events),
        match spec_run(spec_new::<T>(), events).status {
            AsyncTaskStatus::Idle => spec_starts(events) == 0,
            AsyncTaskStatus::Loading => spec_starts(events) > 0,
            shown => exists|i: int| shown_by(events, i, shown),
        },
    decreases events.len(),
{
    if events.len() > 0 {
        let before = events.drop_last();
        lemma_only_the_last_start_is_seen(before);
        let mid = spec_run(spec_new::<T>(), before);
        let end = spec_run(spec_new::<T>(), events);
        match events.last() {
            RunnerEvent::Start => {},
            RunnerEvent::Complete(generation, outcome) => {
                if generation == mid.generation {
                    assert(shown_by(events, events.len() - 1, end.status));
                } else {
                    match mid.status {
                        AsyncTaskStatus::Idle => {},
                        AsyncTaskStatus::Loading => {},
                        shown => {
                            let i = choose|i: int| shown_by(before, i, shown);
                            assert(events[i] == before[i]);
                            assert forall|j: int| i < j < events.len() implies !(events[j] is Start) by {
                                if j < before.len() {
                                    assert(events[j] == before[j]);
                                }
                            }
                            assert(shown_by(events, i, shown));
                        },
                    }
                }
            },
        }
    }
}

} // verus!
