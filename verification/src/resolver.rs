//! From a list of outdated packages and what the registry answered for each
//! to the ordered list of candidate releases.

use crate::npm_registry::{candidates, NpmPackage};
use crate::release::{
    lemma_views_with_key, release_views, releases_sorted, sort_releases, view_key_test, with_key,
    Release, ReleaseView,
};
use crate::semver::{spec_parse, Semver, SemverParsingError};
use vstd::prelude::*;

verus! {

/// The installed and the newest known version of an outdated package.
#[derive(Debug, Clone, PartialEq, Eq)]
pub struct PnpmOutdatedPackage {
    pub current: String,
    pub latest: String,
}

/// Why the registry gave no description of a package.
#[derive(Debug, PartialEq)]
pub enum FetchError {
    /// The registry could not be reached.
    Network(String),
    /// The registry's answer was malformed.
    Parse(String),
}

/// Why the candidates could not be listed.
#[derive(Debug, PartialEq)]
pub enum ResolveError {
    /// A package could not be fetched.
    Fetch(FetchError),
    /// An installed or newest version is no version.
    Version(SemverParsingError),
}

/// The outcome for one package, with releases as plain text.
pub type OutcomeView = Result<Seq<ReleaseView>, ResolveError>;

/// The view of the outcome for one package.
pub open spec fn outcome_view(outcome: Result<Vec<Release>, ResolveError>) -> OutcomeView {
    match outcome {
        Ok(releases) => Ok(release_views(releases@)),
        Err(e) => Err(e),
    }
}

/// The views of the outcomes for several packages.
pub open spec fn outcome_views(outcomes: Seq<Result<Vec<Release>, ResolveError>>) -> Seq<
    OutcomeView,
> {
    outcomes.map_values(|o: Result<Vec<Release>, ResolveError>| outcome_view(o))
}

/// The outcome for one package: a failed fetch comes first, then an
/// installed version that is no version, then a newest version that is none;
/// else the candidates among the package's versions.
pub open spec fn spec_package_releases(
    fetched: Result<NpmPackage, FetchError>,
    current: Seq<char>,
    latest: Seq<char>,
) -> OutcomeView {
    match fetched {
        Err(e) => Err(ResolveError::Fetch(e)),
        Ok(package) => match spec_parse(current) {
            Err(e) => Err(ResolveError::Version(e)),
            Ok(from) => match spec_parse(latest) {
                Err(e) => Err(ResolveError::Version(e)),
                Ok(to) => Ok(
                    candidates(
                        package.name@,
                        package.repository.url@,
                        from,
                        to,
                        package.version_keys(),
                    ),
                ),
            },
        },
    }
}

/// Fail-fast fan-in: the first failure in the order of the list, or, where
/// there is none, all releases in the order of the list.
pub open spec fn spec_fan_in(outcomes: Seq<OutcomeView>) -> OutcomeView
    decreases outcomes.len(),
{
    if outcomes.len() == 0 {
        Ok(Seq::empty())
    } else {
        match spec_fan_in(outcomes.drop_last()) {
            Err(e) => Err(e),
            Ok(joined) => match outcomes.last() {
                Err(e) => Err(e),
                Ok(releases) => Ok(joined + releases),
            },
        }
    }
}

/// The outcomes for a list of packages, each with what the registry
/// answered for it.
pub open spec fn spec_outcomes(
    jobs: Seq<(PnpmOutdatedPackage, Result<NpmPackage, FetchError>)>,
) -> Seq<OutcomeView> {
    jobs.map_values(
        |job: (PnpmOutdatedPackage, Result<NpmPackage, FetchError>)|
            spec_package_releases(job.1, job.0.current@, job.0.latest@),
    )
}

/// The candidate releases of one package, given what the registry answered.
pub fn package_releases(fetched: Result<NpmPackage, FetchError>, info: &PnpmOutdatedPackage) -> (r:
    Result<Vec<Release>, ResolveError>)
    ensures
        outcome_view(r) == spec_package_releases(fetched, info.current@, info.latest@),
{
    let package = match fetched {
        Ok(package) => package,
        Err(e) => { return Err(ResolveError::Fetch(e)); },
    };
    let current = match Semver::parse(info.current.as_str()) {
        Ok(v) => v,
        Err(e) => { return Err(ResolveError::Version(e)); },
    };
    let latest = match Semver::parse(info.latest.as_str()) {
        Ok(v) => v,
        Err(e) => { return Err(ResolveError::Version(e)); },
    };
    Ok(package.fetch_releases(current, latest))
}

/// Joins the outcomes of all packages: one failure fails the whole, and no
/// partial list is returned.
pub fn fetch_all_releases(outcomes: Vec<Result<Vec<Release>, ResolveError>>) -> (r: Result<
    Vec<Release>,
    ResolveError,
>)
    ensures
        outcome_view(r) == spec_fan_in(outcome_views(outcomes@)),
{
    let ghost all = outcome_views(outcomes@);
    let mut joined: Vec<Release> = Vec::new();
    assert(all.take(0) =~= Seq::<OutcomeView>::empty());
    assert(release_views(joined@) =~= Seq::<ReleaseView>::empty());
    for outcome in it: outcomes
        invariant
            it.seq() == outcomes@,
            all == outcome_views(outcomes@),
            spec_fan_in(all.take(it.index() as int)) == Ok::<Seq<ReleaseView>, ResolveError>(
                release_views(joined@),
            ),
    {
        proof {
            let i = it.index() as int;
            assert(all.take(i + 1).drop_last() == all.take(i));
            assert(all.take(i + 1).last() == outcome_view(outcome));
        }
        match outcome {
            Ok(mut releases) => {
                let ghost before = joined@;
                let ghost added = releases@;
                joined.append(&mut releases);
                assert(release_views(joined@) =~= release_views(before) + release_views(added));
            },
            Err(e) => {
                proof {
                    lemma_fan_in_fails(all, it.index() as int + 1);
                }
                return Err(e);
            },
        }
    }
    assert(all.take(outcomes@.len() as int) == all);
    Ok(joined)
}

/// Once a part of the list has failed, the whole list fails in the same way.
proof fn lemma_fan_in_fails(outcomes: Seq<OutcomeView>, k: int)
    requires
        0 <= k <= outcomes.len(),
        spec_fan_in(outcomes.take(k)) is Err,
    ensures
        spec_fan_in(outcomes) == spec_fan_in(outcomes.take(k)),
    decreases outcomes.len() - k,
{
    if k == outcomes.len() {
        assert(outcomes.take(k) == outcomes);
    } else {
        assert(outcomes.take(k + 1).drop_last() == outcomes.take(k));
        lemma_fan_in_fails(outcomes, k + 1);
    }
}

/// Lists the candidate releases of all outdated packages, in order. `jobs`
/// pairs each outdated package with what the registry answered for it. One
/// failure fails the whole; else the result holds the candidates of all
/// packages, each as often as it was found, and candidates that are the same
/// version of the same package in the order in which they were found.
pub fn resolve(jobs: Vec<(PnpmOutdatedPackage, Result<NpmPackage, FetchError>)>) -> (r: Result<
    Vec<Release>,
    ResolveError,
>)
    ensures
        match spec_fan_in(spec_outcomes(jobs@)) {
            Err(e) => r == Err::<Vec<Release>, ResolveError>(e),
            Ok(all) => {
                &&& r matches Ok(sorted)
                &&& releases_sorted(sorted@)
                &&& release_views(sorted@).to_multiset() == all.to_multiset()
                &&& forall|key: ReleaseView| #[trigger]
                    release_views(sorted@).filter(view_key_test(key)) == all.filter(
                        view_key_test(key),
                    )
            },
        },
{
    let mut outcomes: Vec<Result<Vec<Release>, ResolveError>> = Vec::new();
    assert(outcome_views(outcomes@) =~= spec_outcomes(jobs@).take(0));
    for job in it: jobs
        invariant
            it.seq() == jobs@,
            outcome_views(outcomes@) == spec_outcomes(jobs@).take(it.index() as int),
    {
        let (info, fetched) = job;
        let ghost before = outcomes@;
        let outcome = package_releases(fetched, &info);
        outcomes.push(outcome);
        assert(outcome_views(outcomes@) =~= outcome_views(before).push(outcome_view(outcome)));
        assert(spec_outcomes(jobs@).take(it.index() + 1) =~= spec_outcomes(jobs@).take(
            it.index() as int,
        ).push(outcome_view(outcome)));
    }
    assert(spec_outcomes(jobs@).take(jobs@.len() as int) == spec_outcomes(jobs@));
    match fetch_all_releases(outcomes) {
        Ok(releases) => {
            let sorted = sort_releases(releases);
            proof {
                assert forall|key: ReleaseView| #[trigger]
                    release_views(sorted@).filter(view_key_test(key)) == release_views(
                        releases@,
                    ).filter(view_key_test(key)) by {
                    lemma_views_with_key(sorted@, key);
                    lemma_views_with_key(releases@, key);
                    assert(with_key(sorted@, key) == with_key(releases@, key));
                }
            }
            Ok(sorted)
        },
        Err(e) => Err(e),
    }
}

} // verus!
