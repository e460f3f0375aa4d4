//! A list of options of which any number can be selected, with a cursor
//! that marks the option in focus.

use vstd::prelude::*;

verus! {

/// One entry of the list.
pub struct SelectOption<T> {
    pub label: String,
    pub value: T,
    pub selected: bool,
}

impl<T> SelectOption<T> {
    /// An option that is not selected.
    pub fn new(label: String, value: T) -> (r: SelectOption<T>)
        ensures
            r.label == label,
            r.value == value,
            !r.selected,
    {
        SelectOption { label, value, selected: false }
    }
}

/// The option `o` with its selection flipped.
pub open spec fn flipped<T>(o: SelectOption<T>) -> SelectOption<T> {
    SelectOption { label: o.label, value: o.value, selected: !o.selected }
}

/// The options with the one at `cursor` flipped.
pub open spec fn toggled<T>(options: Seq<SelectOption<T>>, cursor: int) -> Seq<SelectOption<T>> {
    options.update(cursor, flipped(options[cursor]))
}

/// The values of the selected options, in the order of the list.
pub open spec fn selected_of<T>(options: Seq<SelectOption<T>>) -> Seq<T> {
    options.filter_map(
        |o: SelectOption<T>|
            if o.selected {
                Some(o.value)
            } else {
                None
            },
    )
}

/// The options and the cursor. The cursor points at an option, or is 0 where
/// there is none.
pub struct MultiSelect<T> {
    options: Vec<SelectOption<T>>,
    cursor: usize,
}

impl<T> MultiSelect<T> {
    #[verifier::type_invariant]
    spec fn wf(&self) -> bool {
        self.cursor == 0 || self.cursor < self.options@.len()
    }

    /// The options, in order.
    pub closed spec fn spec_options(&self) -> Seq<SelectOption<T>> {
        self.options@
    }

    /// The index of the option in focus.
    pub closed spec fn spec_cursor(&self) -> int {
        self.cursor as int
    }

    /// A list with the cursor on its first option.
    pub fn new(options: Vec<SelectOption<T>>) -> (r: MultiSelect<T>)
        ensures
            r.spec_options() == options@,
            r.spec_cursor() == 0,
    {
        MultiSelect { options, cursor: 0 }
    }

    /// The options, in order.
    pub fn options(&self) -> (r: &Vec<SelectOption<T>>)
        ensures
            r@ == self.spec_options(),
    {
        &self.options
    }

    /// The index of the option in focus. It never leaves the list.
    pub fn cursor(&self) -> (r: usize)
        ensures
            r == self.spec_cursor(),
            r == 0 || r < self.spec_options().len(),
    {
        proof {
            use_type_invariant(self);
        }
        self.cursor
    }

    /// Moves the cursor one option up; on the first option it stays.
    pub fn previous(&mut self)
        ensures
            final(self).spec_options() == old(self).spec_options(),
            final(self).spec_cursor() == if old(self).spec_cursor() > 0 {
                old(self).spec_cursor() - 1
            } else {
                0
            },
        no_unwind
    {
        if self.cursor > 0 {
            proof {
                use_type_invariant(&*self);
            }
            self.cursor = self.cursor - 1;
        }
    }

    /// Moves the cursor one option down; on the last option it stays.
    pub fn next(&mut self)
        requires
            old(self).spec_options().len() > 0,
        ensures
            final(self).spec_options() == old(self).spec_options(),
            final(self).spec_cursor() == if old(self).spec_cursor() + 1 < old(
                self,
            ).spec_options().len() {
                old(self).spec_cursor() + 1
            } else {
                old(self).spec_options().len() - 1
            },
        no_unwind
    {
        proof {
            use_type_invariant(&*self);
        }
        let max_cursor = self.options.len() - 1;
        if self.cursor < max_cursor {
            self.cursor = self.cursor + 1;
        } else {
            self.cursor = max_cursor;
        }
    }

    /// Flips the selection of the option in focus.
    pub fn toggle(&mut self)
        requires
            old(self).spec_options().len() > 0,
        ensures
            final(self).spec_cursor() == old(self).spec_cursor(),
            final(self).spec_options() == toggled(old(self).spec_options(), old(self).spec_cursor()),
            final(self).spec_options().len() == old(self).spec_options().len(),
        no_unwind
    {
        proof {
            use_type_invariant(&*self);
        }
        let shown = self.options[self.cursor].selected;
        self.options[self.cursor].selected = !shown;
        assert(self.options@ =~= toggled(old(self).options@, self.cursor as int));
    }

    /// The values of the selected options, in the order of the list.
    pub fn selected_values(&self) -> (r: Vec<&T>)
        ensures
            r@.map_values(|v: &T| *v) == selected_of(self.spec_options()),
    {
        let ghost pick = |o: SelectOption<T>|
            if o.selected {
                Some(o.value)
            } else {
                None
            };
        let mut values: Vec<&T> = Vec::new();
        let mut i: usize = 0;
        assert(self.options@.take(0).filter_map(pick) =~= Seq::<T>::empty());
        while i < self.options.len()
            invariant
                i <= self.options.len(),
                pick == |o: SelectOption<T>|
                    if o.selected {
                        Some(o.value)
                    } else {
                        None
                    },
                values@.map_values(|v: &T| *v) == self.options@.take(i as int).filter_map(pick),
            decreases self.options.len() - i,
        {
            proof {
                self.options@.lemma_filter_map_take_succ(pick, i as int);
            }
            let ghost before = values@;
            if self.options[i].selected {
                values.push(&self.options[i].value);
                assert(values@.map_values(|v: &T| *v) =~= before.map_values(|v: &T| *v).push(
                    self.options@[i as int].value,
                ));
            }
            i += 1;
        }
        assert(self.options@.take(i as int) == self.options@);
        values
    }

    /// The value of the option in focus.
    pub fn focused_value(&self) -> (r: &T)
        requires
            self.spec_options().len() > 0,
        ensures
            *r == self.spec_options()[self.spec_cursor()].value,
    {
        proof {
            use_type_invariant(self);
        }
        &self.options[self.cursor].value
    }
}

/// Toggling the same option twice leaves every option as it was.
pub proof fn lemma_toggle_twice<T>(options: Seq<SelectOption<T>>, cursor: int)
    requires
        0 <= cursor < options.len(),
    ensures
        toggled(toggled(options, cursor), cursor) == options,
{
    assert(toggled(toggled(options, cursor), cursor) =~= options);
}

/// Where no option is selected, no value is selected.
pub proof fn lemma_none_selected<T>(options: Seq<SelectOption<T>>)
    requires
        forall|i: int| 0 <= i < options.len() ==> !options[i].selected,
    ensures
        selected_of(options) == Seq::<T>::empty(),
    decreases options.len(),
{
    if options.len() > 0 {
        lemma_none_selected(options.drop_last());
    }
}

} // verus!
