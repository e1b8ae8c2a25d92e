//! The selection of proposed changes: where the cursor stands, which
//! changes are selected, and what a key does to both. Drawing the list and
//! reading the keys are the caller's part.

use vstd::prelude::*;

verus! {

/// What a key asks for.
#[derive(Debug, Clone, Copy, PartialEq, Eq, Structural)]
pub enum Key {
    /// Leave without applying anything.
    Quit,
    /// Apply the selected changes.
    Confirm,
    /// Move the cursor up, from the first change to the last.
    Up,
    /// Move the cursor down, from the last change to the first.
    Down,
    /// Select the change under the cursor, or deselect it.
    Toggle,
    /// Select every change.
    SelectAll,
    /// Deselect every change.
    SelectNone,
    /// Any other key: nothing happens.
    Other,
}

/// How the selection goes on after a key.
#[derive(Debug, Clone, Copy, PartialEq, Eq, Structural)]
pub enum Step {
    /// Wait for the next key.
    Continue,
    /// Done: apply what is selected.
    Apply,
    /// Done: apply nothing.
    Cancel,
}

/// The key that a character stands for.
pub open spec fn key_for(c: char) -> Key {
    if c == 'q' {
        Key::Quit
    } else if c == 'k' {
        Key::Up
    } else if c == 'j' {
        Key::Down
    } else if c == ' ' {
        Key::Toggle
    } else if c == 'a' {
        Key::SelectAll
    } else if c == 'n' {
        Key::SelectNone
    } else {
        Key::Other
    }
}

/// Where the cursor stands after a key, among `count` changes.
pub open spec fn cursor_after(cursor: int, count: int, key: Key) -> int {
    match key {
        Key::Up => if cursor == 0 {
            count - 1
        } else {
            cursor - 1
        },
        Key::Down => if cursor >= count - 1 {
            0
        } else {
            cursor + 1
        },
        _ => cursor,
    }
}

/// Which changes are selected after a key.
pub open spec fn selected_after(cursor: int, selected: Seq<bool>, key: Key) -> Seq<bool> {
    match key {
        Key::Toggle => selected.update(cursor, !selected[cursor]),
        Key::SelectAll => Seq::new(selected.len(), |i: int| true),
        Key::SelectNone => Seq::new(selected.len(), |i: int| false),
        _ => selected,
    }
}

/// How the selection goes on after a key.
pub open spec fn step_after(key: Key) -> Step {
    match key {
        Key::Quit => Step::Cancel,
        Key::Confirm => Step::Apply,
        _ => Step::Continue,
    }
}

/// The state of a selection: one flag for each proposed change, and the
/// position of the cursor.
#[derive(Debug)]
pub struct Selection {
    pub cursor: usize,
    pub selected: Vec<bool>,
}

/// Tells which key a character stands for.
pub fn key_of_char(c: char) -> (k: Key)
    ensures
        k == key_for(c),
{
    if c == 'q' {
        Key::Quit
    } else if c == 'k' {
        Key::Up
    } else if c == 'j' {
        Key::Down
    } else if c == ' ' {
        Key::Toggle
    } else if c == 'a' {
        Key::SelectAll
    } else if c == 'n' {
        Key::SelectNone
    } else {
        Key::Other
    }
}

impl Selection {
    /// There is at least one change, and the cursor stands on one.
    pub open spec fn wf(&self) -> bool {
        self.cursor < self.selected@.len()
    }

    /// Starts a selection with the cursor on the first change. Without any
    /// change there is nothing to select.
    pub fn new(selected: Vec<bool>) -> (r: Option<Selection>)
        ensures
            selected@.len() == 0 <==> r is None,
            r matches Some(s) ==> s.wf() && s.cursor == 0 && s.selected@ == selected@,
    {
        if selected.len() == 0 {
            None
        } else {
            Some(Selection { cursor: 0, selected })
        }
    }

    /// Sets every flag to `value`.
    fn set_all(&mut self, value: bool)
        ensures
            final(self).cursor == old(self).cursor,
            final(self).selected@ == Seq::new(old(self).selected@.len(), |i: int| value),
    {
        let n = self.selected.len();
        let mut i: usize = 0;
        while i < n
            invariant
                i <= n,
                n == self.selected@.len(),
                n == old(self).selected@.len(),
                self.cursor == old(self).cursor,
                forall|j: int| 0 <= j < i ==> self.selected@[j] == value,
            decreases n - i,
        {
            self.selected.set(i, value);
            i += 1;
        }
        assert(self.selected@ =~= Seq::new(old(self).selected@.len(), |i: int| value));
    }

    /// Takes one key.
    pub fn press(&mut self, key: Key) -> (step: Step)
        requires
            old(self).wf(),
        ensures
            final(self).wf(),
            step == step_after(key),
            final(self).cursor == cursor_after(
                old(self).cursor as int,
                old(self).selected@.len() as int,
                key,
            ),
            final(self).selected@ == selected_after(
                old(self).cursor as int,
                old(self).selected@,
                key,
            ),
    {
        let count = self.selected.len();
        match key {
            Key::Quit => Step::Cancel,
            Key::Confirm => Step::Apply,
            Key::Up => {
                self.cursor = if self.cursor == 0 {
                    count - 1
                } else {
                    self.cursor - 1
                };
                Step::Continue
            },
            Key::Down => {
                self.cursor = if self.cursor >= count - 1 {
                    0
                } else {
                    self.cursor + 1
                };
                Step::Continue
            },
            Key::Toggle => {
                let now = !self.selected[self.cursor];
                self.selected.set(self.cursor, now);
                Step::Continue
            },
            Key::SelectAll => {
                self.set_all(true);
                Step::Continue
            },
            Key::SelectNone => {
                self.set_all(false);
                Step::Continue
            },
            Key::Other => Step::Continue,
        }
    }
}

} // verus!
