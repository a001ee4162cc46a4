use vstd::prelude::*;
use crate::ui::key::Key;

verus! {

/// The selection after Down: the next entry, the first after the last, the first from none.
pub open spec fn next_selection(sel: Option<usize>, len: nat) -> usize {
    match sel {
        Some(i) => if i >= len - 1 {
            0usize
        } else {
            (i + 1) as usize
        },
        None => 0usize,
    }
}

/// The selection after Up: the previous entry, the last before the first, the first from
/// none.
pub open spec fn previous_selection(sel: Option<usize>, len: nat) -> usize {
    match sel {
        Some(i) => if i == 0 {
            (len - 1) as usize
        } else {
            (i - 1) as usize
        },
        None => 0usize,
    }
}

/// Down and then Up come back to the entry selected before.
pub proof fn lemma_down_then_up(i: usize, len: nat)
    requires
        i < len <= usize::MAX,
    ensures
        previous_selection(Some(next_selection(Some(i), len)), len) == i,
{
}

/// Up and then Down come back to the entry selected before.
pub proof fn lemma_up_then_down(i: usize, len: nat)
    requires
        i < len <= usize::MAX,
    ensures
        next_selection(Some(previous_selection(Some(i), len)), len) == i,
{
}

/// The pop-up list of suggestions, with the entry selected.
pub struct SuggestionsBox {
    pub suggestions: Vec<String>,
    pub selected: Option<usize>,
    pub is_active: bool,
}

impl SuggestionsBox {
    /// An empty, inactive list.
    pub fn new() -> (b: Self)
        ensures
            b.suggestions@.len() == 0,
            b.selected is None,
            !b.is_active,
    {
        SuggestionsBox { suggestions: Vec::new(), selected: None, is_active: false }
    }

    /// Whether the list is shown: active and not empty.
    pub fn is_active(&self) -> (r: bool)
        ensures
            r == (self.is_active && self.suggestions@.len() > 0),
    {
        self.is_active && self.suggestions.len() > 0
    }

    /// Handles a key: Down and Up move the selection, wrapping around (from no selection to
    /// the first entry); Right (accepting) and Esc close the list.
    pub fn handle_key(&mut self, key: Key)
        requires
            (key is Down || key is Up) && old(self).selected is Some ==> old(
                self,
            ).suggestions@.len() > 0,
        ensures
            final(self).suggestions == old(self).suggestions,
            key is Down ==> final(self).selected == Some(
                next_selection(old(self).selected, old(self).suggestions@.len()),
            ),
            key is Up ==> final(self).selected == Some(
                previous_selection(old(self).selected, old(self).suggestions@.len()),
            ),
            (key is Down || key is Up) ==> final(self).is_active == old(self).is_active,
            (key is Right || key is Esc) ==> !final(self).is_active && final(self).selected == old(
                self,
            ).selected,
            !(key is Down || key is Up || key is Right || key is Esc) ==> *final(self) == *old(
                self,
            ),
    {
        match key {
            Key::Down => self.next(),
            Key::Up => self.previous(),
            Key::Right => {
                self.is_active = false;
            },
            Key::Esc => {
                self.is_active = false;
            },
            _ => {},
        }
    }

    fn next(&mut self)
        requires
            old(self).selected is Some ==> old(self).suggestions@.len() > 0,
        ensures
            final(self).suggestions == old(self).suggestions,
            final(self).is_active == old(self).is_active,
            final(self).selected == Some(
                next_selection(old(self).selected, old(self).suggestions@.len()),
            ),
    {
        let i = match self.selected {
            Some(i) => {
                if i >= self.suggestions.len() - 1 {
                    0
                } else {
                    i + 1
                }
            },
            None => 0,
        };
        self.selected = Some(i);
    }

    fn previous(&mut self)
        requires
            old(self).selected is Some ==> old(self).suggestions@.len() > 0,
        ensures
            final(self).suggestions == old(self).suggestions,
            final(self).is_active == old(self).is_active,
            final(self).selected == Some(
                previous_selection(old(self).selected, old(self).suggestions@.len()),
            ),
    {
        let i = match self.selected {
            Some(i) => {
                if i == 0 {
                    self.suggestions.len() - 1
                } else {
                    i - 1
                }
            },
            None => 0,
        };
        self.selected = Some(i);
    }
}

} // verus!
