//! The selection model: an optional selected index over an ordered sequence
//! of items, moved by wrapping `next`/`previous` operations.

use vstd::prelude::*;

verus! {

/// Selection cursor for a list-like widget.
#[derive(Clone, Copy, Debug, PartialEq, Eq)]
pub struct ListState {
    pub selected: Option<usize>,
}

impl ListState {
    pub fn select(&mut self, index: Option<usize>)
        ensures
            final(self).selected == index,
    {
        self.selected = index;
    }
}

impl Default for ListState {
    /// A fresh cursor selects nothing.
    fn default() -> (r: ListState)
        ensures
            r.selected is None,
    {
        ListState { selected: None }
    }
}

/// The index selected after one `next` on a non-empty collection.
pub open spec fn next_index(sel: Option<usize>, len: usize) -> usize
    recommends
        len > 0,
{
    match sel {
        Option::None => 0,
        Option::Some(i) => if i >= len - 1 { 0 } else { (i + 1) as usize },
    }
}

/// The index selected after one `previous` on a non-empty collection.
pub open spec fn previous_index(sel: Option<usize>, len: usize) -> usize
    recommends
        len > 0,
{
    match sel {
        Option::None => 0,
        Option::Some(i) => if i == 0 { (len - 1) as usize } else { (i - 1) as usize },
    }
}

/// The selection after `k` repeated `next` operations.
pub open spec fn next_n(sel: Option<usize>, len: usize, k: nat) -> Option<usize>
    decreases k,
{
    if k == 0 {
        sel
    } else if len == 0 {
        sel
    } else {
        Some(next_index(next_n(sel, len, (k - 1) as nat), len))
    }
}

/// The selection after `k` repeated `previous` operations.
pub open spec fn previous_n(sel: Option<usize>, len: usize, k: nat) -> Option<usize>
    decreases k,
{
    if k == 0 {
        sel
    } else if len == 0 {
        sel
    } else {
        Some(previous_index(previous_n(sel, len, (k - 1) as nat), len))
    }
}

/// An ordered item collection together with its selection cursor.
pub struct StatefulList<T> {
    pub state: ListState,
    pub items: Vec<T>,
}

impl<T> StatefulList<T> {
    /// A selection, if present, addresses an existing item.
    pub open spec fn wf(self) -> bool {
        match self.state.selected {
            Option::None => true,
            Option::Some(i) => i < self.items.len(),
        }
    }

    /// A fresh collection with no selection.
    pub fn with_items(items: Vec<T>) -> (r: StatefulList<T>)
        ensures
            r.items == items,
            r.state.selected is None,
            r.wf(),
    {
        StatefulList { state: ListState::default(), items }
    }

    /// Advance the selection by one, wrapping past the last item; selects the
    /// first item when nothing is selected. On an empty collection nothing
    /// changes, so the selection never leaves the items' bounds.
    pub fn next(&mut self)
        ensures
            final(self).items == old(self).items,
            old(self).items.len() == 0 ==> final(self).state == old(self).state,
            old(self).items.len() > 0 ==> final(self).state.selected
                == Some(next_index(old(self).state.selected, old(self).items.len())),
            old(self).items.len() > 0 ==> final(self).wf(),
            old(self).wf() ==> final(self).wf(),
    {
        if self.items.len() == 0 {
            return;
        }
        let i: usize = match self.state.selected {
            Some(i) => {
                if i >= self.items.len() - 1 {
                    0
                } else {
                    i + 1
                }
            }
            None => 0,
        };
        self.state.select(Some(i));
    }

    /// Move the selection back by one, wrapping from the first item to the
    /// last; selects the first item when nothing is selected. On an empty
    /// collection nothing changes, so the selection never leaves the items'
    /// bounds.
    pub fn previous(&mut self)
        ensures
            final(self).items == old(self).items,
            old(self).items.len() == 0 ==> final(self).state == old(self).state,
            old(self).items.len() > 0 ==> final(self).state.selected
                == Some(previous_index(old(self).state.selected, old(self).items.len())),
            old(self).wf() ==> final(self).wf(),
    {
        if self.items.len() == 0 {
            return;
        }
        let i: usize = match self.state.selected {
            Some(i) => {
                if i == 0 {
                    self.items.len() - 1
                } else {
                    i - 1
                }
            }
            None => 0,
        };
        self.state.select(Some(i));
    }
}

proof fn lemma_next_reaches(i: usize, len: usize, k: nat)
    requires
        len > 0,
        i < len,
        k <= len,
    ensures
        next_n(Some(i), len, k)
            == Some(if i + k < len { (i + k) as usize } else { (i + k - len) as usize }),
    decreases k,
{
    if k > 0 {
        lemma_next_reaches(i, len, (k - 1) as nat);
    }
}

proof fn lemma_previous_reaches(i: usize, len: usize, k: nat)
    requires
        len > 0,
        i < len,
        k <= len,
    ensures
        previous_n(Some(i), len, k)
            == Some(if k <= i { (i - k) as usize } else { (i + len - k) as usize }),
    decreases k,
{
    if k > 0 {
        lemma_previous_reaches(i, len, (k - 1) as nat);
    }
}

/// On a non-empty collection, `len` repeated `next` operations return the
/// selection to where it began.
pub proof fn lemma_next_cycle(i: usize, len: usize)
    requires
        len > 0,
        i < len,
    ensures
        next_n(Some(i), len, len as nat) == Some(i),
{
    lemma_next_reaches(i, len, len as nat);
}

/// On a non-empty collection, `len` repeated `previous` operations return the
/// selection to where it began.
pub proof fn lemma_previous_cycle(i: usize, len: usize)
    requires
        len > 0,
        i < len,
    ensures
        previous_n(Some(i), len, len as nat) == Some(i),
{
    lemma_previous_reaches(i, len, len as nat);
}

} // verus!
