//! A minimal generic container pairing an ordered sequence of items with a
//! cursor. The cursor is absent exactly when the list is empty; `next` and
//! `previous` move it by one position with circular wrap-around.

use vstd::prelude::*;

verus! {

/// The cursor position after one forward step through a list of length
/// `len`: one past `i`, wrapping to the front after the last item.
pub open spec fn next_index(len: int, i: int) -> int {
    if i + 1 >= len {
        0
    } else {
        i + 1
    }
}

/// The cursor position after one backward step through a list of length
/// `len`: one before `i`, wrapping to the back before the first item.
pub open spec fn prev_index(len: int, i: int) -> int {
    if i == 0 {
        len - 1
    } else {
        i - 1
    }
}

/// The cursor position after `k` forward steps from `i`.
pub open spec fn iter_next_index(len: int, i: int, k: nat) -> int
    decreases k,
{
    if k == 0 {
        i
    } else {
        next_index(len, iter_next_index(len, i, (k - 1) as nat))
    }
}

/// The cursor position after `k` backward steps from `i`.
pub open spec fn iter_prev_index(len: int, i: int, k: nat) -> int
    decreases k,
{
    if k == 0 {
        i
    } else {
        prev_index(len, iter_prev_index(len, i, (k - 1) as nat))
    }
}

/// An ordered sequence of items plus an optional cursor into it.
pub struct StatefulList<T> {
    pub items: Vec<T>,
    pub cursor: Option<usize>,
}

impl<T> StatefulList<T> {
    /// The cursor is `None` exactly when the list is empty; otherwise it is
    /// a valid index.
    pub open spec fn wf(self) -> bool {
        match self.cursor {
            Some(i) => i < self.items.len(),
            None => self.items.len() == 0,
        }
    }

    /// Builds a list with the cursor on the first item, or with no cursor
    /// when there are no items.
    pub fn with_items(items: Vec<T>) -> (list: StatefulList<T>)
        ensures
            list.wf(),
            list.items == items,
            list.cursor == if items.len() == 0 {
                Option::<usize>::None
            } else {
                Option::<usize>::Some(0usize)
            },
    {
        let cursor: Option<usize> = if items.len() == 0 {
            None
        } else {
            Some(0)
        };
        StatefulList { items, cursor }
    }

    /// Moves the cursor one item forward, wrapping to the first item past
    /// the end. On an empty list nothing changes.
    pub fn next(&mut self)
        requires
            old(self).wf(),
        ensures
            final(self).wf(),
            final(self).items == old(self).items,
            final(self).cursor == match old(self).cursor {
                Some(i) => Option::<usize>::Some(
                    next_index(old(self).items.len() as int, i as int) as usize,
                ),
                None => Option::<usize>::None,
            },
            old(self).items.len() == 0 ==> *final(self) == *old(self),
    {
        match self.cursor {
            Some(i) => {
                let j: usize = if i + 1 >= self.items.len() {
                    0
                } else {
                    i + 1
                };
                self.cursor = Some(j);
            },
            None => {},
        }
    }

    /// Moves the cursor one item backward, wrapping to the last item before
    /// the front. On an empty list nothing changes.
    pub fn previous(&mut self)
        requires
            old(self).wf(),
        ensures
            final(self).wf(),
            final(self).items == old(self).items,
            final(self).cursor == match old(self).cursor {
                Some(i) => Option::<usize>::Some(
                    prev_index(old(self).items.len() as int, i as int) as usize,
                ),
                None => Option::<usize>::None,
            },
            old(self).items.len() == 0 ==> *final(self) == *old(self),
    {
        match self.cursor {
            Some(i) => {
                let j: usize = if i == 0 {
                    self.items.len() - 1
                } else {
                    i - 1
                };
                self.cursor = Some(j);
            },
            None => {},
        }
    }
}

/// After `k <= len` forward steps from a valid cursor the position is the
/// plain sum `i + k`, reduced once if it passed the end.
proof fn lemma_iter_next_index_value(len: int, i: int, k: nat)
    requires
        0 <= i < len,
        k <= len,
    ensures
        iter_next_index(len, i, k) == if i + k < len {
            i + k
        } else {
            i + k - len
        },
    decreases k,
{
    if k > 0 {
        lemma_iter_next_index_value(len, i, (k - 1) as nat);
    }
}

/// After `k <= len` backward steps from a valid cursor the position is the
/// plain difference `i - k`, raised once if it passed the front.
proof fn lemma_iter_prev_index_value(len: int, i: int, k: nat)
    requires
        0 <= i < len,
        k <= len,
    ensures
        iter_prev_index(len, i, k) == if i - k >= 0 {
            i - k
        } else {
            i - k + len
        },
    decreases k,
{
    if k > 0 {
        lemma_iter_prev_index_value(len, i, (k - 1) as nat);
    }
}

/// Law: on a non-empty list of length `len`, stepping the cursor forward
/// `len` times from any valid position returns it to that position.
pub proof fn lemma_next_full_cycle(len: int, i: int)
    requires
        0 <= i < len,
    ensures
        iter_next_index(len, i, len as nat) == i,
{
    lemma_iter_next_index_value(len, i, len as nat);
}

/// Law: on a non-empty list of length `len`, stepping the cursor backward
/// `len` times from any valid position returns it to that position.
pub proof fn lemma_prev_full_cycle(len: int, i: int)
    requires
        0 <= i < len,
    ensures
        iter_prev_index(len, i, len as nat) == i,
{
    lemma_iter_prev_index_value(len, i, len as nat);
}

/// Law: one forward step followed by one backward step leaves a valid
/// cursor where it began, and likewise in the other order.
pub proof fn lemma_next_then_prev_identity(len: int, i: int)
    requires
        0 <= i < len,
    ensures
        prev_index(len, next_index(len, i)) == i,
        next_index(len, prev_index(len, i)) == i,
{
}

} // verus!
