//! An executor's table of actor cells: unique URIs, the shutdown bit of each,
//! and the order of a delivery sweep.
use vstd::prelude::*;
use crate::cell::{CellState, is_shutdown, set_shutdown, SHUTDOWN};
use crate::table::{keys_unique, lookup, lemma_lookup_absent, lemma_lookup_found, lemma_lookup_push, lemma_lookup_remove, lemma_unique_push};
use crate::uri::{Uri, UriView};

verus! {

/// One assigned actor: its URI, its state bits and what the executor keeps for it.
pub struct CellSlot<C> {
    pub uri: Uri,
    pub state: CellState,
    pub cell: C,
}

/// The cells an executor owns, in the order it sweeps them.
pub struct CellTable<C> {
    pub slots: Vec<CellSlot<C>>,
}

impl<C> CellTable<C> {
    pub open spec fn view_pairs(&self) -> Seq<(UriView, (CellState, C))> {
        self.slots@.map_values(|s: CellSlot<C>| (s.uri@, (s.state, s.cell)))
    }

    /// No URI is assigned twice.
    pub open spec fn wf(&self) -> bool {
        keys_unique(self.view_pairs())
    }

    /// An empty table.
    pub fn new() -> (r: CellTable<C>)
        ensures
            r.wf(),
            r.slots@.len() == 0,
    {
        CellTable { slots: Vec::new() }
    }

    /// The position of `uri`, if assigned.
    pub fn index_of(&self, uri: &Uri) -> (r: Option<usize>)
        requires
            self.wf(),
        ensures
            match r {
                Some(i) => i < self.slots@.len() && self.slots@[i as int].uri@ == uri@
                    && lookup(self.view_pairs(), uri@) == Some(self.view_pairs()[i as int].1),
                None => lookup(self.view_pairs(), uri@) is None,
            },
    {
        let mut i: usize = 0;
        while i < self.slots.len()
            invariant
                self.wf(),
                i <= self.slots@.len(),
                forall|j: int| 0 <= j < i ==> self.view_pairs()[j].0 != uri@,
            decreases self.slots@.len() - i,
        {
            if self.slots[i].uri.eq(uri) {
                proof {
                    lemma_lookup_found(self.view_pairs(), i as int);
                }
                return Some(i);
            }
            i = i + 1;
        }
        proof {
            lemma_lookup_absent(self.view_pairs(), uri@);
        }
        None
    }

    /// True iff `uri` is assigned here.
    pub fn contains(&self, uri: &Uri) -> (r: bool)
        requires
            self.wf(),
        ensures
            r == lookup(self.view_pairs(), uri@) is Some,
    {
        self.index_of(uri).is_some()
    }

    /// Assigns a new cell, running and not shutting down. Assigning a URI twice
    /// is a programming error that the caller rules out with `contains`.
    pub fn assign(&mut self, uri: Uri, cell: C)
        requires
            old(self).wf(),
            lookup(old(self).view_pairs(), uri@) is None,
        ensures
            final(self).wf(),
            forall|k: UriView|
                lookup(final(self).view_pairs(), k) == if k == uri@ {
                    Some((0u8, cell))
                } else {
                    lookup(old(self).view_pairs(), k)
                },
            final(self).slots@.len() == old(self).slots@.len() + 1,
    {
        let ghost before = self.view_pairs();
        let ghost e = (uri@, (0u8, cell));
        self.slots.push(CellSlot { uri, state: 0, cell });
        assert(self.view_pairs() =~= before.push(e));
        proof {
            lemma_unique_push(before, e);
            assert forall|k: UriView|
                lookup(self.view_pairs(), k) == if k == e.0 {
                    Some(e.1)
                } else {
                    lookup(before, k)
                } by {
                lemma_lookup_push(before, e, k);
            }
        }
    }

    /// Sets the shutdown bit of the cell at `i`; nothing else changes.
    pub fn mark_shutdown(&mut self, i: usize)
        requires
            old(self).wf(),
            i < old(self).slots@.len(),
        ensures
            final(self).wf(),
            final(self).slots@.len() == old(self).slots@.len(),
            final(self).slots@[i as int].uri == old(self).slots@[i as int].uri,
            final(self).slots@[i as int].cell == old(self).slots@[i as int].cell,
            final(self).slots@[i as int].state == old(self).slots@[i as int].state | SHUTDOWN,
            final(self).slots@[i as int].state & SHUTDOWN == SHUTDOWN,
            forall|j: int|
                0 <= j < old(self).slots@.len() && j != i ==> final(self).slots@[j]
                    == old(self).slots@[j],
    {
        let ghost before = self.view_pairs();
        let mut slot = self.slots.remove(i);
        set_shutdown(&mut slot.state);
        self.slots.insert(i, slot);
        proof {
            assert forall|a: int, b: int|
                0 <= a < b < self.view_pairs().len() implies self.view_pairs()[a].0
                != self.view_pairs()[b].0 by {
                assert(self.view_pairs()[a].0 == before[a].0);
                assert(self.view_pairs()[b].0 == before[b].0);
            }
        }
    }

    /// Removes and returns the cell of `uri`, if assigned.
    pub fn remove(&mut self, uri: &Uri) -> (r: Option<C>)
        requires
            old(self).wf(),
        ensures
            final(self).wf(),
            match lookup(old(self).view_pairs(), uri@) {
                None => r is None && final(self).slots == old(self).slots,
                Some(v) => r == Some(v.1),
            },
            forall|k: UriView|
                lookup(final(self).view_pairs(), k) == if k == uri@ {
                    None
                } else {
                    lookup(old(self).view_pairs(), k)
                },
    {
        match self.index_of(uri) {
            None => {
                proof {
                    assert forall|k: UriView|
                        lookup(self.view_pairs(), k) == if k == uri@ {
                            None
                        } else {
                            lookup(self.view_pairs(), k)
                        } by {}
                }
                None
            },
            Some(i) => {
                let ghost before = self.view_pairs();
                let slot = self.slots.remove(i);
                assert(self.view_pairs() =~= before.remove(i as int));
                proof {
                    assert forall|k: UriView|
                        lookup(self.view_pairs(), k) == if k == uri@ {
                            None
                        } else {
                            lookup(before, k)
                        } by {
                        lemma_lookup_remove(before, i as int, k);
                    }
                    lemma_lookup_remove(before, i as int, uri@);
                }
                Some(slot.cell)
            },
        }
    }

    /// The positions to visit in one delivery sweep: every cell not shutting
    /// down, once each, in table order.
    pub fn sweep_order(&self) -> (r: Vec<usize>)
        ensures
            forall|k: int| 0 <= k < r@.len() ==> (r@[k] as int) < self.slots@.len(),
            forall|k: int| 0 <= k < r@.len() ==> self.slots@[r@[k] as int].state & SHUTDOWN != SHUTDOWN,
            forall|a: int, b: int| 0 <= a < b < r@.len() ==> r@[a] < r@[b],
            forall|j: int|
                0 <= j < self.slots@.len() && self.slots@[j].state & SHUTDOWN != SHUTDOWN
                    ==> r@.contains(j as usize),
    {
        let mut r: Vec<usize> = Vec::new();
        let mut i: usize = 0;
        while i < self.slots.len()
            invariant
                i <= self.slots@.len(),
                forall|k: int| 0 <= k < r@.len() ==> (r@[k] as int) < i,
                forall|k: int| 0 <= k < r@.len() ==> self.slots@[r@[k] as int].state & SHUTDOWN != SHUTDOWN,
                forall|a: int, b: int| 0 <= a < b < r@.len() ==> r@[a] < r@[b],
                forall|j: int|
                    0 <= j < i && self.slots@[j].state & SHUTDOWN != SHUTDOWN ==> r@.contains(
                        j as usize,
                    ),
            decreases self.slots@.len() - i,
        {
            if !is_shutdown(self.slots[i].state) {
                let ghost before = r@;
                r.push(i);
                proof {
                    assert forall|j: int|
                        0 <= j <= i && self.slots@[j].state & SHUTDOWN != SHUTDOWN implies r@.contains(
                        j as usize,
                    ) by {
                        if j < i {
                            let k = choose|k: int| 0 <= k < before.len() && before[k] == j as usize;
                            assert(r@[k] == j as usize);
                        } else {
                            assert(r@[before.len() as int] == i);
                        }
                    }
                }
            }
            i = i + 1;
        }
        r
    }
}

} // verus!
