//! The store registry: one open engine connection per path, shared by every
//! collection handle on that path and counted, so that the last handle to
//! go releases it.
use vstd::prelude::*;

verus! {

struct Slot<H> {
    path: String,
    handle: H,
    count: u64,
}

/// Paths mapped to their shared connection and the number of live handles.
pub struct StoreRegistry<H> {
    slots: Vec<Slot<H>>,
}

impl<H> StoreRegistry<H> {
    /// The index of the slot for `p`, if any.
    spec fn index_of(&self, p: Seq<char>) -> int {
        choose|i: int| 0 <= i < self.slots@.len() && (#[trigger] self.slots@[i]).path@ == p
    }

    /// Whether a connection for `p` is registered.
    pub closed spec fn has(&self, p: Seq<char>) -> bool {
        exists|i: int| 0 <= i < self.slots@.len() && (#[trigger] self.slots@[i]).path@ == p
    }

    /// The number of live handles on `p` (0 where none is registered).
    pub closed spec fn count_of(&self, p: Seq<char>) -> nat {
        if self.has(p) {
            self.slots@[self.index_of(p)].count as nat
        } else {
            0
        }
    }

    /// The connection shared on `p`.
    pub closed spec fn handle_of(&self, p: Seq<char>) -> H {
        self.slots@[self.index_of(p)].handle
    }

    /// Each path has at most one slot, and each slot has a live handle.
    pub closed spec fn wf(&self) -> bool {
        &&& forall|i: int, j: int|
            0 <= i < j < self.slots@.len() ==> (#[trigger] self.slots@[i]).path@ != (#[trigger] self.slots@[j]).path@
        &&& forall|i: int| 0 <= i < self.slots@.len() ==> (#[trigger] self.slots@[i]).count >= 1
    }

    proof fn lemma_index(&self, i: int)
        requires
            self.wf(),
            0 <= i < self.slots@.len(),
        ensures
            self.has(self.slots@[i].path@),
            self.index_of(self.slots@[i].path@) == i,
    {
        let p = self.slots@[i].path@;
        assert(self.has(p));
        let k = self.index_of(p);
        if k < i {
            assert(self.slots@[k].path@ != self.slots@[i].path@);
        } else if k > i {
            assert(self.slots@[i].path@ != self.slots@[k].path@);
        }
    }

    pub fn new() -> (r: Self)
        ensures
            r.wf(),
            forall|p: Seq<char>| !r.has(p),
    {
        StoreRegistry { slots: Vec::new() }
    }

    fn find(&self, path: &String) -> (r: Option<usize>)
        requires
            self.wf(),
        ensures
            r is None <==> !self.has(path@),
            r is Some ==> r->Some_0 < self.slots@.len() && self.slots@[r->Some_0 as int].path@
                == path@ && self.index_of(path@) == r->Some_0,
    {
        let mut i: usize = 0;
        while i < self.slots.len()
            invariant
                self.wf(),
                i <= self.slots@.len(),
                forall|j: int| 0 <= j < i ==> (#[trigger] self.slots@[j]).path@ != path@,
            decreases self.slots@.len() - i,
        {
            if self.slots[i].path == *path {
                proof {
                    self.lemma_index(i as int);
                }
                return Some(i);
            }
            i = i + 1;
        }
        None
    }

    /// Whether a connection for `path` is registered.
    pub fn contains(&self, path: &String) -> (r: bool)
        requires
            self.wf(),
        ensures
            r == self.has(path@),
    {
        self.find(path).is_some()
    }

    /// The number of live handles on `path`.
    pub fn count(&self, path: &String) -> (r: u64)
        requires
            self.wf(),
        ensures
            r == self.count_of(path@),
    {
        match self.find(path) {
            Some(i) => self.slots[i].count,
            None => 0,
        }
    }

    /// The connection shared on `path`, if one is registered.
    pub fn handle(&self, path: &String) -> (r: Option<&H>)
        requires
            self.wf(),
        ensures
            r is None <==> !self.has(path@),
            r is Some ==> *r->Some_0 == self.handle_of(path@),
    {
        match self.find(path) {
            Some(i) => Some(&self.slots[i].handle),
            None => None,
        }
    }

    /// Joins a registered connection: where `path` has one, its count grows
    /// by one and `true` comes back; else nothing changes and the caller
    /// opens the engine and calls `attach`.
    pub fn acquire(&mut self, path: &String) -> (r: bool)
        requires
            old(self).wf(),
            old(self).count_of(path@) < u64::MAX,
        ensures
            final(self).wf(),
            r == old(self).has(path@),
            forall|p: Seq<char>| #[trigger] final(self).has(p) == old(self).has(p),
            forall|p: Seq<char>|
                p != path@ ==> #[trigger] final(self).count_of(p) == old(self).count_of(p)
                    && (old(self).has(p) ==> final(self).handle_of(p) == old(self).handle_of(p)),
            r ==> final(self).count_of(path@) == old(self).count_of(path@) + 1,
            r ==> final(self).handle_of(path@) == old(self).handle_of(path@),
            !r ==> final(self).count_of(path@) == 0,
    {
        match self.find(path) {
            Some(i) => {
                let ghost before = *self;
                let c = self.slots[i].count;
                self.slots[i].count = c + 1;
                proof {
                    assert forall|j: int| 0 <= j < self.slots@.len() implies (#[trigger] self.slots@[j]).path@
                        == before.slots@[j].path@ && self.slots@[j].handle == before.slots@[j].handle
                        && (j != i ==> self.slots@[j].count == before.slots@[j].count) by {}
                    assert forall|p: Seq<char>| #[trigger] self.has(p) == before.has(p) by {
                        if before.has(p) {
                            let k = before.index_of(p);
                            assert(self.slots@[k].path@ == p);
                        }
                        if self.has(p) {
                            let k = self.index_of(p);
                            assert(before.slots@[k].path@ == p);
                        }
                    }
                    assert forall|p: Seq<char>| p != path@ implies #[trigger] self.count_of(p)
                        == before.count_of(p) && (before.has(p) ==> self.handle_of(p)
                        == before.handle_of(p)) by {
                        if before.has(p) {
                            let k = before.index_of(p);
                            before.lemma_index(k);
                            self.lemma_index(k);
                        }
                    }
                    self.lemma_index(i as int);
                }
                true
            },
            None => false,
        }
    }

    /// Registers the connection just opened on `path`, with one handle.
    pub fn attach(&mut self, path: String, handle: H)
        requires
            old(self).wf(),
            !old(self).has(path@),
        ensures
            final(self).wf(),
            final(self).has(path@),
            final(self).count_of(path@) == 1,
            final(self).handle_of(path@) == handle,
            forall|p: Seq<char>|
                p != path@ ==> #[trigger] final(self).has(p) == old(self).has(p)
                    && final(self).count_of(p) == old(self).count_of(p) && (old(self).has(p)
                    ==> final(self).handle_of(p) == old(self).handle_of(p)),
    {
        let ghost before = *self;
        let ghost p0 = path@;
        self.slots.push(Slot { path, handle, count: 1 });
        proof {
            let n = before.slots@.len() as int;
            assert forall|i: int, j: int| 0 <= i < j < self.slots@.len() implies (#[trigger] self.slots@[i]).path@
                != (#[trigger] self.slots@[j]).path@ by {
                if j == n {
                    assert(before.slots@[i].path@ == self.slots@[i].path@);
                }
            }
            self.lemma_index(n);
            assert forall|p: Seq<char>| p != p0 implies #[trigger] self.has(p) == before.has(p)
                && self.count_of(p) == before.count_of(p) && (before.has(p) ==> self.handle_of(p)
                == before.handle_of(p)) by {
                if before.has(p) {
                    let k = before.index_of(p);
                    before.lemma_index(k);
                    assert(self.slots@[k] == before.slots@[k]);
                    self.lemma_index(k);
                }
                if self.has(p) {
                    let k = self.index_of(p);
                    assert(k != n);
                    assert(before.slots@[k].path@ == p);
                }
            }
        }
    }
    /// Drops one handle on `path`. At the last one the slot goes and its
    /// connection comes back, for the caller to close; before that the count
    /// only shrinks by one. An unregistered path changes nothing.
    pub fn release(&mut self, path: &String) -> (r: Option<H>)
        requires
            old(self).wf(),
        ensures
            final(self).wf(),
            old(self).count_of(path@) == 1 <==> r is Some,
            r is Some ==> r->Some_0 == old(self).handle_of(path@) && !final(self).has(path@),
            old(self).count_of(path@) > 1 ==> final(self).has(path@) && final(self).count_of(path@)
                == old(self).count_of(path@) - 1 && final(self).handle_of(path@) == old(
                self,
            ).handle_of(path@),
            !old(self).has(path@) ==> !final(self).has(path@),
            forall|p: Seq<char>|
                p != path@ ==> #[trigger] final(self).has(p) == old(self).has(p)
                    && final(self).count_of(p) == old(self).count_of(p) && (old(self).has(p)
                    ==> final(self).handle_of(p) == old(self).handle_of(p)),
    {
        let ghost before = *self;
        match self.find(path) {
            None => None,
            Some(i) => {
                let c = self.slots[i].count;
                if c > 1 {
                    self.slots[i].count = c - 1;
                    proof {
                        assert forall|j: int| 0 <= j < self.slots@.len() implies (#[trigger] self.slots@[j]).path@
                            == before.slots@[j].path@ && self.slots@[j].handle
                            == before.slots@[j].handle && (j != i ==> self.slots@[j].count
                            == before.slots@[j].count) by {}
                        self.lemma_index(i as int);
                        assert forall|p: Seq<char>| p != path@ implies #[trigger] self.has(p)
                            == before.has(p) && self.count_of(p) == before.count_of(p) && (before.has(p)
                            ==> self.handle_of(p) == before.handle_of(p)) by {
                            if before.has(p) {
                                let k = before.index_of(p);
                                before.lemma_index(k);
                                self.lemma_index(k);
                            }
                            if self.has(p) {
                                let k = self.index_of(p);
                                assert(before.slots@[k].path@ == p);
                            }
                        }
                    }
                    None
                } else {
                    let slot = self.slots.swap_remove(i);
                    proof {
                        let n = before.slots@.len() as int;
                        let moved = |j: int| if j == i { n - 1 } else { j };
                        assert forall|j: int| 0 <= j < self.slots@.len() implies #[trigger] self.slots@[j]
                            == before.slots@[moved(j)] by {}
                        assert forall|a: int, b: int| 0 <= a < b < self.slots@.len() implies (#[trigger] self.slots@[a]).path@
                            != (#[trigger] self.slots@[b]).path@ by {
                            assert(self.slots@[a] == before.slots@[moved(a)]);
                            assert(self.slots@[b] == before.slots@[moved(b)]);
                            if moved(a) < moved(b) {
                                assert(before.slots@[moved(a)].path@ != before.slots@[moved(b)].path@);
                            } else {
                                assert(before.slots@[moved(b)].path@ != before.slots@[moved(a)].path@);
                            }
                        }
                        assert forall|j: int| 0 <= j < self.slots@.len() implies (#[trigger] self.slots@[j]).count >= 1 by {
                            assert(self.slots@[j] == before.slots@[moved(j)]);
                        }
                        if self.has(path@) {
                            let k = self.index_of(path@);
                            assert(self.slots@[k] == before.slots@[moved(k)]);
                            before.lemma_index(moved(k));
                        }
                        assert forall|p: Seq<char>| p != path@ implies #[trigger] self.has(p)
                            == before.has(p) && self.count_of(p) == before.count_of(p) && (before.has(p)
                            ==> self.handle_of(p) == before.handle_of(p)) by {
                            if before.has(p) {
                                let k = before.index_of(p);
                                before.lemma_index(k);
                                assert(k != i);
                                let k2 = if k == n - 1 { i as int } else { k };
                                assert(self.slots@[k2] == before.slots@[moved(k2)]);
                                self.lemma_index(k2);
                            }
                            if self.has(p) {
                                let k = self.index_of(p);
                                assert(self.slots@[k] == before.slots@[moved(k)]);
                            }
                        }
                    }
                    Some(slot.handle)
                }
            },
        }
    }
}

} // verus!
