//! Where chests stand and what they hold.

use vstd::prelude::*;

use crate::item::{InvSlot, CHEST_SLOTS};

verus! {

/// The contents of one chest; `origin` is its top left cell.
pub struct Chest {
    pub origin: (u32, u32),
    pub slots: Vec<Option<InvSlot>>,
}

/// All chests of a world, at most one per origin.
pub struct ChestStore {
    pub chests: Vec<Chest>,
}

/// The contents of the first chest of `chests` at `origin`.
pub open spec fn lookup(chests: Seq<Chest>, origin: (u32, u32)) -> Option<Seq<Option<InvSlot>>>
    decreases chests.len(),
{
    if chests.len() == 0 {
        None
    } else if chests.last().origin == origin {
        Some(chests.last().slots@)
    } else {
        lookup(chests.drop_last(), origin)
    }
}

impl View for ChestStore {
    type V = Map<(u32, u32), Seq<Option<InvSlot>>>;

    /// Contents by origin.
    open spec fn view(&self) -> Map<(u32, u32), Seq<Option<InvSlot>>> {
        Map::new(
            |o: (u32, u32)| lookup(self.chests@, o) is Some,
            |o: (u32, u32)| lookup(self.chests@, o)->Some_0,
        )
    }
}

/// Every chest in the store is known by its origin.
pub proof fn lemma_lookup(chests: Seq<Chest>, i: int)
    requires
        distinct(chests),
        0 <= i < chests.len(),
    ensures
        lookup(chests, chests[i].origin) == Some(chests[i].slots@),
    decreases chests.len(),
{
    if i < chests.len() - 1 {
        assert(chests[i].origin != chests[chests.len() - 1].origin);
        lemma_lookup(chests.drop_last(), i);
        assert(chests.drop_last()[i] == chests[i]);
    }
}

proof fn lemma_lookup_none(chests: Seq<Chest>, origin: (u32, u32))
    requires
        forall|i: int| 0 <= i < chests.len() ==> (#[trigger] chests[i]).origin != origin,
    ensures
        lookup(chests, origin) is None,
    decreases chests.len(),
{
    if chests.len() > 0 {
        assert(chests[chests.len() - 1].origin != origin);
        lemma_lookup_none(chests.drop_last(), origin);
    }
}

/// A chest that the store knows is somewhere in it.
pub proof fn lemma_has(chests: Seq<Chest>, origin: (u32, u32)) -> (i: int)
    requires
        lookup(chests, origin) is Some,
    ensures
        0 <= i < chests.len(),
        chests[i].origin == origin,
    decreases chests.len(),
{
    if chests.last().origin == origin {
        chests.len() - 1
    } else {
        let i = lemma_has(chests.drop_last(), origin);
        assert(chests.drop_last()[i] == chests[i]);
        i
    }
}

pub open spec fn distinct(chests: Seq<Chest>) -> bool {
    forall|i: int, j: int|
        0 <= i < j < chests.len() ==> (#[trigger] chests[i]).origin != (#[trigger] chests[j]).origin
}

impl ChestStore {
    /// No two chests share an origin.
    pub open spec fn wf(&self) -> bool {
        distinct(self.chests@)
    }

    pub fn new() -> (s: ChestStore)
        ensures
            s.wf(),
            s@ == Map::<(u32, u32), Seq<Option<InvSlot>>>::empty(),
    {
        let s = ChestStore { chests: Vec::new() };
        assert(s@ =~= Map::<(u32, u32), Seq<Option<InvSlot>>>::empty());
        s
    }

    /// The position of the chest at `origin`.
    pub fn position(&self, origin: (u32, u32)) -> (i: Option<usize>)
        requires
            self.wf(),
        ensures
            match i {
                Some(k) => {
                    &&& k < self.chests.len()
                    &&& self.chests@[k as int].origin == origin
                    &&& self@.dom().contains(origin)
                    &&& self@[origin] == self.chests@[k as int].slots@
                },
                None => !self@.dom().contains(origin),
            },
    {
        let mut i: usize = 0;
        while i < self.chests.len()
            invariant
                self.wf(),
                i <= self.chests.len(),
                forall|k: int| 0 <= k < i ==> (#[trigger] self.chests@[k]).origin != origin,
            decreases self.chests.len() - i,
        {
            let o: (u32, u32) = self.chests[i].origin;
            if o.0 == origin.0 && o.1 == origin.1 {
                proof {
                    lemma_lookup(self.chests@, i as int);
                }
                return Some(i);
            }
            i = i + 1;
        }
        proof {
            lemma_lookup_none(self.chests@, origin);
        }
        None
    }

    /// The contents at `origin`.
    pub fn get(&self, origin: (u32, u32)) -> (r: Option<&Vec<Option<InvSlot>>>)
        requires
            self.wf(),
        ensures
            match r {
                Some(slots) => self@.dom().contains(origin) && slots@ == self@[origin],
                None => !self@.dom().contains(origin),
            },
    {
        match self.position(origin) {
            Some(i) => Some(&self.chests[i].slots),
            None => None,
        }
    }

    /// Sets the contents at `origin`.
    pub fn insert(&mut self, origin: (u32, u32), slots: Vec<Option<InvSlot>>)
        requires
            old(self).wf(),
        ensures
            final(self).wf(),
            final(self)@ == old(self)@.insert(origin, slots@),
    {
        let ghost before = self.chests@;
        match self.position(origin) {
            Some(i) => {
                self.chests.set(i, Chest { origin, slots });
                proof {
                    lemma_replace(before, i as int, self.chests@[i as int]);
                }
                assert(self@ =~= old(self)@.insert(origin, slots@));
            },
            None => {
                self.chests.push(Chest { origin, slots });
                proof {
                    assert forall|i: int, j: int|
                        0 <= i < j < self.chests@.len() implies (#[trigger] self.chests@[i]).origin
                        != (#[trigger] self.chests@[j]).origin by {
                        if j == before.len() {
                            lemma_lookup(before, i);
                        }
                    }
                    assert forall|o: (u32, u32)| #[trigger]
                        lookup(self.chests@, o) == (if o == origin {
                            Some(slots@)
                        } else {
                            lookup(before, o)
                        }) by {
                        assert(self.chests@.drop_last() =~= before);
                    }
                }
                assert(self@ =~= old(self)@.insert(origin, slots@));
            },
        }
    }

    /// Forgets the chest at `origin`.
    pub fn remove(&mut self, origin: (u32, u32))
        requires
            old(self).wf(),
        ensures
            final(self).wf(),
            final(self)@ == old(self)@.remove(origin),
    {
        let ghost before = self.chests@;
        match self.position(origin) {
            Some(i) => {
                let gone = self.chests.remove(i);
                proof {
                    lemma_removed(before, i as int);
                }
                assert(self@ =~= old(self)@.remove(origin));
            },
            None => {
                assert(self@ =~= old(self)@.remove(origin));
            },
        }
    }

    /// Gives `origin` an empty chest of full size if it has none.
    pub fn ensure(&mut self, origin: (u32, u32))
        requires
            old(self).wf(),
        ensures
            final(self).wf(),
            final(self)@ == (if old(self)@.dom().contains(origin) {
                old(self)@
            } else {
                old(self)@.insert(origin, Seq::new(CHEST_SLOTS as nat, |i: int| None))
            }),
            final(self)@.dom() == old(self)@.dom().insert(origin),
            !old(self)@.dom().contains(origin) ==> final(self)@[origin].len() == 40,
            !old(self)@.dom().contains(origin) ==> forall|i: int|
                0 <= i < 40 ==> #[trigger] final(self)@[origin][i] is None,
            forall|o: (u32, u32)| #[trigger]
                old(self)@.dom().contains(o) ==> final(self)@[o] == old(self)@[o],
    {
        if self.position(origin).is_none() {
            let mut slots: Vec<Option<InvSlot>> = Vec::new();
            let mut i: usize = 0;
            while i < CHEST_SLOTS
                invariant
                    i <= CHEST_SLOTS,
                    slots.len() == i,
                    forall|k: int| 0 <= k < i ==> slots@[k] is None,
                decreases CHEST_SLOTS - i,
            {
                slots.push(None);
                i = i + 1;
            }
            assert(slots@ =~= Seq::new(CHEST_SLOTS as nat, |i: int| None));
            self.insert(origin, slots);
        }
    }
}

proof fn lemma_replace(chests: Seq<Chest>, i: int, c: Chest)
    requires
        distinct(chests),
        0 <= i < chests.len(),
        c.origin == chests[i].origin,
    ensures
        distinct(chests.update(i, c)),
        forall|o: (u32, u32)| #[trigger]
            lookup(chests.update(i, c), o) == (if o == c.origin {
                Some(c.slots@)
            } else {
                lookup(chests, o)
            }),
    decreases chests.len(),
{
    let u = chests.update(i, c);
    assert forall|a: int, b: int| 0 <= a < b < u.len() implies (#[trigger] u[a]).origin != (
    #[trigger] u[b]).origin by {
        assert(u[a].origin == chests[a].origin && u[b].origin == chests[b].origin);
    }
    assert forall|o: (u32, u32)| #[trigger]
        lookup(u, o) == (if o == c.origin {
            Some(c.slots@)
        } else {
            lookup(chests, o)
        }) by {
        if i == chests.len() - 1 {
            assert(u.drop_last() =~= chests.drop_last());
        } else {
            assert(u.drop_last() =~= chests.drop_last().update(i, c));
            assert(distinct(chests.drop_last()));
            lemma_replace(chests.drop_last(), i, c);
            assert(chests[i].origin != chests[chests.len() - 1].origin);
            assert(lookup(chests.drop_last().update(i, c), o) == (if o == c.origin {
                Some(c.slots@)
            } else {
                lookup(chests.drop_last(), o)
            }));
        }
    }
}

proof fn lemma_removed(chests: Seq<Chest>, i: int)
    requires
        distinct(chests),
        0 <= i < chests.len(),
    ensures
        distinct(chests.remove(i)),
        forall|o: (u32, u32)| #[trigger]
            lookup(chests.remove(i), o) == (if o == chests[i].origin {
                None
            } else {
                lookup(chests, o)
            }),
    decreases chests.len(),
{
    let r = chests.remove(i);
    assert forall|a: int, b: int| 0 <= a < b < r.len() implies (#[trigger] r[a]).origin != (
    #[trigger] r[b]).origin by {
        let a2 = if a < i { a } else { a + 1 };
        let b2 = if b < i { b } else { b + 1 };
        assert(r[a] == chests[a2] && r[b] == chests[b2]);
    }
    assert forall|o: (u32, u32)| #[trigger]
        lookup(r, o) == (if o == chests[i].origin {
            None
        } else {
            lookup(chests, o)
        }) by {
        if i == chests.len() - 1 {
            assert(r =~= chests.drop_last());
            if o == chests[i].origin {
                assert forall|k: int| 0 <= k < r.len() implies (#[trigger] r[k]).origin != o by {
                    assert(chests[k].origin != chests[i].origin);
                }
                lemma_lookup_none(r, o);
            }
        } else {
            assert(r.drop_last() =~= chests.drop_last().remove(i));
            assert(distinct(chests.drop_last()));
            lemma_removed(chests.drop_last(), i);
            assert(chests[i].origin != chests[chests.len() - 1].origin);
            assert(r.last() == chests.last());
            assert(lookup(chests.drop_last().remove(i), o) == (if o == chests.drop_last()[i].origin {
                None
            } else {
                lookup(chests.drop_last(), o)
            }));
        }
    }
}

/// A chest that stands in the store is found with what it holds, and no other.
pub proof fn law_chests_are_found_by_their_place(chests: Seq<Chest>, k: int, o: (u32, u32))
    requires
        distinct(chests),
        0 <= k < chests.len(),
    ensures
        lookup(chests, chests[k].origin) == Some(chests[k].slots@),
        (forall|i: int| 0 <= i < chests.len() ==> (#[trigger] chests[i]).origin != o) ==> lookup(
            chests,
            o,
        ) is None,
    decreases chests.len(),
{
    if k < chests.len() - 1 {
        assert(chests.drop_last()[k] == chests[k]);
        assert(distinct(chests.drop_last()));
        assert(chests[k].origin != chests.last().origin);
        law_chests_are_found_by_their_place(chests.drop_last(), k, o);
    }
    if forall|i: int| 0 <= i < chests.len() ==> (#[trigger] chests[i]).origin != o {
        lemma_not_found(chests, o);
    }
}

proof fn lemma_not_found(chests: Seq<Chest>, o: (u32, u32))
    requires
        forall|i: int| 0 <= i < chests.len() ==> (#[trigger] chests[i]).origin != o,
    ensures
        lookup(chests, o) is None,
    decreases chests.len(),
{
    if chests.len() > 0 {
        assert forall|i: int| 0 <= i < chests.drop_last().len() implies (
        #[trigger] chests.drop_last()[i]).origin != o by {
            assert(chests.drop_last()[i] == chests[i]);
        }
        lemma_not_found(chests.drop_last(), o);
        assert(chests.last() == chests[chests.len() - 1]);
    }
}

} // verus!
