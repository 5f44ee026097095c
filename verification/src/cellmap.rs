//! Values kept for single cells.

use std::collections::HashMap;

use vstd::prelude::*;

verus! {

broadcast use vstd::std_specs::hash::group_hash_axioms;

/// A value of type `V` for some cells.
#[derive(Debug)]
pub struct CellMap<V> {
    /// The values by the numbers of their cells.
    pub map: HashMap<u64, V>,
}

/// The number of a cell.
pub open spec fn cell_key(c: (u32, u32)) -> u64 {
    (c.0 * 0x1_0000_0000 + c.1) as u64
}

/// The cell with this number.
pub open spec fn key_cell(k: u64) -> (u32, u32) {
    ((k / 0x1_0000_0000) as u32, (k % 0x1_0000_0000) as u32)
}

/// Every cell has a number of its own.
pub proof fn lemma_cell_key(c: (u32, u32), k: u64)
    ensures
        key_cell(cell_key(c)) == c,
        cell_key(key_cell(k)) == k,
{
}

impl<V> View for CellMap<V> {
    type V = Map<(u32, u32), V>;

    open spec fn view(&self) -> Map<(u32, u32), V> {
        Map::new(
            |c: (u32, u32)| self.map@.dom().contains(cell_key(c)),
            |c: (u32, u32)| self.map@[cell_key(c)],
        )
    }
}

fn key_of(c: (u32, u32)) -> (k: u64)
    ensures
        k == cell_key(c),
{
    c.0 as u64 * 0x1_0000_0000 + c.1 as u64
}

impl<V: Copy> CellMap<V> {
    /// How many cells have a value.
    pub open spec fn size(&self) -> nat {
        self.map@.dom().len()
    }

    pub fn new() -> (m: CellMap<V>)
        ensures
            m@ == Map::<(u32, u32), V>::empty(),
            m.size() == 0,
    {
        let m = CellMap { map: HashMap::new() };
        assert(m@ =~= Map::<(u32, u32), V>::empty());
        m
    }

    pub fn len(&self) -> (n: usize)
        ensures
            n == self.size(),
    {
        self.map.len()
    }

    pub fn get(&self, c: (u32, u32)) -> (v: Option<V>)
        ensures
            v == (if self@.dom().contains(c) {
                Some(self@[c])
            } else {
                None
            }),
    {
        match self.map.get(&key_of(c)) {
            Some(v) => Some(*v),
            None => None,
        }
    }

    pub fn insert(&mut self, c: (u32, u32), v: V)
        ensures
            final(self)@ == old(self)@.insert(c, v),
    {
        self.map.insert(key_of(c), v);
        proof {
            assert forall|d: (u32, u32)| cell_key(d) == cell_key(c) implies d == c by {
                lemma_cell_key(c, 0);
                lemma_cell_key(d, 0);
            }
            assert(self@ =~= old(self)@.insert(c, v));
        }
    }

    pub fn remove(&mut self, c: (u32, u32))
        ensures
            final(self)@ == old(self)@.remove(c),
    {
        self.map.remove(&key_of(c));
        proof {
            assert forall|d: (u32, u32)| cell_key(d) == cell_key(c) implies d == c by {
                lemma_cell_key(c, 0);
                lemma_cell_key(d, 0);
            }
            assert(self@ =~= old(self)@.remove(c));
        }
    }

    /// The cells that have a value, in some order.
    pub fn cells(&self) -> (cells: Vec<(u32, u32)>)
        ensures
            cells@.no_duplicates(),
            cells@.len() == self.size(),
            forall|c: (u32, u32)| #[trigger] cells@.contains(c) <==> self@.dom().contains(c),
    {
        let mut cells: Vec<(u32, u32)> = Vec::new();
        let walk = self.map.keys();
        let ghost keys = vstd::std_specs::hash::into_iter_keys(walk);
        assert(keys.to_set() == self.map@.dom());
        for k in it: walk
            invariant
                it.seq().unref() == keys,
                cells@.len() == it.index(),
                forall|i: int| 0 <= i < cells@.len() ==> #[trigger] cells@[i] == key_cell(keys[i]),
        {
            cells.push(((*k / 0x1_0000_0000) as u32, (*k % 0x1_0000_0000) as u32));
        }
        proof {
            assert forall|i: int, j: int| 0 <= i < j < cells@.len() implies cells@[i]
                != cells@[j] by {
                lemma_cell_key((0, 0), keys[i]);
                lemma_cell_key((0, 0), keys[j]);
            }
            assert forall|c: (u32, u32)| #[trigger] cells@.contains(c) <==> self@.dom().contains(
                c,
            ) by {
                lemma_cell_key(c, 0);
                assert(keys.to_set().contains(cell_key(c)) <==> keys.contains(cell_key(c)));
                if cells@.contains(c) {
                    let i = cells@.index_of(c);
                    lemma_cell_key(c, keys[i]);
                    assert(keys.contains(keys[i]));
                }
                if keys.contains(cell_key(c)) {
                    let i = keys.index_of(cell_key(c));
                    assert(cells@[i] == c);
                }
            }
        }
        cells
    }
}

/// Cells and keys belong together, one to one.
pub proof fn law_keys_tell_cells_apart(c: (u32, u32), k: u64)
    ensures
        key_cell(cell_key(c)) == c,
        cell_key(key_cell(k)) == k,
{
    assert(c.0 * 0x1_0000_0000 + c.1 <= u64::MAX);
    assert((k / 0x1_0000_0000) as int * 0x1_0000_0000 + (k % 0x1_0000_0000) as int == k);
}

} // verus!
