//! Sorting cells.

use vstd::prelude::*;
use vstd::relations::{sorted_by, total_ordering};
use vstd::seq_lib::lemma_sorted_unique;

verus! {

/// The orders in which cells are visited.
#[derive(Debug, Clone, Copy, PartialEq, Eq, Structural)]
pub enum CellOrder {
    /// The lowest row first, each row from left to right.
    BottomUp,
    /// Column by column, each column from the top.
    ByColumn,
}

impl CellOrder {
    pub open spec fn spec_leq(self, a: (u32, u32), b: (u32, u32)) -> bool {
        match self {
            CellOrder::BottomUp => a.1 > b.1 || (a.1 == b.1 && a.0 <= b.0),
            CellOrder::ByColumn => a.0 < b.0 || (a.0 == b.0 && a.1 <= b.1),
        }
    }

    pub open spec fn relation(self) -> spec_fn((u32, u32), (u32, u32)) -> bool {
        |a: (u32, u32), b: (u32, u32)| self.spec_leq(a, b)
    }

    /// `cells` in this order.
    pub open spec fn sorted(self, cells: Seq<(u32, u32)>) -> Seq<(u32, u32)> {
        cells.sort_by(self.relation())
    }

    pub fn leq(self, a: (u32, u32), b: (u32, u32)) -> (r: bool)
        ensures
            r == self.spec_leq(a, b),
    {
        match self {
            CellOrder::BottomUp => a.1 > b.1 || (a.1 == b.1 && a.0 <= b.0),
            CellOrder::ByColumn => a.0 < b.0 || (a.0 == b.0 && a.1 <= b.1),
        }
    }
}

pub proof fn lemma_order_total(ord: CellOrder)
    ensures
        total_ordering(ord.relation()),
{
}

/// Sorting keeps the cells: each occurs as often as before.
pub proof fn lemma_sorted_cells(ord: CellOrder, s: Seq<(u32, u32)>)
    ensures
        sorted_by(ord.sorted(s), ord.relation()),
        ord.sorted(s).to_multiset() == s.to_multiset(),
        ord.sorted(s).len() == s.len(),
        forall|c: (u32, u32)| #[trigger] ord.sorted(s).contains(c) <==> s.contains(c),
        s.no_duplicates() ==> ord.sorted(s).no_duplicates(),
{
    broadcast use vstd::seq_lib::group_to_multiset_ensures;

    lemma_order_total(ord);
    s.lemma_sort_by_ensures(ord.relation());
    let t = ord.sorted(s);
    assert(t.to_multiset().len() == t.len());
    assert(s.to_multiset().len() == s.len());
    assert forall|c: (u32, u32)| t.contains(c) <==> s.contains(c) by {
        assert(t.to_multiset().count(c) == s.to_multiset().count(c));
    }
    if s.no_duplicates() {
        s.lemma_multiset_has_no_duplicates();
        assert forall|c: (u32, u32)| t.to_multiset().contains(c) implies t.to_multiset().count(c)
            == 1 by {}
        t.lemma_multiset_has_no_duplicates_conv();
    }
}

fn merge(ord: CellOrder, a: &Vec<(u32, u32)>, b: &Vec<(u32, u32)>) -> (out: Vec<(u32, u32)>)
    requires
        sorted_by(a@, ord.relation()),
        sorted_by(b@, ord.relation()),
        a.len() + b.len() <= usize::MAX,
    ensures
        sorted_by(out@, ord.relation()),
        out@.to_multiset() == a@.to_multiset().add(b@.to_multiset()),
{
    broadcast use vstd::seq_lib::group_to_multiset_ensures;

    let mut out: Vec<(u32, u32)> = Vec::with_capacity(a.len() + b.len());
    let mut i: usize = 0;
    let mut j: usize = 0;
    proof {
        assert(a@.take(0) =~= Seq::empty());
        assert(b@.take(0) =~= Seq::empty());
        assert(out@.to_multiset() =~= a@.take(0).to_multiset().add(b@.take(0).to_multiset()));
    }
    while i < a.len() || j < b.len()
        invariant
            i <= a.len(),
            j <= b.len(),
            sorted_by(a@, ord.relation()),
            sorted_by(b@, ord.relation()),
            sorted_by(out@, ord.relation()),
            out@.to_multiset() == a@.take(i as int).to_multiset().add(
                b@.take(j as int).to_multiset(),
            ),
            forall|k: int|
                0 <= k < out.len() && i < a.len() ==> ord.spec_leq(#[trigger] out@[k], a@[i as int]),
            forall|k: int|
                0 <= k < out.len() && j < b.len() ==> ord.spec_leq(#[trigger] out@[k], b@[j as int]),
        decreases a.len() - i + b.len() - j,
    {
        broadcast use vstd::seq_lib::group_to_multiset_ensures;

        let ghost before = out@;
        if j >= b.len() || (i < a.len() && ord.leq(a[i], b[j])) {
            out.push(a[i]);
            proof {
                assert(a@.take(i + 1) =~= a@.take(i as int).push(a@[i as int]));
                if i + 1 < a.len() {
                    assert(ord.relation()(a@[i as int], a@[i + 1]));
                }
                assert(out@.to_multiset() =~= a@.take(i + 1).to_multiset().add(
                    b@.take(j as int).to_multiset(),
                ));
            }
            i = i + 1;
        } else {
            out.push(b[j]);
            proof {
                assert(b@.take(j + 1) =~= b@.take(j as int).push(b@[j as int]));
                if j + 1 < b.len() {
                    assert(ord.relation()(b@[j as int], b@[j + 1]));
                }
                assert(out@.to_multiset() =~= a@.take(i as int).to_multiset().add(
                    b@.take(j + 1).to_multiset(),
                ));
            }
            j = j + 1;
        }
        assert forall|k: int, l: int| 0 <= k < l < out.len() implies #[trigger] ord.relation()(
            out@[k],
            out@[l],
        ) by {
            if l < before.len() {
                assert(ord.relation()(before[k], before[l]));
            }
        }
    }
    proof {
        assert(a@.take(i as int) =~= a@);
        assert(b@.take(j as int) =~= b@);
    }
    out
}

/// Sorts cells.
pub fn sort_cells(ord: CellOrder, cells: Vec<(u32, u32)>) -> (out: Vec<(u32, u32)>)
    ensures
        out@ == ord.sorted(cells@),
    decreases cells.len(),
{
    broadcast use vstd::seq_lib::group_to_multiset_ensures;

    proof {
        lemma_sorted_cells(ord, cells@);
        lemma_order_total(ord);
    }
    let n: usize = cells.len();
    if n <= 1 {
        proof {
            lemma_sorted_unique(cells@, ord.sorted(cells@), ord.relation());
        }
        return cells;
    }
    let half: usize = n / 2;
    let mut left = cells;
    let right = left.split_off(half);
    let ghost whole = left@ + right@;
    assert(whole =~= cells@);
    proof {
        vstd::seq_lib::lemma_multiset_commutative(left@, right@);
        lemma_sorted_cells(ord, left@);
        lemma_sorted_cells(ord, right@);
    }
    let a = sort_cells(ord, left);
    let b = sort_cells(ord, right);
    let out = merge(ord, &a, &b);
    proof {
        lemma_sorted_unique(out@, ord.sorted(cells@), ord.relation());
    }
    out
}

/// How many different cells there are.
pub open spec fn distinct(cells: Seq<(u32, u32)>) -> nat {
    cells.to_set().len()
}

/// Counts the different cells.
pub fn count_distinct(cells: Vec<(u32, u32)>) -> (n: usize)
    ensures
        n == distinct(cells@),
{
    let ghost all = cells@;
    let sorted = sort_cells(CellOrder::ByColumn, cells);
    proof {
        lemma_sorted_cells(CellOrder::ByColumn, all);
        assert(sorted@.to_set() =~= all.to_set());
    }
    let mut n: usize = 0;
    let mut i: usize = 0;
    assert(sorted@.take(0).to_set() =~= Set::<(u32, u32)>::empty());
    while i < sorted.len()
        invariant
            n <= i <= sorted.len(),
            sorted_by(sorted@, CellOrder::ByColumn.relation()),
            n == sorted@.take(i as int).to_set().len(),
        decreases sorted.len() - i,
    {
        broadcast use vstd::set::group_set_axioms;

        let c: (u32, u32) = sorted[i];
        let seen: bool = i > 0 && sorted[i - 1].0 == c.0 && sorted[i - 1].1 == c.1;
        let ghost (t0, t1) = (sorted@.take(i as int), sorted@.take(i + 1));
        proof {
            assert(t1 =~= t0.push(c));
            vstd::seq_lib::seq_to_set_is_finite(t0);
            assert(t1.to_set() =~= t0.to_set().insert(c)) by {
                assert forall|d: (u32, u32)| t1.contains(d) <==> t0.contains(d) || d == c by {
                    if t0.contains(d) {
                        let k = t0.index_of(d);
                        assert(t1[k] == d);
                    }
                    if d == c {
                        assert(t1[i as int] == d);
                    }
                    if t1.contains(d) && d != c {
                        let k = t1.index_of(d);
                        assert(t0[k] == d);
                    }
                }
            }
            if seen {
                assert(t0[i - 1] == c);
                assert(t0.contains(c));
                assert(t0.to_set().insert(c) =~= t0.to_set());
            } else if t0.contains(c) {
                let k = t0.index_of(c);
                assert(sorted@[k] == c);
                assert(k < i - 1);
                let r = CellOrder::ByColumn.relation();
                assert(r(sorted@[k], sorted@[i - 1]));
                assert(r(sorted@[i - 1], sorted@[i as int]));
            }
        }
        if !seen {
            n = n + 1;
        }
        i = i + 1;
    }
    assert(sorted@.take(i as int) =~= sorted@);
    n
}

/// Different cells of a rectangle are no more than it has.
pub proof fn lemma_distinct_bound(cells: Seq<(u32, u32)>, w: int, h: int)
    requires
        0 <= w,
        0 <= h,
        forall|i: int| 0 <= i < cells.len() ==> (#[trigger] cells[i]).0 < w && cells[i].1 < h,
    ensures
        distinct(cells) <= w * h,
{
    let set = cells.to_set();
    vstd::seq_lib::seq_to_set_is_finite(cells);
    let at = |c: (u32, u32)| c.1 * w + c.0;
    let all = vstd::set_lib::set_int_range(0, w * h);
    assert(0 <= w * h) by (nonlinear_arith)
        requires
            0 <= w,
            0 <= h,
    ;
    vstd::set_lib::lemma_int_range(0, w * h);
    let image = set.map(at);
    assert forall|a: (u32, u32), b: (u32, u32)|
        set.contains(a) && set.contains(b) && #[trigger] at(a) == #[trigger] at(b) implies a
        == b by {
        let i = cells.index_of(a);
        let j = cells.index_of(b);
        assert(cells[i] == a && cells[j] == b);
        lemma_one_index(a.0 as int, a.1 as int, b.0 as int, b.1 as int, w);
    }
    assert forall|k: int| image.contains(k) implies all.contains(k) by {
        let c = choose|c: (u32, u32)| set.contains(c) && at(c) == k;
        let i = cells.index_of(c);
        assert(cells[i] == c);
        assert(0 <= c.1 * w + c.0 < w * h) by (nonlinear_arith)
            requires
                0 <= c.0 < w,
                0 <= c.1 < h,
        ;
    }
    vstd::set_lib::lemma_map_size(set, image, at);
    vstd::set_lib::lemma_len_subset(image, all);
}

proof fn lemma_one_index(a: int, b: int, c: int, d: int, w: int)
    by (nonlinear_arith)
    requires
        0 <= a < w,
        0 <= c < w,
        b * w + a == d * w + c,
    ensures
        a == c,
        b == d,
{
}

/// A bottom-up walk comes to lower rows first and goes each row from left to
/// right; a walk by columns comes to left columns first and goes each from the
/// top. Both come to every cell.
pub proof fn law_cells_come_in_order(cells: Seq<(u32, u32)>, i: int, j: int)
    requires
        0 <= i < j < cells.len(),
    ensures
        ({
            let (up, by) = (CellOrder::BottomUp.sorted(cells), CellOrder::ByColumn.sorted(cells));
            &&& up.len() == cells.len() && by.len() == cells.len()
            &&& up.to_multiset() == cells.to_multiset() && by.to_multiset() == cells.to_multiset()
            &&& up[j].1 <= up[i].1
            &&& up[i].1 == up[j].1 ==> up[i].0 <= up[j].0
            &&& by[i].0 <= by[j].0
            &&& by[i].0 == by[j].0 ==> by[i].1 <= by[j].1
        }),
{
    lemma_sorted_cells(CellOrder::BottomUp, cells);
    lemma_sorted_cells(CellOrder::ByColumn, cells);
    let (up, by) = (CellOrder::BottomUp.sorted(cells), CellOrder::ByColumn.sorted(cells));
    assert(CellOrder::BottomUp.relation()(up[i], up[j]));
    assert(CellOrder::ByColumn.relation()(by[i], by[j]));
}

} // verus!
