//! Changes of single cells, in the order in which they are made.

use vstd::prelude::*;

use crate::grid::{group_grid, in_box, Grid};
use crate::tile::Tile;

verus! {

/// The grid after the edits.
pub open spec fn edited(g: Grid, edits: Seq<(u32, u32, Tile)>) -> Grid
    decreases edits.len(),
{
    if edits.len() == 0 {
        g
    } else {
        let e = edits.last();
        edited(g, edits.drop_last()).put(e.0 as int, e.1 as int, e.2)
    }
}

/// All edits are of cells of the world, and put proper tiles.
pub open spec fn edits_fit(g: Grid, edits: Seq<(u32, u32, Tile)>) -> bool {
    forall|i: int|
        0 <= i < edits.len() ==> g.inside((#[trigger] edits[i]).0 as int, edits[i].1 as int)
            && edits[i].2.wf()
}

/// Whether one of the edits is of the cell.
pub open spec fn touched(edits: Seq<(u32, u32, Tile)>, a: int, b: int) -> bool {
    exists|i: int| 0 <= i < edits.len() && (#[trigger] edits[i]).0 == a && edits[i].1 == b
}

pub proof fn lemma_edited(g: Grid, edits: Seq<(u32, u32, Tile)>)
    requires
        g.wf(),
        edits_fit(g, edits),
    ensures
        edited(g, edits).wf(),
        edited(g, edits).width == g.width,
        edited(g, edits).height == g.height,
        forall|a: int, b: int|
            g.inside(a, b) && !touched(edits, a, b) ==> #[trigger] edited(g, edits).at(a, b)
                == g.at(a, b),
    decreases edits.len(),
{
    broadcast use group_grid;

    if edits.len() > 0 {
        let e = edits.last();
        let less = edits.drop_last();
        assert(edits_fit(g, less)) by {
            assert forall|i: int| 0 <= i < less.len() implies g.inside(
                (#[trigger] less[i]).0 as int,
                less[i].1 as int,
            ) && less[i].2.wf() by {
                assert(edits[i] == less[i]);
            }
        }
        lemma_edited(g, less);
        assert(edits[edits.len() - 1] == e);
        let (g0, g1) = (edited(g, less), edited(g, edits));
        assert forall|a: int, b: int| g.inside(a, b) && !touched(edits, a, b) implies #[trigger] g1.at(
            a,
            b,
        ) == g.at(a, b) by {
            if touched(less, a, b) {
                let i = choose|i: int|
                    0 <= i < less.len() && (#[trigger] less[i]).0 == a && less[i].1 == b;
                assert(edits[i] == less[i]);
            }
            assert(g0.at(a, b) == g.at(a, b));
            assert(g0.inside(a, b));
        }
    }
}

/// One edit more.
pub proof fn lemma_edited_push(g: Grid, edits: Seq<(u32, u32, Tile)>, e: (u32, u32, Tile))
    ensures
        edited(g, edits.push(e)) == edited(g, edits).put(e.0 as int, e.1 as int, e.2),
{
    assert(edits.push(e).drop_last() =~= edits);
}

/// Edits in two parts.
pub proof fn lemma_edited_twice(
    g: Grid,
    first: Seq<(u32, u32, Tile)>,
    second: Seq<(u32, u32, Tile)>,
)
    ensures
        edited(g, first + second) == edited(edited(g, first), second),
    decreases second.len(),
{
    if second.len() == 0 {
        assert(first + second =~= first);
    } else {
        let less = second.drop_last();
        lemma_edited_twice(g, first, less);
        assert((first + second).drop_last() =~= first + less);
        assert((first + second).last() == second.last());
    }
}

/// The edits that `f` asks for in the first `n` cells of a row from `ox` on.
pub open spec fn row_edits(f: spec_fn(int, int) -> Option<Tile>, ox: int, b: int, n: nat) -> Seq<
    (u32, u32, Tile),
>
    decreases n,
{
    if n == 0 {
        seq![]
    } else {
        let before = row_edits(f, ox, b, (n - 1) as nat);
        let a = ox + n - 1;
        match f(a, b) {
            Some(t) => before.push((a as u32, b as u32, t)),
            None => before,
        }
    }
}

/// The edits that `f` asks for in the first `n` rows of a box, row by row.
pub open spec fn box_edits(
    f: spec_fn(int, int) -> Option<Tile>,
    ox: int,
    oy: int,
    w: nat,
    n: nat,
) -> Seq<(u32, u32, Tile)>
    decreases n,
{
    if n == 0 {
        seq![]
    } else {
        box_edits(f, ox, oy, w, (n - 1) as nat) + row_edits(f, ox, oy + n - 1, w)
    }
}

/// The edits of whole rows, and of the first `k` cells of the next one.
pub proof fn lemma_box_edits(
    g: Grid,
    f: spec_fn(int, int) -> Option<Tile>,
    ox: int,
    oy: int,
    w: nat,
    n: nat,
    k: nat,
)
    requires
        g.wf(),
        g.width <= u32::MAX,
        g.height <= u32::MAX,
        0 <= ox,
        0 <= oy,
        k <= w,
        forall|a: int, b: int|
            (#[trigger] f(a, b)) is Some && (in_box(ox, oy, w as int, n as int, a, b) || in_box(
                ox,
                oy + n,
                k as int,
                1,
                a,
                b,
            )) ==> g.inside(a, b) && f(a, b)->Some_0.wf(),
    ensures
        ({
            let edits = box_edits(f, ox, oy, w, n) + row_edits(f, ox, oy + n, k);
            let h = edited(g, edits);
            &&& edits_fit(g, edits)
            &&& h.wf()
            &&& h.width == g.width
            &&& h.height == g.height
            &&& forall|a: int, b: int|
                g.inside(a, b) ==> #[trigger] h.at(a, b) == (if (in_box(
                    ox,
                    oy,
                    w as int,
                    n as int,
                    a,
                    b,
                ) || in_box(ox, oy + n, k as int, 1, a, b)) && f(a, b) is Some {
                    f(a, b)->Some_0
                } else {
                    g.at(a, b)
                })
        }),
    decreases n, k,
{
    broadcast use group_grid;

    let rows = box_edits(f, ox, oy, w, n);
    let edits = rows + row_edits(f, ox, oy + n, k);
    let h = edited(g, edits);
    if k > 0 {
        let m = (k - 1) as nat;
        assert forall|a: int, b: int|
            (#[trigger] f(a, b)) is Some && (in_box(ox, oy, w as int, n as int, a, b) || in_box(
                ox,
                oy + n,
                m as int,
                1,
                a,
                b,
            )) implies g.inside(a, b) && f(a, b)->Some_0.wf() by {}
        lemma_box_edits(g, f, ox, oy, w, n, m);
        let less = rows + row_edits(f, ox, oy + n, m);
        let (a, b) = (ox + k - 1, oy + n);
        match f(a, b) {
            Some(t) => {
                let e = (a as u32, b as u32, t);
                assert(in_box(ox, oy + n, k as int, 1, a, b));
                assert(g.inside(a, b) && t.wf());
                assert(edits =~= less.push(e));
                lemma_edited_push(g, less, e);
            },
            None => {
                assert(edits =~= less);
            },
        }
        let h0 = edited(g, less);
        assert forall|p: int, q: int| g.inside(p, q) implies #[trigger] h.at(p, q) == (if (in_box(
            ox,
            oy,
            w as int,
            n as int,
            p,
            q,
        ) || in_box(ox, oy + n, k as int, 1, p, q)) && f(p, q) is Some {
            f(p, q)->Some_0
        } else {
            g.at(p, q)
        }) by {
            assert(h0.at(p, q) == h0.at(p, q));
            assert(h0.inside(p, q));
        }
    } else if n > 0 {
        let m = (n - 1) as nat;
        assert forall|a: int, b: int|
            (#[trigger] f(a, b)) is Some && (in_box(ox, oy, w as int, m as int, a, b) || in_box(
                ox,
                oy + m,
                w as int,
                1,
                a,
                b,
            )) implies g.inside(a, b) && f(a, b)->Some_0.wf() by {
            assert(in_box(ox, oy, w as int, n as int, a, b));
        }
        lemma_box_edits(g, f, ox, oy, w, m, w);
        assert(edits =~= box_edits(f, ox, oy, w, m) + row_edits(f, ox, oy + m, w));
        assert forall|p: int, q: int| g.inside(p, q) implies #[trigger] h.at(p, q) == (if (in_box(
            ox,
            oy,
            w as int,
            n as int,
            p,
            q,
        ) || in_box(ox, oy + n, k as int, 1, p, q)) && f(p, q) is Some {
            f(p, q)->Some_0
        } else {
            g.at(p, q)
        }) by {
            assert(h.at(p, q) == h.at(p, q));
        }
    }
}

/// The last edit of a cell is what it shows.
pub proof fn law_the_last_edit_shows(g: Grid, edits: Seq<(u32, u32, Tile)>, e: (u32, u32, Tile))
    requires
        g.wf(),
        g.inside(e.0 as int, e.1 as int),
        edits_fit(g, edits),
    ensures
        edited(g, Seq::empty()) == g,
        edited(g, edits.push(e)) == edited(g, edits).put(e.0 as int, e.1 as int, e.2),
{
    assert(edits.push(e).drop_last() =~= edits);
}

/// A cell is touched by an edit that names it.
pub proof fn law_touched_cells_are_named(edits: Seq<(u32, u32, Tile)>, k: int)
    requires
        0 <= k < edits.len(),
    ensures
        touched(edits, edits[k].0 as int, edits[k].1 as int),
        !touched(Seq::<(u32, u32, Tile)>::empty(), edits[k].0 as int, edits[k].1 as int),
{
}

} // verus!
