//! What a whole step of falling sand keeps.

use vstd::prelude::*;

use crate::grid::{group_grid, lemma_put_total, total, Grid};
use crate::sim::fluids::{differs_within, volume};
use crate::sim::world_tick::{landed, law_sand_is_conserved, sand_falls, sunk, vacated, SandFall};
use crate::sort::{lemma_sorted_cells, CellOrder};
use crate::tile::{Liquid, LiquidKind, Tile, TileId};

verus! {

/// Sand in column `x`.
pub open spec fn column_sand(g: Grid, x: int) -> int {
    total(
        g.cells,
        |i: int, t: Tile|
            if i % g.width == x && t.id == TileId::Sand {
                1
            } else {
                0
            },
    )
}

/// No sand holds liquid.
pub open spec fn sand_is_dry(g: Grid) -> bool {
    forall|a: int, b: int|
        g.inside(a, b) && (#[trigger] g.at(a, b)).id == TileId::Sand ==> g.at(a, b).liquid
            == Liquid::Empty
}

/// The cells among the first `n` whose sand falls when they are visited.
pub open spec fn fallen(start: SandFall, cells: Seq<(u32, u32)>, n: nat) -> Set<(int, int)>
    decreases n,
{
    if n == 0 {
        Set::empty()
    } else {
        let before = fallen(start, cells, (n - 1) as nat);
        let c = (cells[n - 1].0 as int, cells[n - 1].1 as int);
        if sand_falls(start.visits(cells, (n - 1) as nat).grid, c.0, c.1) {
            before.insert(c)
        } else {
            before
        }
    }
}

/// Where sand is once the sand of the cells in `moved` has come down by one.
pub open spec fn moved_down(before: Grid, after: Grid, moved: Set<(int, int)>) -> bool {
    &&& forall|a: int, b: int|
        before.inside(a, b) ==> ((#[trigger] after.at(a, b)).id == TileId::Sand <==> ((before.at(
            a,
            b,
        ).id == TileId::Sand && !moved.contains((a, b))) || moved.contains((a, b - 1))))
    &&& forall|a: int, b: int|
        before.inside(a, b) ==> ((#[trigger] after.at(a, b)).id == TileId::Air <==> (before.at(
            a,
            b,
        ).id == TileId::Air || moved.contains((a, b))) && !moved.contains((a, b - 1)))
    &&& forall|a: int, b: int| #[trigger]
        moved.contains((a, b)) ==> before.inside(a, b) && before.inside(a, b + 1) && before.at(
            a,
            b,
        ).id == TileId::Sand && (before.at(a, b + 1).id == TileId::Air || moved.contains(
            (a, b + 1),
        ))
}

/// Nothing about walls has changed.
pub open spec fn same_walls(before: Grid, after: Grid) -> bool {
    forall|a: int, b: int|
        before.inside(a, b) ==> (#[trigger] after.at(a, b)).wall == before.at(a, b).wall
}

proof fn lemma_column_of(x: int, y: int, w: int)
    by (nonlinear_arith)
    requires
        0 <= x < w,
        0 <= y,
    ensures
        (y * w + x) % w == x,
{
}

/// A fall keeps the sand of every column.
proof fn lemma_fall_keeps_columns(g: Grid, x: int, y: int, col: int)
    requires
        g.wf(),
        g.inside(x, y),
        sand_falls(g, x, y),
    ensures
        column_sand(sunk(g, x, y), col) == column_sand(g, col),
{
    broadcast use group_grid;

    let a = vacated(g.at(x, y), g.at(x, y + 1));
    let b = landed(g.at(x, y + 1));
    let mid = g.put(x, y, a);
    let w = g.width;
    let f = |i: int, t: Tile|
        if i % w == col && t.id == TileId::Sand {
            1int
        } else {
            0
        };
    lemma_put_total(g, f, x, y, a);
    lemma_put_total(mid, f, x, y + 1, b);
    lemma_column_of(x, y, w);
    lemma_column_of(x, y + 1, w);
}

/// The first `n` visits.
proof fn lemma_visits(
    start: SandFall,
    cells: Seq<(u32, u32)>,
    n: nat,
    col: int,
    kind: LiquidKind,
)
    requires
        start.grid.wf(),
        sand_is_dry(start.grid),
        n <= cells.len(),
        cells.no_duplicates(),
        vstd::relations::sorted_by(cells, CellOrder::BottomUp.relation()),
        forall|i: int|
            0 <= i < cells.len() ==> start.grid.inside(
                (#[trigger] cells[i]).0 as int,
                cells[i].1 as int,
            ),
    ensures
        ({
            let end = start.visits(cells, n).grid;
            let moved = fallen(start, cells, n);
            &&& end.wf()
            &&& end.width == start.grid.width
            &&& end.height == start.grid.height
            &&& column_sand(end, col) == column_sand(start.grid, col)
            &&& volume(end, kind) == volume(start.grid, kind)
            &&& sand_is_dry(end)
            &&& same_walls(start.grid, end)
            &&& moved_down(start.grid, end, moved)
            &&& forall|c: (int, int)| #[trigger]
                moved.contains(c) ==> exists|k: int|
                    0 <= k < n && c == ((#[trigger] cells[k]).0 as int, cells[k].1 as int)
        }),
    decreases n,
{
    broadcast use group_grid;

    if n > 0 {
        let m = (n - 1) as nat;
        lemma_visits(start, cells, m, col, kind);
        let g0 = start.grid;
        let g = start.visits(cells, m).grid;
        let end = start.visits(cells, n).grid;
        let (was, moved) = (fallen(start, cells, m), fallen(start, cells, n));
        let (x, y) = (cells[n - 1].0 as int, cells[n - 1].1 as int);
        assert(g0.inside(x, y));
        assert forall|b: int| was.contains((x, b)) implies b > y by {
            let k = choose|k: int|
                0 <= k < m && (x, b) == ((#[trigger] cells[k]).0 as int, cells[k].1 as int);
            assert(CellOrder::BottomUp.relation()(cells[k], cells[n - 1]));
            assert(cells[k] != cells[n - 1]);
        }
        if sand_falls(g, x, y) {
            assert(g.at(x, y).liquid == Liquid::Empty);
            lemma_fall_keeps_columns(g, x, y, col);
            law_sand_is_conserved(g, x, y, kind);
            assert(end == sunk(g, x, y));
            let mid = g.put(x, y, vacated(g.at(x, y), g.at(x, y + 1)));
            assert forall|a: int, b: int| g0.inside(a, b) implies #[trigger] end.at(a, b) == (
            if (a, b) == (x, y) {
                vacated(g.at(x, y), g.at(x, y + 1))
            } else if (a, b) == (x, y + 1) {
                landed(g.at(x, y + 1))
            } else {
                g.at(a, b)
            }) by {
                assert(mid.at(a, b) == mid.at(a, b));
            }
            assert(moved == was.insert((x, y)));
            assert(moved_down(g0, end, moved)) by {
                assert forall|a: int, b: int| g0.inside(a, b) implies ((#[trigger] end.at(a, b)).id
                    == TileId::Sand <==> ((g0.at(a, b).id == TileId::Sand && !moved.contains((a, b)))
                    || moved.contains((a, b - 1)))) by {
                    assert(g.at(a, b) == g.at(a, b));
                }
                assert forall|a: int, b: int| g0.inside(a, b) implies ((#[trigger] end.at(a, b)).id
                    == TileId::Air <==> (g0.at(a, b).id == TileId::Air || moved.contains((a, b)))
                    && !moved.contains((a, b - 1))) by {
                    assert(g.at(a, b) == g.at(a, b));
                }
                assert(g.at(x, y).id == TileId::Sand);
                assert(g.at(x, y + 1).id == TileId::Air);
            }
            assert(same_walls(g0, end));
            assert(sand_is_dry(end)) by {
                assert forall|a: int, b: int|
                    end.inside(a, b) && (#[trigger] end.at(a, b)).id == TileId::Sand implies end.at(
                    a,
                    b,
                ).liquid == Liquid::Empty by {
                    assert(g.at(a, b) == g.at(a, b));
                }
            }
        }
        assert forall|c: (int, int)| #[trigger] moved.contains(c) implies exists|k: int|
            0 <= k < n && c == ((#[trigger] cells[k]).0 as int, cells[k].1 as int) by {
            if was.contains(c) {
                let k = choose|k: int|
                    0 <= k < m && c == ((#[trigger] cells[k]).0 as int, cells[k].1 as int);
                assert(0 <= k < n && c == (cells[k].0 as int, cells[k].1 as int));
            } else {
                assert(c == (cells[n - 1].0 as int, cells[n - 1].1 as int));
            }
        }
    }
}

/// A step of falling sand, where no sand holds liquid before: every column
/// keeps its sand and the world keeps its liquids; sand moves down by one row
/// or stays, and moves only into a cell that was free or that sand has just
/// left; afterwards no sand holds liquid either, and no wall has changed. (In
/// each single fall the liquid of the cell below comes to the cell that the
/// sand leaves: see `sunk`.)
pub proof fn law_a_step_keeps_sand_and_liquids(
    start: SandFall,
    active: Seq<(u32, u32)>,
    col: int,
    kind: LiquidKind,
)
    requires
        start.grid.wf(),
        sand_is_dry(start.grid),
        active.no_duplicates(),
        forall|i: int|
            0 <= i < active.len() ==> start.grid.inside(
                (#[trigger] active[i]).0 as int,
                active[i].1 as int,
            ),
    ensures
        ({
            let cells = CellOrder::BottomUp.sorted(active);
            let end = start.visits(cells, cells.len()).grid;
            &&& column_sand(end, col) == column_sand(start.grid, col)
            &&& volume(end, kind) == volume(start.grid, kind)
            &&& sand_is_dry(end)
            &&& same_walls(start.grid, end)
            &&& moved_down(start.grid, end, fallen(start, cells, cells.len()))
        }),
{
    let cells = CellOrder::BottomUp.sorted(active);
    lemma_sorted_cells(CellOrder::BottomUp, active);
    assert forall|i: int| 0 <= i < cells.len() implies start.grid.inside(
        (#[trigger] cells[i]).0 as int,
        cells[i].1 as int,
    ) by {
        assert(cells.contains(cells[i]));
        assert(active.contains(cells[i]));
        let k = active.index_of(cells[i]);
        assert(active[k] == cells[i]);
    }
    lemma_visits(start, cells, cells.len(), col, kind);
}

/// A step lists the cells that it changes, and names no cell twice for the
/// next one.
pub proof fn law_a_step_lists_its_changes(start: SandFall, cells: Seq<(u32, u32)>, n: nat)
    requires
        start.grid.wf(),
        start.next.no_duplicates(),
        n <= cells.len(),
        forall|i: int|
            0 <= i < cells.len() ==> start.grid.inside(
                (#[trigger] cells[i]).0 as int,
                cells[i].1 as int,
            ),
    ensures
        ({
            let end = start.visits(cells, n);
            &&& end.grid.wf()
            &&& end.next.no_duplicates()
            &&& start.staged.is_prefix_of(end.staged)
            &&& differs_within(
                start.grid,
                end.grid,
                end.staged.skip(start.staged.len() as int),
            )
        }),
    decreases n,
{
    broadcast use group_grid;

    let k = start.staged.len() as int;
    if n > 0 {
        let m = (n - 1) as nat;
        law_a_step_lists_its_changes(start, cells, m);
        let mid = start.visits(cells, m);
        let end = start.visits(cells, n);
        let c = cells[m as int];
        let (x, y) = (c.0 as int, c.1 as int);
        assert(start.grid.inside(x, y));
        if sand_falls(mid.grid, x, y) {
            let below = (c.0, (y + 1) as u32);
            let (s, t) = (mid.staged.skip(k), end.staged.skip(k));
            assert(t =~= s + seq![c, below]);
            assert(t[s.len() as int] == c);
            assert(t[s.len() as int + 1] == below);
            assert forall|a: int, b: int|
                start.grid.inside(a, b) && !t.contains((a as u32, b as u32)) implies #[trigger] end.grid.at(
                a,
                b,
            ) == start.grid.at(a, b) by {
                if s.contains((a as u32, b as u32)) {
                    let j = s.index_of((a as u32, b as u32));
                    assert(t[j] == s[j]);
                }
                assert(mid.grid.at(a, b) == start.grid.at(a, b));
                assert(mid.grid.inside(a, b));
            }
        }
    } else {
        assert(start.staged.skip(k) =~= Seq::<(u32, u32)>::empty());
    }
}

} // verus!
