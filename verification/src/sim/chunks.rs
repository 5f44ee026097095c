//! Which parts of the world a player receives, and what changed in them.

use vstd::prelude::*;

use crate::grid::World;
use crate::sort::{lemma_sorted_cells, sort_cells, CellOrder};

verus! {

/// Side of a chunk in cells.
pub const CHUNK_SIZE: u32 = 64;

/// Chunks a player receives to either side.
pub const CHUNK_SUB_RADIUS_X: u32 = 2;

/// Chunks a player receives above and below.
pub const CHUNK_SUB_RADIUS_Y: u32 = 1;

/// How much farther a chunk may be before it is dropped again.
pub const CHUNK_SUB_HYSTERESIS: u32 = 1;

/// Chunks that cover `cells` cells.
pub open spec fn spec_chunks(cells: u32) -> u32 {
    if cells % CHUNK_SIZE == 0 {
        cells / CHUNK_SIZE
    } else {
        (cells / CHUNK_SIZE + 1) as u32
    }
}

pub fn chunks_over(cells: u32) -> (n: u32)
    ensures
        n == spec_chunks(cells),
{
    if cells % CHUNK_SIZE == 0 {
        cells / CHUNK_SIZE
    } else {
        cells / CHUNK_SIZE + 1
    }
}

/// The chunk of a cell.
pub open spec fn chunk_of(x: u32, y: u32) -> (u32, u32) {
    (x / CHUNK_SIZE, y / CHUNK_SIZE)
}

pub open spec fn spec_clamped_chunk(cell: u32, side: u32) -> u32 {
    if cell / CHUNK_SIZE < spec_chunks(side) {
        cell / CHUNK_SIZE
    } else {
        (spec_chunks(side) - 1) as u32
    }
}

/// The chunk around the cell `(x, y)`, the last one where that lies beyond the
/// world.
pub fn player_chunk(world: &World, x: u32, y: u32) -> (c: (u32, u32))
    requires
        world.width > 0,
        world.height > 0,
    ensures
        c == (spec_clamped_chunk(x, world.width), spec_clamped_chunk(y, world.height)),
        c.0 < spec_chunks(world.width),
        c.1 < spec_chunks(world.height),
{
    let (nx, ny): (u32, u32) = (chunks_over(world.width), chunks_over(world.height));
    let (cx, cy): (u32, u32) = (x / CHUNK_SIZE, y / CHUNK_SIZE);
    (
        if cx < nx {
            cx
        } else {
            nx - 1
        },
        if cy < ny {
            cy
        } else {
            ny - 1
        },
    )
}

/// A rectangle of chunks: from the first column and row up to, but without,
/// the second.
#[derive(Debug, Clone, Copy)]
pub struct ChunkWindow {
    pub x: (u32, u32),
    pub y: (u32, u32),
}

impl ChunkWindow {
    pub open spec fn spec_contains(self, c: (u32, u32)) -> bool {
        self.x.0 <= c.0 < self.x.1 && self.y.0 <= c.1 < self.y.1
    }

    pub fn contains(self, c: (u32, u32)) -> (b: bool)
        ensures
            b == self.spec_contains(c),
    {
        self.x.0 <= c.0 && c.0 < self.x.1 && self.y.0 <= c.1 && c.1 < self.y.1
    }
}

/// `c` lies within `rx` columns and `ry` rows of `center`, in the world.
pub open spec fn within(
    width: u32,
    height: u32,
    center: (u32, u32),
    rx: int,
    ry: int,
    c: (u32, u32),
) -> bool {
    &&& center.0 - rx <= c.0 <= center.0 + rx
    &&& center.1 - ry <= c.1 <= center.1 + ry
    &&& c.0 < spec_chunks(width)
    &&& c.1 < spec_chunks(height)
}

/// The chunks around `center`.
pub fn chunk_window(world: &World, center: (u32, u32), rx: u32, ry: u32) -> (w: ChunkWindow)
    requires
        center.0 + rx < u32::MAX,
        center.1 + ry < u32::MAX,
    ensures
        forall|c: (u32, u32)| #[trigger]
            w.spec_contains(c) <==> within(
                world.width,
                world.height,
                center,
                rx as int,
                ry as int,
                c,
            ),
        w.x.1 <= spec_chunks(world.width),
        w.y.1 <= spec_chunks(world.height),
{
    let (nx, ny): (u32, u32) = (chunks_over(world.width), chunks_over(world.height));
    let (ex, ey): (u32, u32) = (center.0 + rx + 1, center.1 + ry + 1);
    ChunkWindow {
        x: (
            center.0.saturating_sub(rx),
            if ex < nx {
                ex
            } else {
                nx
            },
        ),
        y: (
            center.1.saturating_sub(ry),
            if ey < ny {
                ey
            } else {
                ny
            },
        ),
    }
}

/// Whether `cells` holds `c`.
pub fn has_cell(cells: &Vec<(u32, u32)>, c: (u32, u32)) -> (b: bool)
    ensures
        b == cells@.contains(c),
{
    let mut i: usize = 0;
    while i < cells.len()
        invariant
            i <= cells.len(),
            forall|k: int| 0 <= k < i ==> cells@[k] != c,
        decreases cells.len() - i,
    {
        if cells[i].0 == c.0 && cells[i].1 == c.1 {
            assert(cells@[i as int] == c);
            return true;
        }
        i = i + 1;
    }
    false
}

/// The chunks of the window that are not among `have`, row by row.
pub fn missing_chunks(window: ChunkWindow, have: &Vec<(u32, u32)>) -> (missing: Vec<(u32, u32)>)
    ensures
        forall|c: (u32, u32)| #[trigger]
            missing@.contains(c) <==> window.spec_contains(c) && !have@.contains(c),
        forall|i: int, j: int|
            0 <= i < j < missing.len() ==> (#[trigger] missing@[i]).1 < (#[trigger] missing@[j]).1
                || (missing@[i].1 == missing@[j].1 && missing@[i].0 < missing@[j].0),
{
    let mut missing: Vec<(u32, u32)> = Vec::new();
    let mut y: u32 = window.y.0;
    while y < window.y.1
        invariant
            window.y.0 <= y,
            forall|c: (u32, u32)| #[trigger]
                missing@.contains(c) <==> window.spec_contains(c) && c.1 < y && !have@.contains(c),
            forall|i: int, j: int|
                0 <= i < j < missing.len() ==> (#[trigger] missing@[i]).1 < (
                #[trigger] missing@[j]).1 || (missing@[i].1 == missing@[j].1 && missing@[i].0
                    < missing@[j].0),
        decreases window.y.1 - y,
    {
        let mut x: u32 = window.x.0;
        while x < window.x.1
            invariant
                window.y.0 <= y < window.y.1,
                window.x.0 <= x,
                forall|c: (u32, u32)| #[trigger]
                    missing@.contains(c) <==> window.spec_contains(c) && (c.1 < y || (c.1 == y
                        && c.0 < x)) && !have@.contains(c),
                forall|i: int, j: int|
                    0 <= i < j < missing.len() ==> (#[trigger] missing@[i]).1 < (
                    #[trigger] missing@[j]).1 || (missing@[i].1 == missing@[j].1 && missing@[i].0
                        < missing@[j].0),
            decreases window.x.1 - x,
        {
            if !has_cell(have, (x, y)) {
                let ghost before = missing@;
                missing.push((x, y));
                proof {
                    assert forall|k: int| 0 <= k < before.len() implies (#[trigger] before[k]).1 < y
                        || (before[k].1 == y && before[k].0 < x) by {
                        assert(before.contains(before[k]));
                    }
                    assert(missing@[before.len() as int] == (x, y));
                    assert forall|c: (u32, u32)| #[trigger]
                        missing@.contains(c) <==> before.contains(c) || c == (x, y) by {
                        if before.contains(c) {
                            let k = before.index_of(c);
                            assert(missing@[k] == c);
                        }
                        if missing@.contains(c) {
                            let k = missing@.index_of(c);
                            if k < before.len() {
                                assert(before[k] == c);
                            }
                        }
                    }
                }
            }
            x = x + 1;
        }
        y = y + 1;
    }
    missing
}

/// The chunks a player has after `delivered` of the missing ones arrived:
/// nothing outside of the wider window stays.
pub open spec fn subscribed(
    have: Seq<(u32, u32)>,
    missing: Seq<(u32, u32)>,
    delivered: int,
    keep: ChunkWindow,
    c: (u32, u32),
) -> bool {
    (have.contains(c) || missing.take(delivered).contains(c)) && keep.spec_contains(c)
}

/// Notes the delivered chunks and drops those that are too far away.
pub fn subscribe(
    have: &Vec<(u32, u32)>,
    missing: &Vec<(u32, u32)>,
    delivered: usize,
    keep: ChunkWindow,
) -> (now: Vec<(u32, u32)>)
    requires
        delivered <= missing.len(),
    ensures
        forall|c: (u32, u32)| #[trigger]
            now@.contains(c) <==> subscribed(have@, missing@, delivered as int, keep, c),
{
    let mut now: Vec<(u32, u32)> = Vec::new();
    keep_inside(have, have.len(), keep, &mut now);
    keep_inside(missing, delivered, keep, &mut now);
    assert(have@.take(have.len() as int) =~= have@);
    now
}

fn keep_inside(cells: &Vec<(u32, u32)>, n: usize, keep: ChunkWindow, now: &mut Vec<(u32, u32)>)
    requires
        n <= cells.len(),
    ensures
        forall|c: (u32, u32)| #[trigger]
            final(now)@.contains(c) <==> old(now)@.contains(c) || (cells@.take(n as int).contains(c)
                && keep.spec_contains(c)),
{
    let mut i: usize = 0;
    while i < n
        invariant
            i <= n <= cells.len(),
            forall|c: (u32, u32)| #[trigger]
                now@.contains(c) <==> old(now)@.contains(c) || (cells@.take(i as int).contains(c)
                    && keep.spec_contains(c)),
        decreases n - i,
    {
        let c: (u32, u32) = cells[i];
        let ghost before = now@;
        let ghost t0 = cells@.take(i as int);
        let ghost t1 = cells@.take(i + 1);
        if keep.contains(c) {
            now.push(c);
        }
        proof {
            assert(t1 =~= t0.push(c));
            lemma_push_contains(t0, c);
            lemma_push_contains(before, c);
        }
        i = i + 1;
    }
}

/// What a list holds with one cell more.
pub proof fn lemma_push_contains(s: Seq<(u32, u32)>, c: (u32, u32))
    ensures
        forall|d: (u32, u32)| #[trigger] s.push(c).contains(d) <==> s.contains(d) || d == c,
{
    assert(s.push(c)[s.len() as int] == c);
    assert forall|d: (u32, u32)| #[trigger] s.push(c).contains(d) <==> s.contains(d) || d == c by {
        if s.contains(d) {
            let k = s.index_of(d);
            assert(s.push(c)[k] == d);
        }
        if s.push(c).contains(d) {
            let k = s.push(c).index_of(d);
            if k < s.len() {
                assert(s[k] == d);
            }
        }
    }
}

/// Once all missing chunks arrived, a player has every chunk near to them, and
/// none beyond the wider window.
pub proof fn law_window_is_covered(
    width: u32,
    height: u32,
    center: (u32, u32),
    want: ChunkWindow,
    keep: ChunkWindow,
    have: Seq<(u32, u32)>,
    missing: Seq<(u32, u32)>,
    c: (u32, u32),
)
    requires
        forall|d: (u32, u32)| #[trigger]
            want.spec_contains(d) <==> within(
                width,
                height,
                center,
                CHUNK_SUB_RADIUS_X as int,
                CHUNK_SUB_RADIUS_Y as int,
                d,
            ),
        forall|d: (u32, u32)| #[trigger]
            keep.spec_contains(d) <==> within(
                width,
                height,
                center,
                CHUNK_SUB_RADIUS_X + CHUNK_SUB_HYSTERESIS,
                CHUNK_SUB_RADIUS_Y + CHUNK_SUB_HYSTERESIS,
                d,
            ),
        forall|d: (u32, u32)| #[trigger]
            missing.contains(d) <==> want.spec_contains(d) && !have.contains(d),
    ensures
        want.spec_contains(c) ==> subscribed(have, missing, missing.len() as int, keep, c),
        subscribed(have, missing, missing.len() as int, keep, c) ==> keep.spec_contains(c),
        have.contains(c) && keep.spec_contains(c) ==> subscribed(
            have,
            missing,
            missing.len() as int,
            keep,
            c,
        ),
{
    assert(missing.take(missing.len() as int) =~= missing);
}

// ---- Batched changes -------------------------------------------------------

/// Every cell of `cells` comes strictly after the one before it.
pub open spec fn increasing(cells: Seq<(u32, u32)>) -> bool {
    forall|i: int, j: int|
        0 <= i < j < cells.len() ==> (#[trigger] cells[i]).0 < (#[trigger] cells[j]).0 || (
        cells[i].0 == cells[j].0 && cells[i].1 < cells[j].1)
}

/// The changed cells of the world, each once, column by column.
pub fn batch_cells(world: &World, batch: Vec<(u32, u32)>) -> (cells: Vec<(u32, u32)>)
    ensures
        increasing(cells@),
        forall|c: (u32, u32)| #[trigger]
            cells@.contains(c) <==> batch@.contains(c) && world@.inside(c.0 as int, c.1 as int),
{
    let ghost all = batch@;
    let sorted = sort_cells(CellOrder::ByColumn, batch);
    proof {
        lemma_sorted_cells(CellOrder::ByColumn, all);
    }
    let mut cells: Vec<(u32, u32)> = Vec::new();
    let mut i: usize = 0;
    while i < sorted.len()
        invariant
            i <= sorted.len(),
            sorted@ == CellOrder::ByColumn.sorted(all),
            vstd::relations::sorted_by(sorted@, CellOrder::ByColumn.relation()),
            increasing(cells@),
            forall|c: (u32, u32)| #[trigger]
                cells@.contains(c) <==> sorted@.take(i as int).contains(c) && world@.inside(
                    c.0 as int,
                    c.1 as int,
                ),
        decreases sorted.len() - i,
    {
        let c: (u32, u32) = sorted[i];
        let ghost before = cells@;
        let ghost t0 = sorted@.take(i as int);
        let ghost t1 = sorted@.take(i + 1);
        proof {
            assert(t1 =~= t0.push(c));
            lemma_push_contains(t0, c);
            lemma_push_contains(before, c);
            assert forall|k: int| 0 <= k < before.len() implies CellOrder::ByColumn.spec_leq(
                #[trigger] before[k],
                c,
            ) by {
                assert(before.contains(before[k]));
                let m = t0.index_of(before[k]);
                assert(CellOrder::ByColumn.relation()(sorted@[m], sorted@[i as int]));
            }
        }
        let known: bool = if cells.len() > 0 {
            let last: (u32, u32) = cells[cells.len() - 1];
            last.0 == c.0 && last.1 == c.1
        } else {
            false
        };
        if !known && world.in_bounds(c.0, c.1) {
            proof {
                if before.len() > 0 {
                    let l = before[before.len() - 1];
                    assert(CellOrder::ByColumn.spec_leq(l, c));
                    assert forall|k: int| 0 <= k < before.len() implies (#[trigger] before[k]).0
                        < c.0 || (before[k].0 == c.0 && before[k].1 < c.1) by {}
                }
            }
            cells.push(c);
        }
        proof {
            if known {
                assert(before[before.len() - 1] == c);
                assert(before.contains(c));
            }
        }
        i = i + 1;
    }
    proof {
        assert(sorted@.take(i as int) =~= sorted@);
        assert forall|c: (u32, u32)| #[trigger]
            cells@.contains(c) <==> all.contains(c) && world@.inside(c.0 as int, c.1 as int) by {
            assert(sorted@.contains(c) <==> all.contains(c));
        }
    }
    cells
}

/// The cells of the first `n` that lie in the player's chunks, in order.
pub open spec fn seen_by(cells: Seq<(u32, u32)>, chunks: Seq<(u32, u32)>, n: nat) -> Seq<
    (u32, u32),
>
    decreases n,
{
    if n == 0 {
        seq![]
    } else {
        let before = seen_by(cells, chunks, (n - 1) as nat);
        let c = cells[n - 1];
        if chunks.contains(chunk_of(c.0, c.1)) {
            before.push(c)
        } else {
            before
        }
    }
}

/// The changed cells that a player with `chunks` is told of.
pub fn cells_for(cells: &Vec<(u32, u32)>, chunks: &Vec<(u32, u32)>) -> (mine: Vec<(u32, u32)>)
    ensures
        mine@ == seen_by(cells@, chunks@, cells@.len()),
{
    let mut mine: Vec<(u32, u32)> = Vec::new();
    let mut i: usize = 0;
    while i < cells.len()
        invariant
            i <= cells.len(),
            mine@ == seen_by(cells@, chunks@, i as nat),
        decreases cells.len() - i,
    {
        let c: (u32, u32) = cells[i];
        if has_cell(chunks, (c.0 / CHUNK_SIZE, c.1 / CHUNK_SIZE)) {
            mine.push(c);
        }
        i = i + 1;
    }
    mine
}

/// Chunks are squares of 64 cells that cover the world without gap or overlap,
/// the last ones as far as it reaches.
pub proof fn law_chunks_cover_the_world(cells: u32, x: u32, y: u32)
    ensures
        chunk_of(x, y).0 * 64 <= x < (chunk_of(x, y).0 + 1) * 64,
        chunk_of(x, y).1 * 64 <= y < (chunk_of(x, y).1 + 1) * 64,
        x < cells ==> chunk_of(x, y).0 < spec_chunks(cells),
        spec_chunks(cells) * 64 >= cells,
        cells > 0 ==> (spec_chunks(cells) - 1) * 64 < cells,
        x < cells ==> spec_clamped_chunk(x, cells) == x / 64,
        cells > 0 && x >= cells ==> spec_clamped_chunk(x, cells) == spec_chunks(cells) - 1,
{
}

/// Players receive the chunks up to two to the sides and one above and below,
/// and lose them one further out.
pub proof fn law_windows_have_their_size(width: u32, height: u32, center: (u32, u32), c: (u32, u32))
    requires
        c.0 < spec_chunks(width),
        c.1 < spec_chunks(height),
    ensures
        within(
            width,
            height,
            center,
            CHUNK_SUB_RADIUS_X as int,
            CHUNK_SUB_RADIUS_Y as int,
            c,
        ) <==> -2 <= c.0 - center.0 <= 2 && -1 <= c.1 - center.1 <= 1,
        CHUNK_SUB_HYSTERESIS == 1,
{
}

/// A player hears of the changed cells in their chunks, in order, and of no
/// others.
pub proof fn law_players_hear_of_their_chunks(
    cells: Seq<(u32, u32)>,
    chunks: Seq<(u32, u32)>,
    n: nat,
)
    requires
        n <= cells.len(),
    ensures
        seen_by(cells, chunks, n) == cells.take(n as int).filter(
            |c: (u32, u32)| chunks.contains((c.0 / 64, c.1 / 64)),
        ),
    decreases n,
{
    reveal(Seq::filter);
    if n > 0 {
        law_players_hear_of_their_chunks(cells, chunks, (n - 1) as nat);
        assert(cells.take(n as int).drop_last() =~= cells.take(n - 1));
    }
    assert(seen_by(cells, chunks, n) =~= cells.take(n as int).filter(
        |c: (u32, u32)| chunks.contains((c.0 / 64, c.1 / 64)),
    ));
}

/// What a player receives afterwards is what they had or were just sent, as
/// far as it is near enough to keep.
pub proof fn law_far_chunks_are_dropped(
    have: Seq<(u32, u32)>,
    missing: Seq<(u32, u32)>,
    delivered: int,
    keep: ChunkWindow,
    c: (u32, u32),
)
    requires
        0 <= delivered <= missing.len(),
    ensures
        subscribed(have, missing, delivered, keep, c) ==> keep.x.0 <= c.0 < keep.x.1 && keep.y.0
            <= c.1 < keep.y.1,
        have.contains(c) && keep.x.0 <= c.0 < keep.x.1 && keep.y.0 <= c.1 < keep.y.1
            ==> subscribed(have, missing, delivered, keep, c),
        !have.contains(c) && !missing.contains(c) ==> !subscribed(
            have,
            missing,
            delivered,
            keep,
            c,
        ),
{
    if missing.take(delivered).contains(c) {
        let i = missing.take(delivered).index_of(c);
        assert(missing[i] == c);
    }
}

} // verus!
