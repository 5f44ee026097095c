//! Chunks as they go out to clients: each is read from the world once and
//! kept until one of its cells changes.

use vstd::prelude::*;

use crate::client::world_view::{chunk_applied, chunk_index, in_chunk, CHUNK_CELLS};
use crate::grid::{group_grid, Grid, World};
use crate::sim::chunks::{chunk_of, seen_by, CHUNK_SIZE};
use crate::tile::{Tile, TileId};

verus! {

/// `tiles` are those of the chunk, row by row; beyond the edge of the world
/// there is air.
pub open spec fn is_chunk(g: Grid, c: (u32, u32), tiles: Seq<Tile>) -> bool {
    &&& tiles.len() == CHUNK_CELLS
    &&& forall|x: int, y: int| #[trigger]
        in_chunk(c.0, c.1, x, y) ==> tiles[chunk_index(c.0, c.1, x, y)] == (if g.inside(x, y) {
            g.at(x, y)
        } else {
            Tile::spec_of(TileId::Air)
        })
}

/// The tiles of a chunk, row by row.
pub open spec fn chunk_content(g: Grid, c: (u32, u32)) -> Seq<Tile> {
    Seq::new(
        CHUNK_CELLS as nat,
        |i: int|
            {
                let (x, y) = (c.0 * CHUNK_SIZE + i % 64, c.1 * CHUNK_SIZE + i / 64);
                if g.inside(x, y) {
                    g.at(x, y)
                } else {
                    Tile::spec_of(TileId::Air)
                }
            },
    )
}

/// A chunk's tiles are its content.
pub proof fn lemma_chunk_content(g: Grid, c: (u32, u32), tiles: Seq<Tile>)
    ensures
        is_chunk(g, c, tiles) <==> tiles == chunk_content(g, c),
{
    let content = chunk_content(g, c);
    if is_chunk(g, c, tiles) {
        assert forall|i: int| 0 <= i < tiles.len() implies #[trigger] tiles[i] == content[i] by {
            let (x, y) = (c.0 * CHUNK_SIZE + i % 64, c.1 * CHUNK_SIZE + i / 64);
            assert(in_chunk(c.0, c.1, x, y));
            assert(chunk_index(c.0, c.1, x, y) == i);
        }
        assert(tiles =~= content);
    }
    assert forall|x: int, y: int| #[trigger] in_chunk(c.0, c.1, x, y) implies content[chunk_index(
        c.0,
        c.1,
        x,
        y,
    )] == (if g.inside(x, y) {
        g.at(x, y)
    } else {
        Tile::spec_of(TileId::Air)
    }) by {
        let i = chunk_index(c.0, c.1, x, y);
        assert(i % 64 == x - c.0 * CHUNK_SIZE && i / 64 == y - c.1 * CHUNK_SIZE);
    }
}

/// Reads a chunk.
pub fn chunk_tiles(world: &World, c: (u32, u32)) -> (tiles: Vec<Tile>)
    requires
        world.wf(),
        c.0 < 0x400_0000,
        c.1 < 0x400_0000,
    ensures
        is_chunk(world@, c, tiles@),
        tiles@ == chunk_content(world@, c),
        forall|i: int| 0 <= i < tiles.len() ==> (#[trigger] tiles@[i]).wf(),
{
    let (x0, y0): (u32, u32) = (c.0 * CHUNK_SIZE, c.1 * CHUNK_SIZE);
    let mut tiles: Vec<Tile> = Vec::new();
    let mut dy: u32 = 0;
    while dy < CHUNK_SIZE
        invariant
            world.wf(),
            x0 == c.0 * CHUNK_SIZE,
            y0 == c.1 * CHUNK_SIZE,
            c.0 < 0x400_0000,
            c.1 < 0x400_0000,
            dy <= CHUNK_SIZE,
            tiles.len() == dy * CHUNK_SIZE,
            forall|i: int| 0 <= i < tiles.len() ==> (#[trigger] tiles@[i]).wf(),
            forall|x: int, y: int| #[trigger]
                in_chunk(c.0, c.1, x, y) && y < y0 + dy ==> tiles@[chunk_index(c.0, c.1, x, y)] == (
                if world@.inside(x, y) {
                    world@.at(x, y)
                } else {
                    Tile::spec_of(TileId::Air)
                }),
        decreases CHUNK_SIZE - dy,
    {
        let mut dx: u32 = 0;
        while dx < CHUNK_SIZE
            invariant
                world.wf(),
                x0 == c.0 * CHUNK_SIZE,
                y0 == c.1 * CHUNK_SIZE,
                c.0 < 0x400_0000,
                c.1 < 0x400_0000,
                dy < CHUNK_SIZE,
                dx <= CHUNK_SIZE,
                tiles.len() == dy * CHUNK_SIZE + dx,
                forall|i: int| 0 <= i < tiles.len() ==> (#[trigger] tiles@[i]).wf(),
                forall|x: int, y: int| #[trigger]
                    in_chunk(c.0, c.1, x, y) && (y < y0 + dy || (y == y0 + dy && x < x0 + dx))
                        ==> tiles@[chunk_index(c.0, c.1, x, y)] == (if world@.inside(x, y) {
                        world@.at(x, y)
                    } else {
                        Tile::spec_of(TileId::Air)
                    }),
            decreases CHUNK_SIZE - dx,
        {
            let (x, y): (u32, u32) = (x0 + dx, y0 + dy);
            let ghost before = tiles@;
            let t: Tile = if world.in_bounds(x, y) {
                world.tile(x, y)
            } else {
                Tile::of(TileId::Air)
            };
            tiles.push(t);
            assert(chunk_index(c.0, c.1, x as int, y as int) == before.len());
            dx = dx + 1;
        }
        dy = dy + 1;
    }
    proof {
        lemma_chunk_content(world@, c, tiles@);
    }
    tiles
}

/// A copy of tiles.
pub(crate) fn copy_tiles(tiles: &Vec<Tile>) -> (copy: Vec<Tile>)
    ensures
        copy@ == tiles@,
{
    let mut copy: Vec<Tile> = Vec::new();
    let mut i: usize = 0;
    while i < tiles.len()
        invariant
            i <= tiles.len(),
            copy@ == tiles@.take(i as int),
        decreases tiles.len() - i,
    {
        copy.push(tiles[i]);
        i = i + 1;
        assert(tiles@.take(i as int) =~= tiles@.take(i - 1).push(tiles@[i - 1]));
    }
    assert(tiles@.take(tiles@.len() as int) =~= tiles@);
    copy
}

/// The chunks that were read since they last changed.
pub struct ChunkCache {
    pub chunks: Vec<((u32, u32), Vec<Tile>)>,
}

/// The chunk at `c` is among the entries.
pub open spec fn holds(chunks: Seq<((u32, u32), Vec<Tile>)>, c: (u32, u32)) -> bool {
    exists|i: int| 0 <= i < chunks.len() && (#[trigger] chunks[i]).0 == c
}

impl ChunkCache {
    /// Every kept chunk is what the world holds now.
    pub open spec fn fresh(&self, g: Grid) -> bool {
        forall|i: int|
            0 <= i < self.chunks@.len() ==> is_chunk(
                g,
                (#[trigger] self.chunks@[i]).0,
                self.chunks@[i].1@,
            )
    }

    pub fn new() -> (cache: ChunkCache)
        ensures
            cache.chunks@.len() == 0,
    {
        ChunkCache { chunks: Vec::new() }
    }

    /// The tiles of a chunk, read from the world only where they are not kept
    /// yet.
    pub fn chunk_frame(&mut self, world: &World, c: (u32, u32)) -> (tiles: Vec<Tile>)
        requires
            world.wf(),
            old(self).fresh(world@),
            c.0 < 0x400_0000,
            c.1 < 0x400_0000,
        ensures
            tiles@ == chunk_content(world@, c),
            final(self).fresh(world@),
            holds(final(self).chunks@, c),
            forall|d: (u32, u32)|
                d != c ==> (#[trigger] holds(final(self).chunks@, d) <==> holds(
                    old(self).chunks@,
                    d,
                )),
            holds(old(self).chunks@, c) ==> final(self).chunks@ == old(self).chunks@,
    {
        let mut i: usize = 0;
        while i < self.chunks.len()
            invariant
                *self == *old(self),
                self.fresh(world@),
                i <= self.chunks.len(),
                forall|k: int| 0 <= k < i ==> (#[trigger] self.chunks@[k]).0 != c,
            decreases self.chunks.len() - i,
        {
            let k: (u32, u32) = self.chunks[i].0;
            if k.0 == c.0 && k.1 == c.1 {
                assert(self.chunks@[i as int].0 == c);
                proof {
                    lemma_chunk_content(world@, c, self.chunks@[i as int].1@);
                }
                return copy_tiles(&self.chunks[i].1);
            }
            i = i + 1;
        }
        let tiles = chunk_tiles(world, c);
        let copy = copy_tiles(&tiles);
        self.chunks.push((c, copy));
        proof {
            let (before, after) = (old(self).chunks@, self.chunks@);
            assert(after[before.len() as int].0 == c);
            assert forall|d: (u32, u32)| d != c implies (#[trigger] holds(after, d) <==> holds(
                before,
                d,
            )) by {
                if holds(before, d) {
                    let k = choose|k: int| 0 <= k < before.len() && (#[trigger] before[k]).0 == d;
                    assert(after[k].0 == d);
                }
                if holds(after, d) {
                    let k = choose|k: int| 0 <= k < after.len() && (#[trigger] after[k]).0 == d;
                    assert(before[k].0 == d);
                }
            }
        }
        tiles
    }

    /// Drops the chunk around a cell that changed.
    pub fn forget(&mut self, x: u32, y: u32)
        ensures
            final(self).chunks@ == old(self).chunks@.filter(apart(chunk_of(x, y))),
    {
        let c: (u32, u32) = (x / CHUNK_SIZE, y / CHUNK_SIZE);
        let ghost all = self.chunks@;
        let mut rest: Vec<((u32, u32), Vec<Tile>)> = Vec::new();
        let mut chunks: Vec<((u32, u32), Vec<Tile>)> = Vec::new();
        std::mem::swap(&mut chunks, &mut self.chunks);
        for e in it: chunks
            invariant
                it.seq() == all,
                c == chunk_of(x, y),
                rest@ == all.take(it.index() as int).filter(apart(c)),
        {
            let ghost i = it.index() as int;
            proof {
                reveal(Seq::filter);
                assert(all.take(i + 1).drop_last() =~= all.take(i));
                assert(all.take(i + 1).last() == e);
            }
            if e.0.0 != c.0 || e.0.1 != c.1 {
                rest.push(e);
            }
        }
        assert(all.take(all.len() as int) =~= all);
        self.chunks = rest;
    }

    /// Drops the chunks around the cells from index `from` on.
    pub fn forget_all(&mut self, cells: &Vec<(u32, u32)>, from: usize)
        requires
            from <= cells.len(),
        ensures
            final(self).chunks@ == forgotten(old(self).chunks@, cells@.skip(from as int)),
    {
        let mut i: usize = from;
        assert(cells@.subrange(from as int, from as int) =~= Seq::<(u32, u32)>::empty());
        while i < cells.len()
            invariant
                from <= i <= cells.len(),
                self.chunks@ == forgotten(
                    old(self).chunks@,
                    cells@.subrange(from as int, i as int),
                ),
            decreases cells.len() - i,
        {
            let c: (u32, u32) = cells[i];
            self.forget(c.0, c.1);
            i = i + 1;
            proof {
                let now = cells@.subrange(from as int, i as int);
                assert(now.drop_last() =~= cells@.subrange(from as int, i - 1));
                assert(now.last() == c);
            }
        }
        assert(cells@.subrange(from as int, i as int) =~= cells@.skip(from as int));
    }
}

/// What is still kept once all `cells` changed.
pub open spec fn forgotten(
    chunks: Seq<((u32, u32), Vec<Tile>)>,
    cells: Seq<(u32, u32)>,
) -> Seq<((u32, u32), Vec<Tile>)>
    decreases cells.len(),
{
    if cells.len() == 0 {
        chunks
    } else {
        let c = cells.last();
        forgotten(chunks, cells.drop_last()).filter(apart(chunk_of(c.0, c.1)))
    }
}

/// Nothing is kept of the chunk of a changed cell.
proof fn lemma_forgotten(
    chunks: Seq<((u32, u32), Vec<Tile>)>,
    cells: Seq<(u32, u32)>,
    e: ((u32, u32), Vec<Tile>),
)
    requires
        forgotten(chunks, cells).contains(e),
    ensures
        chunks.contains(e),
        forall|i: int|
            0 <= i < cells.len() ==> e.0 != chunk_of((#[trigger] cells[i]).0, cells[i].1),
    decreases cells.len(),
{
    if cells.len() > 0 {
        let c = cells.last();
        let less = forgotten(chunks, cells.drop_last());
        let p = apart(chunk_of(c.0, c.1));
        less.lemma_filter_contains_rev(p, e);
        let k = less.filter(p).index_of(e);
        less.lemma_filter_pred(p, k);
        lemma_forgotten(chunks, cells.drop_last(), e);
        assert forall|i: int| 0 <= i < cells.len() implies e.0 != chunk_of(
            (#[trigger] cells[i]).0,
            cells[i].1,
        ) by {
            if i < cells.len() - 1 {
                assert(cells.drop_last()[i] == cells[i]);
            }
        }
    }
}

/// One cell.
pub proof fn lemma_forgotten_one(chunks: Seq<((u32, u32), Vec<Tile>)>, x: u32, y: u32)
    ensures
        forgotten(chunks, seq![(x, y)]) == chunks.filter(apart(chunk_of(x, y))),
{
    let cells = seq![(x, y)];
    assert(cells.drop_last() =~= Seq::<(u32, u32)>::empty());
    assert(forgotten(chunks, cells.drop_last()) == chunks);
}

/// Entries of other chunks than `c`.
pub open spec fn apart(c: (u32, u32)) -> spec_fn(((u32, u32), Vec<Tile>)) -> bool {
    |e: ((u32, u32), Vec<Tile>)| e.0 != c
}

/// A cell of a chunk belongs to that chunk alone.
proof fn lemma_chunk_of(c: (u32, u32), x: u32, y: u32)
    ensures
        in_chunk(c.0, c.1, x as int, y as int) <==> c == chunk_of(x, y),
{
}

/// Kept chunks never fall behind the world: where cells change and their
/// chunks are dropped, everything that is still kept is what the world holds
/// now.
pub proof fn law_kept_chunks_are_current(
    cache: ChunkCache,
    left: ChunkCache,
    before: Grid,
    after: Grid,
    cells: Seq<(u32, u32)>,
)
    requires
        cache.fresh(before),
        left.chunks@ == forgotten(cache.chunks@, cells),
        after.width == before.width,
        after.height == before.height,
        before.width <= u32::MAX,
        before.height <= u32::MAX,
        forall|a: int, b: int|
            before.inside(a, b) && !cells.contains((a as u32, b as u32)) ==> #[trigger] after.at(
                a,
                b,
            ) == before.at(a, b),
    ensures
        left.fresh(after),
{
    assert forall|i: int| 0 <= i < left.chunks@.len() implies is_chunk(
        after,
        (#[trigger] left.chunks@[i]).0,
        left.chunks@[i].1@,
    ) by {
        let e = left.chunks@[i];
        assert(left.chunks@.contains(e));
        lemma_forgotten(cache.chunks@, cells, e);
        let k = cache.chunks@.index_of(e);
        assert(is_chunk(before, cache.chunks@[k].0, cache.chunks@[k].1@));
        assert forall|a: int, b: int| #[trigger] in_chunk(e.0.0, e.0.1, a, b) implies e.1@[
        chunk_index(e.0.0, e.0.1, a, b)] == (if after.inside(a, b) {
            after.at(a, b)
        } else {
            Tile::spec_of(TileId::Air)
        }) by {
            if after.inside(a, b) {
                assert(before.inside(a, b));
                let c = (a as u32, b as u32);
                lemma_chunk_of(e.0, c.0, c.1);
                if cells.contains(c) {
                    let n = cells.index_of(c);
                    assert(e.0 != chunk_of(cells[n].0, cells[n].1));
                }
                assert(after.at(a, b) == before.at(a, b));
            }
        }
    }
}

/// A client's copy shows the world in the chunks that it is kept informed of.
pub open spec fn mirrors(copy: Grid, world: Grid, chunks: Set<(u32, u32)>) -> bool {
    &&& copy.width == world.width
    &&& copy.height == world.height
    &&& forall|x: int, y: int|
        world.inside(x, y) && chunks.contains(chunk_of(x as u32, y as u32)) ==> #[trigger] copy.at(
            x,
            y,
        ) == world.at(x, y)
}

/// A chunk that arrives is shown as it is in the world, and the others stay as
/// they are.
pub proof fn law_chunks_arrive_whole(
    copy: Grid,
    after: Grid,
    world: Grid,
    chunks: Set<(u32, u32)>,
    c: (u32, u32),
    tiles: Seq<Tile>,
)
    requires
        mirrors(copy, world, chunks),
        is_chunk(world, c, tiles),
        chunk_applied(copy, after, c.0, c.1, tiles),
        world.width <= u32::MAX,
        world.height <= u32::MAX,
    ensures
        mirrors(after, world, chunks.insert(c)),
{
    assert forall|x: int, y: int|
        world.inside(x, y) && chunks.insert(c).contains(
            chunk_of(x as u32, y as u32),
        ) implies #[trigger] after.at(x, y) == world.at(x, y) by {
        lemma_chunk_of(c, x as u32, y as u32);
        assert(copy.inside(x, y));
        if in_chunk(c.0, c.1, x, y) {
            assert(tiles[chunk_index(c.0, c.1, x, y)] == world.at(x, y));
        } else {
            assert(copy.at(x, y) == world.at(x, y));
        }
    }
}

/// The copy after the first `n` changes were taken over from the world.
pub open spec fn told(copy: Grid, world: Grid, cells: Seq<(u32, u32)>, n: nat) -> Grid
    decreases n,
{
    if n == 0 {
        copy
    } else {
        let c = cells[n - 1];
        told(copy, world, cells, (n - 1) as nat).put(
            c.0 as int,
            c.1 as int,
            world.at(c.0 as int, c.1 as int),
        )
    }
}

proof fn lemma_told(copy: Grid, world: Grid, cells: Seq<(u32, u32)>, n: nat)
    requires
        copy.wf(),
        world.wf(),
        copy.width == world.width,
        copy.height == world.height,
        n <= cells.len(),
        forall|i: int|
            0 <= i < cells.len() ==> world.inside(
                (#[trigger] cells[i]).0 as int,
                cells[i].1 as int,
            ),
    ensures
        told(copy, world, cells, n).wf(),
        told(copy, world, cells, n).width == copy.width,
        told(copy, world, cells, n).height == copy.height,
        forall|x: int, y: int|
            world.inside(x, y) ==> #[trigger] told(copy, world, cells, n).at(x, y) == (if cells.take(
                n as int,
            ).contains((x as u32, y as u32)) && x <= u32::MAX && y <= u32::MAX {
                world.at(x, y)
            } else {
                copy.at(x, y)
            }),
    decreases n,
{
    broadcast use group_grid;

    if n > 0 {
        let m = (n - 1) as nat;
        lemma_told(copy, world, cells, m);
        let c = cells[n - 1];
        let (g, h) = (told(copy, world, cells, m), told(copy, world, cells, n));
        assert(world.inside(c.0 as int, c.1 as int));
        let (t0, t1) = (cells.take(m as int), cells.take(n as int));
        assert(t1 =~= t0.push(c));
        assert forall|x: int, y: int| world.inside(x, y) implies #[trigger] h.at(x, y) == (
        if t1.contains((x as u32, y as u32)) && x <= u32::MAX && y <= u32::MAX {
            world.at(x, y)
        } else {
            copy.at(x, y)
        }) by {
            let d = (x as u32, y as u32);
            assert(g.inside(x, y));
            assert(g.at(x, y) == g.at(x, y));
            if t0.contains(d) {
                let k = t0.index_of(d);
                assert(t1[k] == d);
            }
            if t1.contains(d) && d != c {
                let k = t1.index_of(d);
                assert(t0[k] == d);
            }
            if d == c {
                assert(t1[m as int] == d);
            }
        }
    }
}

pub proof fn lemma_seen(cells: Seq<(u32, u32)>, chunks: Seq<(u32, u32)>, n: nat)
    requires
        n <= cells.len(),
    ensures
        forall|c: (u32, u32)| #[trigger]
            seen_by(cells, chunks, n).contains(c) <==> cells.take(n as int).contains(c)
                && chunks.contains(chunk_of(c.0, c.1)),
    decreases n,
{
    if n == 0 {
        assert(cells.take(0) =~= Seq::<(u32, u32)>::empty());
        assert(seen_by(cells, chunks, 0) =~= Seq::<(u32, u32)>::empty());
    } else {
        let m = (n - 1) as nat;
        lemma_seen(cells, chunks, m);
        let d = cells[n - 1];
        let (t0, t1) = (cells.take(m as int), cells.take(n as int));
        let (s0, s1) = (seen_by(cells, chunks, m), seen_by(cells, chunks, n));
        assert(t1 =~= t0.push(d));
        assert forall|c: (u32, u32)| #[trigger] s1.contains(c) <==> t1.contains(c)
            && chunks.contains(chunk_of(c.0, c.1)) by {
            crate::sim::chunks::lemma_push_contains(t0, d);
            crate::sim::chunks::lemma_push_contains(s0, d);
        }
    }
}

/// The changes of a tick reach every client that has to know of them: one that
/// takes over the cells it is told of shows the changed world in all of its
/// chunks.
pub proof fn law_changes_reach_their_clients(
    copy: Grid,
    before: Grid,
    after: Grid,
    cells: Seq<(u32, u32)>,
    chunks: Seq<(u32, u32)>,
)
    requires
        copy.wf(),
        after.wf(),
        before.width <= u32::MAX,
        before.height <= u32::MAX,
        mirrors(copy, before, chunks.to_set()),
        after.width == before.width,
        after.height == before.height,
        forall|i: int|
            0 <= i < cells.len() ==> after.inside(
                (#[trigger] cells[i]).0 as int,
                cells[i].1 as int,
            ),
        forall|x: int, y: int|
            before.inside(x, y) && !cells.contains((x as u32, y as u32)) ==> #[trigger] after.at(
                x,
                y,
            ) == before.at(x, y),
    ensures
        mirrors(
            told(
                copy,
                after,
                seen_by(cells, chunks, cells.len()),
                seen_by(cells, chunks, cells.len()).len(),
            ),
            after,
            chunks.to_set(),
        ),
{
    let mine = seen_by(cells, chunks, cells.len());
    lemma_seen(cells, chunks, cells.len());
    assert(cells.take(cells.len() as int) =~= cells);
    assert forall|i: int| 0 <= i < mine.len() implies after.inside(
        (#[trigger] mine[i]).0 as int,
        mine[i].1 as int,
    ) by {
        assert(mine.contains(mine[i]));
        let k = cells.index_of(mine[i]);
        assert(cells[k] == mine[i]);
    }
    lemma_told(copy, after, mine, mine.len());
    assert(mine.take(mine.len() as int) =~= mine);
    let end = told(copy, after, mine, mine.len());
    assert forall|x: int, y: int|
        after.inside(x, y) && chunks.to_set().contains(
            chunk_of(x as u32, y as u32),
        ) implies #[trigger] end.at(x, y) == after.at(x, y) by {
        let d = (x as u32, y as u32);
        assert(mine.contains(d) <==> cells.contains(d));
        if !cells.contains(d) {
            assert(before.inside(x, y));
            assert(after.at(x, y) == before.at(x, y));
            assert(copy.at(x, y) == before.at(x, y));
        }
    }
}

/// A chunk is sent as 64 rows of 64 tiles, each the tile of the world there;
/// where the world ends there is air.
pub proof fn law_chunks_hold_their_tiles(g: Grid, c: (u32, u32), dx: int, dy: int)
    requires
        0 <= dx < 64,
        0 <= dy < 64,
    ensures
        chunk_content(g, c).len() == 64 * 64,
        g.inside(c.0 * 64 + dx, c.1 * 64 + dy) ==> chunk_content(g, c)[dy * 64 + dx] == g.at(
            c.0 * 64 + dx,
            c.1 * 64 + dy,
        ),
        !g.inside(c.0 * 64 + dx, c.1 * 64 + dy) ==> chunk_content(g, c)[dy * 64 + dx].id
            == TileId::Air,
{
    let i = dy * 64 + dx;
    assert(i % 64 == dx && i / 64 == dy);
}

/// A chunk that is forgotten is kept no longer, and every other one still is.
pub proof fn law_forgetting_spares_the_rest(
    chunks: Seq<((u32, u32), Vec<Tile>)>,
    c: (u32, u32),
    d: (u32, u32),
)
    ensures
        !holds(chunks.filter(apart(c)), c),
        d != c ==> (holds(chunks.filter(apart(c)), d) <==> holds(chunks, d)),
{
    broadcast use vstd::seq_lib::group_filter_ensures;

    let f = apart(c);
    let after = chunks.filter(f);
    if holds(after, c) {
        let i = choose|i: int| 0 <= i < after.len() && (#[trigger] after[i]).0 == c;
        assert(f(after[i]));
    }
    if d != c {
        if holds(chunks, d) {
            let i = choose|i: int| 0 <= i < chunks.len() && (#[trigger] chunks[i]).0 == d;
            assert(f(chunks[i]));
            assert(chunks.contains(chunks[i]));
            assert(after.contains(chunks[i]));
            let k = after.index_of(chunks[i]);
            assert(after[k].0 == d);
        }
        if holds(after, d) {
            let i = choose|i: int| 0 <= i < after.len() && (#[trigger] after[i]).0 == d;
            lemma_kept_were_there(chunks, f, i);
            let k = chunks.index_of(after[i]);
            assert(chunks[k].0 == d);
        }
    }
}

proof fn lemma_kept_were_there(
    chunks: Seq<((u32, u32), Vec<Tile>)>,
    f: spec_fn(((u32, u32), Vec<Tile>)) -> bool,
    i: int,
)
    requires
        0 <= i < chunks.filter(f).len(),
    ensures
        chunks.contains(chunks.filter(f)[i]),
    decreases chunks.len(),
{
    reveal(Seq::filter);
    if chunks.len() > 0 {
        let (front, last) = (chunks.drop_last(), chunks.last());
        let before = front.filter(f);
        if i < before.len() {
            lemma_kept_were_there(front, f, i);
            let k = front.index_of(before[i]);
            assert(chunks[k] == before[i]);
        } else {
            assert(chunks[chunks.len() - 1] == last);
        }
    }
}

} // verus!
