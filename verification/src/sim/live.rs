//! The living world: tiles together with what is about to change.

use vstd::prelude::*;

use crate::cellmap::CellMap;
use crate::grid::{group_grid, Grid, World};
use crate::item::InvSlot;
use crate::sim::chunks::{batch_cells, chunk_of, increasing, lemma_push_contains};
use crate::sim::edits::{edited, edits_fit};
use crate::sim::fluids::{law_round_lists_its_changes, woken, Flow, FluidSim};
use crate::sim::interact::{
    column_up, damage_worn_off, drop_at, opened, purge_stale_damage, Drop, TileDamage,
};
use crate::sim::player::Player;
use crate::sim::roster::{said, Message, Outgoing, Roster};
use crate::sim::sand::law_a_step_lists_its_changes;
use crate::sim::session::{change_news, edit_news};
use crate::sim::stream::{
    apart, chunk_content, forgotten, holds, law_kept_chunks_are_current, lemma_forgotten_one,
    ChunkCache,
};
use crate::sim::world_tick::{
    add_cell, after_random_tick, dries, dry_marks, evaporate_puddles, fluids_due, free_above,
    greenable_around, grow_sapling, growth, lemma_greenable_inside, mark_dried, puddle,
    puddles_after, random_tick, random_tick_cell, scan_initial_puddles, spec_random_budget, step_sand, track_puddle,
    with_cell, Growth, RandomTick, SandFall, TREE_HEIGHT_MAX,
};
use crate::sort::{lemma_sorted_cells, CellOrder};
use crate::tile::{Liquid, LiquidKind, Tile, TileId};
use crate::worldgen::flora::with_tree;

verus! {

/// Saplings, puddles and worn damage are looked at every so many ticks.
pub const HOUSEKEEPING_TICKS: u64 = 60;

/// The world and its unfinished business.
pub struct Live {
    pub world: World,
    pub fluids: FluidSim,
    /// Sand that may fall.
    pub sand: Vec<(u32, u32)>,
    /// Since when a cell is a puddle.
    pub puddles: CellMap<u64>,
    /// When a sapling is due to grow.
    pub saplings: CellMap<u64>,
    pub tile_damage: CellMap<TileDamage>,
    pub wall_damage: CellMap<TileDamage>,
    /// Cells whose support is to be looked at again.
    pub supports: Vec<(u32, u32)>,
    /// Changed cells that nobody was told of yet.
    pub staged: Vec<(u32, u32)>,
    /// Chunks as they were last read.
    pub cache: ChunkCache,
}

impl View for Live {
    type V = LiveView;

    open spec fn view(&self) -> LiveView {
        LiveView {
            grid: self.world@,
            spawn: self.world.spawn,
            queue: self.fluids@,
            sand: self.sand@,
            puddles: self.puddles@,
            saplings: self.saplings@,
            tile_damage: self.tile_damage@,
            wall_damage: self.wall_damage@,
            supports: self.supports@,
            staged: self.staged@,
            kept: self.cache.chunks@,
        }
    }
}

pub open spec fn all_inside(g: Grid, cells: Seq<(u32, u32)>) -> bool {
    forall|i: int|
        0 <= i < cells.len() ==> g.inside((#[trigger] cells[i]).0 as int, cells[i].1 as int)
}

pub open spec fn keys_inside<V>(g: Grid, m: Map<(u32, u32), V>) -> bool {
    forall|c: (u32, u32)| #[trigger] m.dom().contains(c) ==> g.inside(c.0 as int, c.1 as int)
}

/// `(x, y)` if it is inside.
pub open spec fn cell_if_inside(g: Grid, x: int, y: int) -> Seq<(u32, u32)> {
    if g.inside(x, y) {
        seq![(x as u32, y as u32)]
    } else {
        seq![]
    }
}

/// A changed cell and its four neighbours, as far as they are inside.
pub open spec fn support_cells(g: Grid, x: int, y: int) -> Seq<(u32, u32)> {
    cell_if_inside(g, x, y) + cell_if_inside(g, x - 1, y) + cell_if_inside(g, x + 1, y)
        + cell_if_inside(g, x, y - 1) + cell_if_inside(g, x, y + 1)
}

/// `sand` with `(x, y)` added where there is sand.
pub open spec fn with_sand(sand: Seq<(u32, u32)>, g: Grid, x: int, y: int) -> Seq<(u32, u32)> {
    if g.inside(x, y) && g.at(x, y).id == TileId::Sand {
        with_cell(sand, (x as u32, y as u32))
    } else {
        sand
    }
}

/// The living world as it is seen from outside.
#[verifier::ext_equal]
pub struct LiveView {
    pub grid: Grid,
    pub spawn: (u32, u32),
    pub queue: Seq<(u32, u32)>,
    pub sand: Seq<(u32, u32)>,
    pub puddles: Map<(u32, u32), u64>,
    pub saplings: Map<(u32, u32), u64>,
    pub tile_damage: Map<(u32, u32), TileDamage>,
    pub wall_damage: Map<(u32, u32), TileDamage>,
    pub supports: Seq<(u32, u32)>,
    pub staged: Seq<(u32, u32)>,
    pub kept: Seq<((u32, u32), Vec<Tile>)>,
}

impl LiveView {
    /// Everything around a changed cell is told that it changed.
    pub open spec fn woken_at(self, x: int, y: int, tick: u64) -> LiveView {
        let g = self.grid;
        let p = puddles_after(self.puddles, g, x, y, tick);
        let p = puddles_after(p, g, x, y - 1, tick);
        LiveView {
            queue: woken(self.queue, g.width, g.height, x, y),
            sand: with_sand(with_sand(self.sand, g, x, y), g, x, y - 1),
            supports: self.supports + support_cells(g, x, y),
            puddles: puddles_after(p, g, x, y + 1, tick),
            tile_damage: self.tile_damage.remove((x as u32, y as u32)),
            wall_damage: self.wall_damage.remove((x as u32, y as u32)),
            ..self
        }
    }

    /// A tile is put: its chunk is no longer kept, and everything around it
    /// is told.
    pub open spec fn change(self, e: (u32, u32, Tile), tick: u64) -> LiveView {
        LiveView {
            grid: self.grid.put(e.0 as int, e.1 as int, e.2),
            kept: self.kept.filter(apart(chunk_of(e.0, e.1))),
            ..self
        }.woken_at(e.0 as int, e.1 as int, tick)
    }

    /// Tiles are put one after the other.
    pub open spec fn changes(self, edits: Seq<(u32, u32, Tile)>, tick: u64) -> LiveView
        decreases edits.len(),
    {
        if edits.len() == 0 {
            self
        } else {
            self.changes(edits.drop_last(), tick).change(edits.last(), tick)
        }
    }

    /// A cell that changed is put on the list of the tick, and its chunk is no
    /// longer kept.
    pub open spec fn stage(self, c: (u32, u32)) -> LiveView {
        LiveView {
            staged: self.staged.push(c),
            kept: self.kept.filter(apart(chunk_of(c.0, c.1))),
            ..self
        }
    }

    /// Loose sand fell by one cell.
    pub open spec fn sand_stepped(self) -> LiveView {
        let start = SandFall {
            grid: self.grid,
            queue: self.queue,
            next: seq![],
            staged: self.staged,
        };
        let cells = CellOrder::BottomUp.sorted(self.sand);
        let end = start.visits(cells, cells.len());
        LiveView {
            grid: end.grid,
            queue: end.queue,
            sand: end.next,
            staged: end.staged,
            kept: forgotten(self.kept, end.staged.skip(self.staged.len() as int)),
            ..self
        }
    }

    /// What a random update does.
    pub open spec fn randomly(self, x: int, y: int, r: RandomTick, tick: u64) -> LiveView {
        let now = LiveView { grid: after_random_tick(self.grid, x, y, r), ..self };
        match r {
            RandomTick::Dies => now.stage((x as u32, y as u32)),
            RandomTick::Spreads(c) => now.stage(c),
            RandomTick::Snuffed => self.change(
                (x as u32, y as u32, opened(self.grid.at(x, y))),
                tick,
            ),
            RandomTick::Nothing => self,
        }
    }
}

/// The edits leave everything but the grid and what is told to the
/// neighbourhood.
pub proof fn lemma_changes(v: LiveView, edits: Seq<(u32, u32, Tile)>, tick: u64)
    ensures
        v.changes(edits, tick).grid == edited(v.grid, edits),
        v.changes(edits, tick).saplings == v.saplings,
        v.changes(edits, tick).staged == v.staged,
        v.changes(edits, tick).spawn == v.spawn,
    decreases edits.len(),
{
    if edits.len() > 0 {
        lemma_changes(v, edits.drop_last(), tick);
    }
}

/// A torch under water.
pub open spec fn drowned(t: Tile) -> bool {
    t.id == TileId::Torch && t.liquid.spec_kind() == Some(LiquidKind::Water)
}

/// What falls out at a cell.
pub open spec fn worth(stack: Option<InvSlot>, x: int, y: int) -> Seq<Drop> {
    match stack {
        Some(s) => seq![drop_at(s.item, s.count, x, y)],
        None => seq![],
    }
}

/// Drops what falls out at a cell.
fn leave(drops: &mut Vec<Drop>, stack: Option<InvSlot>, x: u32, y: u32)
    ensures
        final(drops)@ == old(drops)@ + worth(stack, x as int, y as int),
{
    if let Some(s) = stack {
        drops.push(Drop { stack: s, half_x: 2 * (x as u64) + 1, half_y: 2 * (y as u64) + 1 });
    }
    assert(drops@ =~= old(drops)@ + worth(stack, x as int, y as int));
}

/// The world while the cells that liquids changed are gone through: what fell
/// out, and what players were told.
#[verifier::ext_equal]
pub struct Wash {
    pub live: LiveView,
    pub drops: Seq<Drop>,
    pub told: Seq<Message>,
}

/// A cell that was drawn for a random update, and where grass goes from it.
#[derive(Debug, Clone, Copy, PartialEq, Eq, Structural)]
pub struct Draw {
    pub x: u32,
    pub y: u32,
    pub choice: usize,
}

/// What chance brings in a tick: the cells of the random updates, and the
/// heights of the trees that grow.
#[derive(Debug)]
pub struct Luck {
    pub draws: Vec<Draw>,
    pub heights: Vec<u32>,
}

pub open spec fn all_drawn_inside(g: Grid, draws: Seq<Draw>) -> bool {
    forall|i: int|
        0 <= i < draws.len() ==> g.inside((#[trigger] draws[i]).x as int, draws[i].y as int)
}

impl Wash {
    /// One random update.
    pub open spec fn strike(
        self,
        players: Seq<Player>,
        d: Draw,
        torch: Option<InvSlot>,
        tick: u64,
    ) -> Wash {
        let (x, y) = (d.x as int, d.y as int);
        let g = self.live.grid;
        let r = random_tick(g, x, y, d.choice as int);
        let live = self.live.randomly(x, y, r, tick);
        if r is Snuffed {
            Wash {
                live,
                drops: self.drops + worth(torch, x, y),
                told: self.told + change_news(players, (d.x, d.y, opened(g.at(x, y)))),
            }
        } else {
            Wash { live, ..self }
        }
    }

    /// The first `n` random updates, one after the other.
    pub open spec fn strikes(
        self,
        players: Seq<Player>,
        draws: Seq<Draw>,
        n: nat,
        torch: Option<InvSlot>,
        tick: u64,
    ) -> Wash
        decreases n,
    {
        if n == 0 {
            self
        } else {
            self.strikes(players, draws, (n - 1) as nat, torch, tick).strike(
                players,
                draws[n - 1],
                torch,
                tick,
            )
        }
    }

    /// One changed cell: a torch that is under water breaks, and leaves
    /// `torch`.
    pub open spec fn visit(
        self,
        players: Seq<Player>,
        c: (u32, u32),
        torch: Option<InvSlot>,
        tick: u64,
    ) -> Wash {
        let (x, y) = (c.0 as int, c.1 as int);
        let g = self.live.grid;
        let t = g.at(x, y);
        let noted = LiveView {
            staged: self.live.staged.push(c),
            puddles: puddles_after(self.live.puddles, g, x, y, tick),
            ..self.live
        };
        let e = (c.0, c.1, opened(t));
        let next = if drowned(t) {
            Wash {
                live: noted.change(e, tick),
                drops: self.drops + worth(torch, x, y),
                told: self.told + change_news(players, e),
            }
        } else {
            Wash { live: noted, ..self }
        };
        if t.id == TileId::Sand {
            Wash { live: LiveView { sand: with_cell(next.live.sand, c), ..next.live }, ..next }
        } else {
            next
        }
    }

    pub open spec fn visits(
        self,
        players: Seq<Player>,
        cells: Seq<(u32, u32)>,
        n: nat,
        torch: Option<InvSlot>,
        tick: u64,
    ) -> Wash
        decreases n,
    {
        if n == 0 {
            self
        } else {
            self.visits(players, cells, (n - 1) as nat, torch, tick).visit(
                players,
                cells[n - 1],
                torch,
                tick,
            )
        }
    }
}

/// What became of the sapling at `c`: a tree, nothing yet, or nothing any more.
pub open spec fn sapling_grown(
    before: LiveView,
    after: LiveView,
    c: (u32, u32),
    r: Growth,
) -> bool {
    let (x, y) = (c.0 as int, c.1 as int);
    match r {
        Growth::Lost => after == (LiveView { saplings: before.saplings.remove(c), ..before }),
        Growth::Blocked => after == before,
        Growth::Grown(n) => {
            let bare = before.grid.put(
                x,
                y,
                Tile { id: TileId::Air, ..before.grid.at(x, y) },
            );
            let cells = column_up(x, y, n as nat);
            &&& with_tree(bare, after.grid, x, y + 1, n as int)
            &&& after == (LiveView {
                grid: after.grid,
                saplings: before.saplings.remove(c),
                staged: before.staged + cells,
                kept: forgotten(before.kept, cells),
                ..before
            })
        },
    }
}

/// The worlds while the saplings `due` are looked at one after the other, each
/// with the height rolled for it.
pub open spec fn saplings_tended(
    t: Seq<LiveView>,
    due: Seq<(u32, u32)>,
    rolls: Seq<u32>,
) -> bool {
    &&& t.len() == due.len() + 1
    &&& forall|i: int|
        0 <= i < due.len() ==> sapling_grown(
            #[trigger] t[i],
            t[i + 1],
            due[i],
            growth(t[i].grid, due[i].0 as int, due[i].1 as int, rolls[i] as int),
        )
}

/// The saplings that are due at `tick`, in some order.
pub open spec fn all_due(v: LiveView, tick: u64, due: Seq<(u32, u32)>) -> bool {
    &&& due.no_duplicates()
    &&& forall|c: (u32, u32)| #[trigger]
        due.contains(c) <==> v.saplings.dom().contains(c) && v.saplings[c] <= tick
}

/// The saplings that were due grew as far as they could.
pub open spec fn saplings_grown(
    before: LiveView,
    after: LiveView,
    tick: u64,
    rolls: Seq<u32>,
) -> bool {
    exists|due: Seq<(u32, u32)>, t: Seq<LiveView>|
        {
            &&& #[trigger] saplings_tended(t, due, rolls)
            &&& all_due(before, tick, due)
            &&& t[0] == before
            &&& t[due.len() as int] == after
        }
}

/// What is left of damage when what is too old is forgotten.
pub open spec fn purged(
    before: Map<(u32, u32), TileDamage>,
    after: Map<(u32, u32), TileDamage>,
    tick: u64,
    reset_ticks: u64,
) -> bool {
    &&& forall|c: (u32, u32)| #[trigger]
        after.dom().contains(c) <==> before.dom().contains(c) && !damage_worn_off(
            Some(before[c]),
            tick,
            reset_ticks,
        )
    &&& forall|c: (u32, u32)| #[trigger] after.dom().contains(c) ==> after[c] == before[c]
}

/// The puddle at `c` dries at `tick`.
pub open spec fn dries_now(v: LiveView, c: (u32, u32), tick: u64) -> bool {
    v.puddles.dom().contains(c) && dries(v.grid, c, v.puddles[c], tick)
}

/// Puddles dried, and damage that is too old was forgotten.
pub open spec fn housekept(
    before: LiveView,
    after: LiveView,
    tick: u64,
    reset_ticks: u64,
) -> bool {
    let dried = after.staged.skip(before.staged.len() as int);
    &&& after == (LiveView {
        grid: after.grid,
        queue: dry_marks(
            before.queue,
            before.grid.width,
            before.grid.height,
            dried,
            dried.len(),
        ),
        puddles: after.puddles,
        tile_damage: after.tile_damage,
        wall_damage: after.wall_damage,
        staged: before.staged + dried,
        kept: forgotten(before.kept, dried),
        ..before
    })
    &&& after.grid.width == before.grid.width
    &&& after.grid.height == before.grid.height
    &&& forall|a: int, b: int|
        before.grid.inside(a, b) ==> #[trigger] after.grid.at(a, b) == (if dries_now(
            before,
            (a as u32, b as u32),
            tick,
        ) {
            before.grid.at(a, b).with_liquid(Liquid::Empty)
        } else {
            before.grid.at(a, b)
        })
    &&& forall|c: (u32, u32)| #[trigger]
        after.puddles.dom().contains(c) <==> before.puddles.dom().contains(c) && puddle(
            before.grid,
            c.0 as int,
            c.1 as int,
        ) && !dries_now(before, c, tick)
    &&& forall|c: (u32, u32)| #[trigger]
        after.puddles.dom().contains(c) ==> after.puddles[c] == before.puddles[c]
    &&& forall|c: (u32, u32)| #[trigger] dried.contains(c) <==> dries_now(before, c, tick)
    &&& purged(before.tile_damage, after.tile_damage, tick, reset_ticks)
    &&& purged(before.wall_damage, after.wall_damage, tick, reset_ticks)
}

/// The liquids that are due at `tick` moved, and the cells that they changed
/// were gone through.
pub open spec fn fluids_stepped(
    players: Seq<Player>,
    before: Wash,
    after: Wash,
    torch: Option<InvSlot>,
    tick: u64,
) -> bool {
    let flow = Flow { grid: before.live.grid, queue: before.live.queue, changed: seq![] };
    let (water, lava) = (tick % 2 == 0, tick % 5 == 0);
    let f = flow.round(water, lava);
    if !water && !lava {
        after == before
    } else {
        exists|cells: Seq<(u32, u32)>| #[trigger]
            tidied(f.grid, f.changed, cells) && after == (Wash {
                live: after_flow(before.live, f, cells),
                ..before
            }).visits(players, cells, cells.len(), torch, tick)
    }
}

/// The world after a tick: liquids, sand, random updates, and once in a while
/// saplings, puddles and damage, in this order.
pub open spec fn world_ticked(
    players: Seq<Player>,
    before: Wash,
    after: Wash,
    luck: Luck,
    torch: Option<InvSlot>,
    tick: u64,
    reset_ticks: u64,
) -> bool {
    exists|wet: Wash, tended: LiveView| #[trigger]
        ticked_by(players, before, after, luck, torch, tick, reset_ticks, wet, tended)
}

/// The same with the state in between: after the liquids, and after the
/// saplings.
pub open spec fn ticked_by(
    players: Seq<Player>,
    before: Wash,
    after: Wash,
    luck: Luck,
    torch: Option<InvSlot>,
    tick: u64,
    reset_ticks: u64,
    wet: Wash,
    tended: LiveView,
) -> bool {
    let struck = Wash { live: wet.live.sand_stepped(), ..wet }.strikes(
        players,
        luck.draws@,
        luck.draws@.len(),
        torch,
        tick,
    );
    &&& fluids_stepped(players, before, wet, torch, tick)
    &&& if tick % HOUSEKEEPING_TICKS == 0 {
        &&& saplings_grown(struck.live, tended, tick, luck.heights@)
        &&& housekept(tended, after.live, tick, reset_ticks)
        &&& after == (Wash { live: after.live, ..struck })
    } else {
        after == struck
    }
}

/// The world after liquids moved, before the changed cells are gone through.
pub open spec fn after_flow(v: LiveView, f: Flow, cells: Seq<(u32, u32)>) -> LiveView {
    LiveView { grid: f.grid, queue: f.queue, kept: forgotten(v.kept, cells), ..v }
}

/// The cells of `changed` that are inside, each once, column by column.
pub open spec fn tidied(g: Grid, changed: Seq<(u32, u32)>, cells: Seq<(u32, u32)>) -> bool {
    &&& increasing(cells)
    &&& forall|c: (u32, u32)| #[trigger]
        cells.contains(c) <==> changed.contains(c) && g.inside(c.0 as int, c.1 as int)
}

impl Live {
    pub open spec fn wf(&self) -> bool {
        &&& self.world.wf()
        &&& self.fluids.fits(self.world@)
        &&& all_inside(self.world@, self.sand@)
        &&& self.sand@.no_duplicates()
        &&& keys_inside(self.world@, self.puddles@)
        &&& keys_inside(self.world@, self.saplings@)
        &&& self.cache.fresh(self.world@)
    }

    /// A world taken over as it is: the puddles in it count from the start,
    /// and its liquids rest until something wakes them.
    pub fn new(world: World) -> (l: Live)
        requires
            world.wf(),
        ensures
            l.wf(),
            l.world == world,
            l.fluids@ == Seq::<(u32, u32)>::empty(),
            l.sand@ == Seq::<(u32, u32)>::empty(),
            l.supports@ == Seq::<(u32, u32)>::empty(),
            l.staged@ == Seq::<(u32, u32)>::empty(),
            l.saplings@ == Map::<(u32, u32), u64>::empty(),
            l.tile_damage@ == Map::<(u32, u32), TileDamage>::empty(),
            l.wall_damage@ == Map::<(u32, u32), TileDamage>::empty(),
            l.cache.chunks@.len() == 0,
            forall|c: (u32, u32)| #[trigger]
                l.puddles@.dom().contains(c) <==> world@.inside(c.0 as int, c.1 as int) && puddle(
                    world@,
                    c.0 as int,
                    c.1 as int,
                ),
            forall|c: (u32, u32)| #[trigger] l.puddles@.dom().contains(c) ==> l.puddles@[c] == 0,
    {
        let fluids = FluidSim::new(&world);
        let puddles = scan_initial_puddles(&world);
        Live {
            world,
            fluids,
            sand: Vec::new(),
            puddles,
            saplings: CellMap::new(),
            tile_damage: CellMap::new(),
            wall_damage: CellMap::new(),
            supports: Vec::new(),
            staged: Vec::new(),
            cache: ChunkCache::new(),
        }
    }

    /// The tiles of a chunk, as they are now.
    pub fn chunk_frame(&mut self, c: (u32, u32)) -> (tiles: Vec<Tile>)
        requires
            old(self).wf(),
            c.0 < 0x400_0000,
            c.1 < 0x400_0000,
        ensures
            final(self).wf(),
            *final(self) == (Live { cache: final(self).cache, ..*old(self) }),
            tiles@ == chunk_content(old(self).world@, c),
            holds(final(self).cache.chunks@, c),
            forall|d: (u32, u32)|
                d != c ==> (#[trigger] holds(final(self).cache.chunks@, d) <==> holds(
                    old(self).cache.chunks@,
                    d,
                )),
    {
        self.cache.chunk_frame(&self.world, c)
    }

    fn push_support(&mut self, x: u32, y: u32)
        requires
            old(self).wf(),
        ensures
            *final(self) == (Live { supports: final(self).supports, ..*old(self) }),
            final(self).supports@ == old(self).supports@ + cell_if_inside(
                old(self).world@,
                x as int,
                y as int,
            ),
    {
        if self.world.in_bounds(x, y) {
            self.supports.push((x, y));
        }
        assert(self.supports@ =~= old(self).supports@ + cell_if_inside(
            old(self).world@,
            x as int,
            y as int,
        ));
    }

    /// Asks for a second look at what a changed cell carries.
    pub fn queue_support_checks(&mut self, x: u32, y: u32)
        requires
            old(self).wf(),
            old(self).world@.inside(x as int, y as int),
        ensures
            *final(self) == (Live { supports: final(self).supports, ..*old(self) }),
            final(self).supports@ == old(self).supports@ + support_cells(
                old(self).world@,
                x as int,
                y as int,
            ),
    {
        self.push_support(x, y);
        self.push_support(x.wrapping_sub(1), y);
        self.push_support(x + 1, y);
        self.push_support(x, y.wrapping_sub(1));
        self.push_support(x, y + 1);
        assert(self.supports@ =~= old(self).supports@ + support_cells(
            old(self).world@,
            x as int,
            y as int,
        ));
    }

    fn notice_sand(&mut self, x: u32, y: u32)
        requires
            old(self).wf(),
        ensures
            final(self).wf(),
            *final(self) == (Live { sand: final(self).sand, ..*old(self) }),
            final(self).sand@ == with_sand(old(self).sand@, old(self).world@, x as int, y as int),
    {
        if self.world.in_bounds(x, y) && self.world.tile(x, y).id == TileId::Sand {
            add_cell(&mut self.sand, (x, y));
        }
    }

    /// Tells everything around a changed cell that it changed: liquids, sand,
    /// fixtures, puddles. Damage done to the cell is forgotten.
    pub fn wake_cell(&mut self, x: u32, y: u32, tick: u64)
        requires
            old(self).wf(),
            old(self).world@.inside(x as int, y as int),
        ensures
            final(self).wf(),
            final(self).world == old(self).world,
            final(self).saplings == old(self).saplings,
            final(self)@ == old(self)@.woken_at(x as int, y as int, tick),
    {
        self.tile_damage.remove((x, y));
        self.wall_damage.remove((x, y));
        self.fluids.wake(x, y);
        self.notice_sand(x, y);
        self.notice_sand(x, y.wrapping_sub(1));
        self.queue_support_checks(x, y);
        track_puddle(&self.world, &mut self.puddles, x, y, tick);
        track_puddle(&self.world, &mut self.puddles, x, y.wrapping_sub(1), tick);
        track_puddle(&self.world, &mut self.puddles, x, y + 1, tick);
    }

    /// Puts a tile: the kept chunk around it is dropped, everyone who receives
    /// that chunk is told, and what is around the cell wakes. Nothing happens
    /// outside of the world.
    pub fn change_tile(
        &mut self,
        roster: &Roster,
        x: u32,
        y: u32,
        t: Tile,
        tick: u64,
        out: &mut Vec<Outgoing>,
    )
        requires
            old(self).wf(),
            t.wf(),
        ensures
            final(self).wf(),
            final(self).world.width == old(self).world.width,
            final(self).world.height == old(self).world.height,
            final(self).saplings == old(self).saplings,
            old(self)@.grid.inside(x as int, y as int) ==> {
                &&& final(self)@ == old(self)@.change((x, y, t), tick)
                &&& said(final(out)@) == said(old(out)@) + change_news(roster.players@, (x, y, t))
            },
            !old(self)@.grid.inside(x as int, y as int) ==> {
                &&& *final(self) == *old(self)
                &&& final(out)@ == old(out)@
            },
    {
        broadcast use group_grid;

        if !self.world.in_bounds(x, y) {
            return;
        }
        let ghost (before, cache) = (self.world@, self.cache);
        self.world.set_tile(x, y, t);
        self.cache.forget(x, y);
        proof {
            let cells = seq![(x, y)];
            lemma_forgotten_one(cache.chunks@, x, y);
            assert forall|a: int, b: int|
                before.inside(a, b) && !cells.contains((a as u32, b as u32)) implies #[trigger] self.world@.at(
                a,
                b,
            ) == before.at(a, b) by {
                assert(cells[0] == (x, y));
            }
            law_kept_chunks_are_current(cache, self.cache, before, self.world@, cells);
        }
        roster.tell_subscribers(x, y, t, out);
        self.wake_cell(x, y, tick);
    }

    /// Puts tiles one after the other.
    pub fn apply(
        &mut self,
        roster: &Roster,
        edits: &Vec<(u32, u32, Tile)>,
        tick: u64,
        out: &mut Vec<Outgoing>,
    )
        requires
            old(self).wf(),
            edits_fit(old(self).world@, edits@),
        ensures
            final(self).wf(),
            final(self).world.width == old(self).world.width,
            final(self).world.height == old(self).world.height,
            final(self)@ == old(self)@.changes(edits@, tick),
            final(self).world@ == edited(old(self).world@, edits@),
            said(final(out)@) == said(old(out)@) + edit_news(roster.players@, edits@),
    {
        let mut i: usize = 0;
        assert(edits@.take(0) =~= Seq::<(u32, u32, Tile)>::empty());
        assert(said(out@) =~= said(old(out)@) + edit_news(roster.players@, edits@.take(0)));
        while i < edits.len()
            invariant
                i <= edits.len(),
                self.wf(),
                self.world.width == old(self).world.width,
                self.world.height == old(self).world.height,
                edits_fit(old(self).world@, edits@),
                self@ == old(self)@.changes(edits@.take(i as int), tick),
                said(out@) == said(old(out)@) + edit_news(
                    roster.players@,
                    edits@.take(i as int),
                ),
            decreases edits.len() - i,
        {
            let (x, y, t): (u32, u32, Tile) = edits[i];
            assert(old(self).world@.inside(edits@[i as int].0 as int, edits@[i as int].1 as int));
            let ghost before = said(out@);
            self.change_tile(roster, x, y, t, tick, out);
            i = i + 1;
            proof {
                let now = edits@.take(i as int);
                assert(now.drop_last() =~= edits@.take(i - 1));
                assert(now.last() == edits@[i - 1]);
                assert(said(out@) =~= said(old(out)@) + edit_news(roster.players@, now));
            }
        }
        assert(edits@.take(i as int) =~= edits@);
        proof {
            lemma_changes(old(self)@, edits@, tick);
        }
    }

    /// Moves the liquids that are due at `tick`, notes what that changed and
    /// lets drowned torches go, each of which leaves `torch`.
    pub fn step_fluids(
        &mut self,
        roster: &Roster,
        tick: u64,
        torch: Option<InvSlot>,
        drops: &mut Vec<Drop>,
        out: &mut Vec<Outgoing>,
    )
        requires
            old(self).wf(),
        ensures
            final(self).wf(),
            final(self).world.width == old(self).world.width,
            final(self).world.height == old(self).world.height,
            final(self).saplings == old(self).saplings,
            fluids_stepped(
                roster.players@,
                (Wash { live: old(self)@, drops: old(drops)@, told: said(old(out)@) }),
                (Wash { live: final(self)@, drops: final(drops)@, told: said(final(out)@) }),
                torch,
                tick,
            ),
    {
        let (water, lava): (bool, bool) = fluids_due(tick);
        if !water && !lava {
            return;
        }
        let ghost flow = Flow { grid: self.world@, queue: self.fluids@, changed: seq![] };
        let ghost cache = self.cache;
        proof {
            self.fluids.lemma_queue();
            assert(flow.wf());
            law_round_lists_its_changes(flow, water, lava);
        }
        let mut changed: Vec<(u32, u32)> = Vec::new();
        self.fluids.step(&mut self.world, water, lava, &mut changed);
        let ghost raw = changed@;
        let cells = batch_cells(&self.world, changed);
        let ghost g = self.world@;
        assert(tidied(g, raw, cells@));
        self.cache.forget_all(&cells, 0);
        proof {
            assert(cells@.skip(0) =~= cells@);
            assert forall|a: int, b: int|
                flow.grid.inside(a, b) && !cells@.contains(
                    (a as u32, b as u32),
                ) implies #[trigger] g.at(a, b) == flow.grid.at(a, b) by {
                assert(g.inside(a, b));
            }
            law_kept_chunks_are_current(cache, self.cache, flow.grid, g, cells@);
        }
        let ghost start = Wash {
            live: after_flow(old(self)@, flow.round(water, lava), cells@),
            drops: drops@,
            told: said(out@),
        };
        assert(self@ =~= start.live);
        let mut i: usize = 0;
        while i < cells.len()
            invariant
                i <= cells.len(),
                self.wf(),
                tidied(g, raw, cells@),
                self.world.width == old(self).world.width,
                self.world.height == old(self).world.height,
                self.saplings == old(self).saplings,
                g.width == self.world.width,
                g.height == self.world.height,
                (Wash { live: self@, drops: drops@, told: said(out@) }) == start.visits(
                    roster.players@,
                    cells@,
                    i as nat,
                    torch,
                    tick,
                ),
            decreases cells.len() - i,
        {
            let (x, y) = cells[i];
            assert(cells@.contains(cells@[i as int]));
            let ghost now = Wash { live: self@, drops: drops@, told: said(out@) };
            self.staged.push((x, y));
            track_puddle(&self.world, &mut self.puddles, x, y, tick);
            let t = self.world.tile(x, y);
            if t.id == TileId::Torch && t.liquid.holds(LiquidKind::Water) {
                self.change_tile(roster, x, y, t.opened(), tick, out);
                leave(drops, torch, x, y);
            }
            if t.id == TileId::Sand {
                self.look_at_sand(x, y);
            }
            assert((Wash { live: self@, drops: drops@, told: said(out@) }) =~= now.visit(
                roster.players@,
                cells@[i as int],
                torch,
                tick,
            ));
            i = i + 1;
        }
        assert(tidied(flow.round(water, lava).grid, flow.round(water, lava).changed, cells@));
    }

    /// Puts a cell on the list of sand that may fall.
    fn look_at_sand(&mut self, x: u32, y: u32)
        requires
            old(self).wf(),
            old(self).world@.inside(x as int, y as int),
        ensures
            final(self).wf(),
            *final(self) == (Live { sand: final(self).sand, ..*old(self) }),
            final(self).sand@ == with_cell(old(self).sand@, (x, y)),
    {
        add_cell(&mut self.sand, (x, y));
    }

    /// Lets loose sand fall by one cell.
    pub fn step_sand(&mut self)
        requires
            old(self).wf(),
        ensures
            final(self).wf(),
            final(self).world.width == old(self).world.width,
            final(self).world.height == old(self).world.height,
            final(self).saplings == old(self).saplings,
            final(self)@ == old(self)@.sand_stepped(),
    {
        let ghost start = SandFall {
            grid: self.world@,
            queue: self.fluids@,
            next: seq![],
            staged: self.staged@,
        };
        let ghost cells = CellOrder::BottomUp.sorted(self.sand@);
        let ghost cache = self.cache;
        proof {
            lemma_sorted_cells(CellOrder::BottomUp, self.sand@);
            assert forall|i: int| 0 <= i < cells.len() implies start.grid.inside(
                (#[trigger] cells[i]).0 as int,
                cells[i].1 as int,
            ) by {
                assert(cells.contains(cells[i]));
                assert(self.sand@.contains(cells[i]));
                let k = self.sand@.index_of(cells[i]);
                assert(self.sand@[k] == cells[i]);
            }
            law_a_step_lists_its_changes(start, cells, cells.len());
        }
        let before: usize = self.staged.len();
        let mut active: Vec<(u32, u32)> = Vec::new();
        std::mem::swap(&mut active, &mut self.sand);
        self.sand = step_sand(&mut self.world, &mut self.fluids, active, &mut self.staged);
        self.cache.forget_all(&self.staged, before);
        proof {
            law_kept_chunks_are_current(
                cache,
                self.cache,
                start.grid,
                self.world@,
                self.staged@.skip(before as int),
            );
        }
    }

    /// A random update of a cell. A torch under water breaks and leaves
    /// `torch`.
    pub fn random_tick_cell(
        &mut self,
        roster: &Roster,
        x: u32,
        y: u32,
        choice: usize,
        tick: u64,
        torch: Option<InvSlot>,
        drops: &mut Vec<Drop>,
        out: &mut Vec<Outgoing>,
    ) -> (r: RandomTick)
        requires
            old(self).wf(),
            old(self).world@.inside(x as int, y as int),
        ensures
            final(self).wf(),
            final(self).world.width == old(self).world.width,
            final(self).world.height == old(self).world.height,
            final(self).saplings == old(self).saplings,
            r == random_tick(old(self).world@, x as int, y as int, choice as int),
            final(self)@ == old(self)@.randomly(x as int, y as int, r, tick),
            final(drops)@ == (if r is Snuffed {
                old(drops)@ + worth(torch, x as int, y as int)
            } else {
                old(drops)@
            }),
            said(final(out)@) == (if r is Snuffed {
                said(old(out)@) + change_news(
                    roster.players@,
                    (x, y, opened(old(self).world@.at(x as int, y as int))),
                )
            } else {
                said(old(out)@)
            }),
    {
        let ghost (before, cache) = (self.world@, self.cache);
        let r = random_tick_cell(&mut self.world, x, y, choice);
        match r {
            RandomTick::Dies => {
                self.staged.push((x, y));
                self.cache.forget(x, y);
                proof {
                    lemma_one_cell(cache, self.cache, before, self.world@, x, y);
                }
            },
            RandomTick::Spreads(c) => {
                self.staged.push(c);
                self.cache.forget(c.0, c.1);
                proof {
                    let around = greenable_around(before, x as int, y as int);
                    lemma_greenable_inside(
                        before,
                        x as int,
                        y as int,
                        choice as int % around.len() as int,
                    );
                    lemma_one_cell(cache, self.cache, before, self.world@, c.0, c.1);
                }
            },
            RandomTick::Snuffed => {
                let t = self.world.tile(x, y);
                self.change_tile(roster, x, y, t.opened(), tick, out);
                leave(drops, torch, x, y);
            },
            RandomTick::Nothing => {},
        }
        r
    }

    /// The saplings that are due at `tick`.
    pub fn due_saplings(&self, tick: u64) -> (due: Vec<(u32, u32)>)
        requires
            self.wf(),
        ensures
            due@.no_duplicates(),
            due@.len() <= self.saplings.size(),
            forall|c: (u32, u32)| #[trigger]
                due@.contains(c) <==> self.saplings@.dom().contains(c) && self.saplings@[c]
                    <= tick,
            all_inside(self.world@, due@),
    {
        let cells = self.saplings.cells();
        let mut due: Vec<(u32, u32)> = Vec::new();
        let mut i: usize = 0;
        assert(cells@.take(0) =~= Seq::<(u32, u32)>::empty());
        while i < cells.len()
            invariant
                i <= cells.len(),
                self.wf(),
                cells@.no_duplicates(),
                forall|c: (u32, u32)| #[trigger]
                    cells@.contains(c) <==> self.saplings@.dom().contains(c),
                due@.len() <= i,
                due@.no_duplicates(),
                forall|c: (u32, u32)| #[trigger]
                    due@.contains(c) <==> cells@.take(i as int).contains(c) && self.saplings@[c]
                        <= tick,
                all_inside(self.world@, due@),
            decreases cells.len() - i,
        {
            let c: (u32, u32) = cells[i];
            let ghost (d0, t0) = (due@, cells@.take(i as int));
            proof {
                assert(cells@.contains(cells@[i as int]));
                assert(cells@.take(i + 1) =~= t0.push(c));
                lemma_push_contains(t0, c);
                lemma_push_contains(d0, c);
                if t0.contains(c) {
                    let k = t0.index_of(c);
                    assert(cells@[k] == cells@[i as int]);
                }
            }
            if let Some(at) = self.saplings.get(c) {
                if tick >= at {
                    assert(!d0.contains(c));
                    due.push(c);
                    assert forall|a: int, b: int|
                        0 <= a < due@.len() && 0 <= b < due@.len() && a != b implies due@[a]
                        != due@[b] by {
                        assert(a < d0.len() ==> d0.contains(d0[a]));
                        assert(b < d0.len() ==> d0.contains(d0[b]));
                    }
                }
            }
            i = i + 1;
        }
        assert(cells@.take(i as int) =~= cells@);
        due
    }

    /// Lets one due sapling grow, if it can, to a tree of at most `rolled`
    /// segments. A sapling without room stays due.
    pub fn grow_sapling(&mut self, x: u32, y: u32, rolled: u32) -> (r: Growth)
        requires
            old(self).wf(),
            old(self).world@.inside(x as int, y as int),
            rolled >= 1,
        ensures
            final(self).wf(),
            final(self).world.width == old(self).world.width,
            final(self).world.height == old(self).world.height,
            r == growth(old(self).world@, x as int, y as int, rolled as int),
            sapling_grown(old(self)@, final(self)@, (x, y), r),
    {
        let r = grow_sapling(&mut self.world, x, y, rolled);
        match r {
            Growth::Lost => {
                self.saplings.remove((x, y));
            },
            Growth::Blocked => {},
            Growth::Grown(n) => {
                self.saplings.remove((x, y));
                proof {
                    lemma_growth_fits(old(self).world@, x as int, y as int, rolled as int);
                }
                let ghost grown = *self;
                let before: usize = self.staged.len();
                let mut i: u32 = 0;
                assert(self.staged@ =~= old(self).staged@ + column_up(x as int, y as int, 0));
                while i < n
                    invariant
                        i <= n,
                        n <= y + 1,
                        before == old(self).staged.len(),
                        *self == (Live { staged: self.staged, ..grown }),
                        self.staged@ == old(self).staged@ + column_up(
                            x as int,
                            y as int,
                            i as nat,
                        ),
                    decreases n - i,
                {
                    self.staged.push((x, y - i));
                    i = i + 1;
                    assert(self.staged@ =~= old(self).staged@ + column_up(
                        x as int,
                        y as int,
                        i as nat,
                    ));
                }
                let ghost cells = column_up(x as int, y as int, n as nat);
                assert(self.staged@.skip(before as int) =~= cells);
                self.cache.forget_all(&self.staged, before);
                proof {
                    broadcast use group_grid;

                    let (g, h) = (old(self).world@, self.world@);
                    let t = Tile { id: TileId::Air, ..g.at(x as int, y as int) };
                    let bare = g.put(x as int, y as int, t);
                    assert(cells[0] == (x, y));
                    assert forall|a: int, b: int|
                        g.inside(a, b) && !cells.contains((a as u32, b as u32)) implies #[trigger] h.at(
                        a,
                        b,
                    ) == g.at(a, b) by {
                        assert(bare.inside(a, b));
                        if a == x && y - n < b <= y {
                            assert(cells[y - b] == (a as u32, b as u32));
                        }
                    }
                    law_kept_chunks_are_current(old(self).cache, self.cache, g, h, cells);
                }
            },
        }
        r
    }

    /// The slow chores: puddles dry, and damage that is too old is forgotten.
    pub fn tidy_up(&mut self, tick: u64, reset_ticks: u64)
        requires
            old(self).wf(),
        ensures
            final(self).wf(),
            final(self).world.width == old(self).world.width,
            final(self).world.height == old(self).world.height,
            housekept(old(self)@, final(self)@, tick, reset_ticks),
    {
        let mut dried: Vec<(u32, u32)> = Vec::new();
        evaporate_puddles(&mut self.world, &mut self.puddles, tick, &mut dried);
        proof {
            assert forall|i: int| 0 <= i < dried@.len() implies (#[trigger] dried@[i]).0
                < u32::MAX by {
                assert(dried@.contains(dried@[i]));
            }
            assert(dried@.skip(0) =~= dried@);
        }
        mark_dried(&mut self.fluids, &dried, 0);
        self.cache.forget_all(&dried, 0);
        proof {
            law_kept_chunks_are_current(
                old(self).cache,
                self.cache,
                old(self).world@,
                self.world@,
                dried@,
            );
        }
        purge_stale_damage(&mut self.tile_damage, tick, reset_ticks);
        purge_stale_damage(&mut self.wall_damage, tick, reset_ticks);
        let ghost told = dried@;
        self.staged.append(&mut dried);
        assert(self.staged@.skip(old(self).staged@.len() as int) =~= told);
        assert(self.staged@ =~= old(self).staged@ + told);
    }

    /// Lets all saplings grow that are due, each with the height rolled for
    /// it.
    pub fn grow_saplings(&mut self, tick: u64, rolls: &Vec<u32>)
        requires
            old(self).wf(),
            rolls.len() >= old(self).saplings.size(),
            forall|i: int| 0 <= i < rolls.len() ==> #[trigger] rolls@[i] >= 1,
        ensures
            final(self).wf(),
            final(self).world.width == old(self).world.width,
            final(self).world.height == old(self).world.height,
            saplings_grown(old(self)@, final(self)@, tick, rolls@),
    {
        let due = self.due_saplings(tick);
        let ghost mut t: Seq<LiveView> = seq![self@];
        let mut i: usize = 0;
        while i < due.len()
            invariant
                i <= due.len(),
                due.len() <= rolls.len(),
                forall|k: int| 0 <= k < rolls.len() ==> #[trigger] rolls@[k] >= 1,
                self.wf(),
                self.world.width == old(self).world.width,
                self.world.height == old(self).world.height,
                all_inside(old(self).world@, due@),
                t.len() == i + 1,
                t[0] == old(self)@,
                t[i as int] == self@,
                forall|k: int|
                    0 <= k < i ==> sapling_grown(
                        #[trigger] t[k],
                        t[k + 1],
                        due@[k],
                        growth(t[k].grid, due@[k].0 as int, due@[k].1 as int, rolls@[k] as int),
                    ),
            decreases due.len() - i,
        {
            let c: (u32, u32) = due[i];
            assert(old(self).world@.inside(due@[i as int].0 as int, due@[i as int].1 as int));
            assert(rolls@[i as int] >= 1);
            let ghost before = t;
            let r = self.grow_sapling(c.0, c.1, rolls[i]);
            proof {
                t = t.push(self@);
                assert forall|k: int| 0 <= k < i + 1 implies sapling_grown(
                    #[trigger] t[k],
                    t[k + 1],
                    due@[k],
                    growth(t[k].grid, due@[k].0 as int, due@[k].1 as int, rolls@[k] as int),
                ) by {
                    if k < i {
                        assert(t[k] == before[k] && t[k + 1] == before[k + 1]);
                    }
                }
            }
            i = i + 1;
        }
        assert(saplings_tended(t, due@, rolls@));
        assert(all_due(old(self)@, tick, due@));
    }

    /// Random updates of the cells that were drawn, one after the other.
    pub fn random_ticks(
        &mut self,
        roster: &Roster,
        draws: &Vec<Draw>,
        tick: u64,
        torch: Option<InvSlot>,
        drops: &mut Vec<Drop>,
        out: &mut Vec<Outgoing>,
    )
        requires
            old(self).wf(),
            all_drawn_inside(old(self).world@, draws@),
        ensures
            final(self).wf(),
            final(self).world.width == old(self).world.width,
            final(self).world.height == old(self).world.height,
            final(self).saplings == old(self).saplings,
            (Wash { live: final(self)@, drops: final(drops)@, told: said(final(out)@) }) == (Wash {
                live: old(self)@,
                drops: old(drops)@,
                told: said(old(out)@),
            }).strikes(roster.players@, draws@, draws@.len(), torch, tick),
    {
        let ghost start = Wash { live: self@, drops: drops@, told: said(out@) };
        let mut i: usize = 0;
        while i < draws.len()
            invariant
                i <= draws.len(),
                self.wf(),
                self.world.width == old(self).world.width,
                self.world.height == old(self).world.height,
                self.saplings == old(self).saplings,
                all_drawn_inside(old(self).world@, draws@),
                (Wash { live: self@, drops: drops@, told: said(out@) }) == start.strikes(
                    roster.players@,
                    draws@,
                    i as nat,
                    torch,
                    tick,
                ),
            decreases draws.len() - i,
        {
            let d: Draw = draws[i];
            assert(old(self).world@.inside(draws@[i as int].x as int, draws@[i as int].y as int));
            let ghost now = Wash { live: self@, drops: drops@, told: said(out@) };
            let r = self.random_tick_cell(roster, d.x, d.y, d.choice, tick, torch, drops, out);
            assert((Wash { live: self@, drops: drops@, told: said(out@) }) =~= now.strike(
                roster.players@,
                draws@[i as int],
                torch,
                tick,
            ));
            i = i + 1;
        }
    }

    /// One tick of the living world: liquids, sand, random updates, and once
    /// in a while saplings, puddles and damage. A torch that goes out leaves
    /// `torch`.
    pub fn world_tick(
        &mut self,
        roster: &Roster,
        tick: u64,
        luck: &Luck,
        torch: Option<InvSlot>,
        reset_ticks: u64,
        drops: &mut Vec<Drop>,
        out: &mut Vec<Outgoing>,
    )
        requires
            old(self).wf(),
            all_drawn_inside(old(self).world@, luck.draws@),
            luck.draws@.len() == spec_random_budget(old(self).world@),
            luck.heights.len() >= old(self).saplings.size(),
            forall|i: int| 0 <= i < luck.heights.len() ==> #[trigger] luck.heights@[i] >= 1,
        ensures
            final(self).wf(),
            final(self).world.width == old(self).world.width,
            final(self).world.height == old(self).world.height,
            world_ticked(
                roster.players@,
                (Wash { live: old(self)@, drops: old(drops)@, told: said(old(out)@) }),
                (Wash { live: final(self)@, drops: final(drops)@, told: said(final(out)@) }),
                *luck,
                torch,
                tick,
                reset_ticks,
            ),
    {
        let ghost start = Wash { live: self@, drops: drops@, told: said(out@) };
        self.step_fluids(roster, tick, torch, drops, out);
        let ghost wet = Wash { live: self@, drops: drops@, told: said(out@) };
        self.step_sand();
        self.random_ticks(roster, &luck.draws, tick, torch, drops, out);
        let ghost struck = Wash { live: self@, drops: drops@, told: said(out@) };
        assert(struck == (Wash { live: wet.live.sand_stepped(), ..wet }).strikes(
            roster.players@,
            luck.draws@,
            luck.draws@.len(),
            torch,
            tick,
        ));
        let ghost mut tended = self@;
        if tick % HOUSEKEEPING_TICKS == 0 {
            self.grow_saplings(tick, &luck.heights);
            proof {
                tended = self@;
            }
            self.tidy_up(tick, reset_ticks);
        }
        assert(ticked_by(
            roster.players@,
            start,
            Wash { live: self@, drops: drops@, told: said(out@) },
            *luck,
            torch,
            tick,
            reset_ticks,
            wet,
            tended,
        ));
    }
}

/// Where one cell changed and its chunk was dropped, the kept chunks are
/// current.
proof fn lemma_one_cell(
    cache: ChunkCache,
    left: ChunkCache,
    before: Grid,
    after: Grid,
    x: u32,
    y: u32,
)
    requires
        cache.fresh(before),
        left.chunks@ == cache.chunks@.filter(apart(chunk_of(x, y))),
        before.wf(),
        before.width <= u32::MAX,
        before.height <= u32::MAX,
        before.inside(x as int, y as int),
        exists|t: Tile| after == #[trigger] before.put(x as int, y as int, t),
    ensures
        left.fresh(after),
{
    broadcast use group_grid;

    let cells = seq![(x, y)];
    let t = choose|t: Tile| after == #[trigger] before.put(x as int, y as int, t);
    assert(after.width == before.width && after.height == before.height) by {
        reveal(Grid::put);
    }
    lemma_forgotten_one(cache.chunks@, x, y);
    assert forall|a: int, b: int|
        before.inside(a, b) && !cells.contains((a as u32, b as u32)) implies #[trigger] after.at(
        a,
        b,
    ) == before.at(a, b) by {
        assert(cells[0] == (x, y));
    }
    law_kept_chunks_are_current(cache, left, before, after, cells);
}

/// A grown tree does not reach above the world.
proof fn lemma_growth_fits(g: Grid, x: int, y: int, rolled: int)
    requires
        g.inside(x, y),
        growth(g, x, y, rolled) is Grown,
        0 <= rolled <= u32::MAX,
    ensures
        growth(g, x, y, rolled)->Grown_0 <= y + 1,
{
    lemma_free_above_bound(g, x, y, TREE_HEIGHT_MAX as nat);
}

proof fn lemma_free_above_bound(g: Grid, x: int, y: int, limit: nat)
    requires
        y >= 0,
    ensures
        free_above(g, x, y, limit) <= y,
        free_above(g, x, y, limit) <= limit,
    decreases limit,
{
    if limit > 0 && g.vacant(x, y - 1) {
        lemma_free_above_bound(g, x, y - 1, (limit - 1) as nat);
    }
}

/// A changed tile is what it was changed to, and no other tile changes. The
/// chunk it lies in is kept no longer; liquids in its cell and beside it are
/// looked at again, so is sand there and above, and what was cracked is whole.
pub proof fn law_changes_wake_their_surroundings(
    v: LiveView,
    x: u32,
    y: u32,
    t: Tile,
    tick: u64,
    a: int,
    b: int,
)
    requires
        v.grid.wf(),
        v.grid.width <= u32::MAX,
        v.grid.height <= u32::MAX,
        v.grid.inside(x as int, y as int),
        v.grid.inside(a, b),
        t.wf(),
    ensures
        ({
            let n = v.change((x, y, t), tick);
            let near = (a == x && (b == y - 1 || b == y || b == y + 1)) || (b == y && (a == x - 1
                || a == x + 1));
            &&& n.grid.at(x as int, y as int) == t
            &&& (a, b) != (x as int, y as int) ==> n.grid.at(a, b) == v.grid.at(a, b)
            &&& near ==> n.queue.contains((a as u32, b as u32))
            &&& near ==> n.supports.contains((a as u32, b as u32))
            &&& t.id == TileId::Sand ==> n.sand.contains((x, y))
            &&& y > 0 && v.grid.at(x as int, y - 1).id == TileId::Sand ==> n.sand.contains(
                (x, (y - 1) as u32),
            )
            &&& !n.tile_damage.dom().contains((x, y)) && !n.wall_damage.dom().contains((x, y))
            &&& n.saplings == v.saplings && n.staged == v.staged && n.spawn == v.spawn
            &&& forall|i: int|
                0 <= i < n.kept.len() ==> (#[trigger] n.kept[i]).0 != (x / 64, y / 64)
        }),
{
    broadcast use group_grid;

    let g = v.grid.put(x as int, y as int, t);
    let n = v.change((x, y, t), tick);
    let (xi, yi) = (x as int, y as int);
    crate::sim::fluids::lemma_woken(g, v.queue, xi, yi);
    let near = (a == x && (b == y - 1 || b == y || b == y + 1)) || (b == y && (a == x - 1 || a == x
        + 1));
    assert(near ==> crate::sim::fluids::near(xi, yi, a, b));
    let q = woken(v.queue, g.width, g.height, xi, yi);
    assert(near ==> q.to_set().contains((a as u32, b as u32)));
    let s1 = with_sand(v.sand, g, xi, yi);
    lemma_with_sand(v.sand, g, xi, yi, xi, yi);
    lemma_with_sand(s1, g, xi, yi - 1, xi, yi);
    assert(g.at(xi, yi) == t);
    if y > 0 {
        assert(g.at(xi, yi - 1) == v.grid.at(xi, yi - 1));
    }
    let c0 = cell_if_inside(g, xi, yi);
    let c1 = cell_if_inside(g, xi - 1, yi);
    let c2 = cell_if_inside(g, xi + 1, yi);
    let c3 = cell_if_inside(g, xi, yi - 1);
    let c4 = cell_if_inside(g, xi, yi + 1);
    let s = v.supports + (c0 + c1 + c2 + c3 + c4);
    assert(n.supports == s);
    let base = v.supports.len() as int;
    if near {
        let what = (a as u32, b as u32);
        let k = if a == x && b == y {
            base
        } else if a == x - 1 {
            base + c0.len()
        } else if a == x + 1 {
            base + c0.len() + c1.len()
        } else if b == y - 1 {
            base + c0.len() + c1.len() + c2.len()
        } else {
            base + c0.len() + c1.len() + c2.len() + c3.len()
        };
        assert(s[k] == what);
    }
    let f = apart(chunk_of(x, y));
    assert forall|i: int| 0 <= i < n.kept.len() implies (#[trigger] n.kept[i]).0 != (
        x / 64,
        y / 64,
    ) by {
        broadcast use vstd::seq_lib::group_filter_ensures;

        assert(f(v.kept.filter(f)[i]));
    }
}

proof fn lemma_with_sand(sand: Seq<(u32, u32)>, g: Grid, x: int, y: int, a: int, b: int)
    requires
        g.width <= u32::MAX,
        g.height <= u32::MAX,
    ensures
        g.inside(x, y) && g.at(x, y).id == TileId::Sand ==> with_sand(sand, g, x, y).contains(
            (x as u32, y as u32),
        ),
        sand.contains((a as u32, b as u32)) ==> with_sand(sand, g, x, y).contains(
            (a as u32, b as u32),
        ),
{
    let c = (x as u32, y as u32);
    let after = with_cell(sand, c);
    if !sand.contains(c) {
        assert(after[sand.len() as int] == c);
    }
    if sand.contains((a as u32, b as u32)) {
        assert(after[sand.index_of((a as u32, b as u32))] == (a as u32, b as u32));
    }
}

/// Changes come one after the other: the last one to a cell counts.
pub proof fn law_the_last_change_counts(
    v: LiveView,
    edits: Seq<(u32, u32, Tile)>,
    e: (u32, u32, Tile),
    tick: u64,
)
    requires
        edited(v.grid, edits).wf(),
        edited(v.grid, edits).inside(e.0 as int, e.1 as int),
        v.changes(edits, tick).grid == edited(v.grid, edits),
    ensures
        v.changes(seq![], tick) == v,
        v.changes(edits.push(e), tick).grid.at(e.0 as int, e.1 as int) == e.2,
{
    broadcast use group_grid;

    assert(edits.push(e).drop_last() =~= edits);
}

/// Torches in water are drowned, and nothing else is; what a drowned torch is
/// worth falls where it stood.
pub proof fn law_water_drowns_torches(t: Tile, stack: Option<InvSlot>, x: int, y: int)
    ensures
        drowned(t) <==> t.id == TileId::Torch && t.liquid is Filled && t.liquid->kind
            == LiquidKind::Water,
        stack is Some ==> worth(stack, x, y).len() == 1 && worth(stack, x, y)[0].stack
            == stack->Some_0,
        stack is None ==> worth(stack, x, y).len() == 0,
{
}

/// Water flows on every second tick and lava on every fifth; the ground is
/// tended once a second.
pub proof fn law_liquids_flow_in_their_time(
    players: Seq<Player>,
    before: Wash,
    after: Wash,
    torch: Option<InvSlot>,
    tick: u64,
)
    requires
        fluids_stepped(players, before, after, torch, tick),
        tick % 2 != 0,
        tick % 5 != 0,
    ensures
        after == before,
        HOUSEKEEPING_TICKS == 60,
{
}

/// The saplings that are due are those whose time has come, each once; one
/// that grew or is gone is waited for no more, one without room still is.
pub proof fn law_saplings_grow_when_due(
    v: LiveView,
    after: LiveView,
    tick: u64,
    due: Seq<(u32, u32)>,
    c: (u32, u32),
    r: Growth,
)
    requires
        all_due(v, tick, due),
        sapling_grown(v, after, c, r),
    ensures
        due.contains(c) <==> v.saplings.dom().contains(c) && tick >= v.saplings[c],
        r is Blocked ==> after == v,
        !(r is Blocked) ==> !after.saplings.dom().contains(c),
        r is Lost ==> after.grid == v.grid,
{
}

/// Damage that has worn off is forgotten, other damage kept as it is.
pub proof fn law_worn_damage_is_forgotten(
    before: Map<(u32, u32), TileDamage>,
    after: Map<(u32, u32), TileDamage>,
    tick: u64,
    reset_ticks: u64,
    c: (u32, u32),
)
    requires
        purged(before, after, tick, reset_ticks),
    ensures
        after.dom().contains(c) ==> before.dom().contains(c) && after[c] == before[c],
        before.dom().contains(c) && tick <= before[c].last_hit_tick + reset_ticks
            ==> after.dom().contains(c),
        before.dom().contains(c) && tick > before[c].last_hit_tick + reset_ticks
            ==> !after.dom().contains(c),
{
}

/// Every tick the liquids flow, the sand falls and some cells get their turn; once a second,
/// besides, saplings grow, puddles dry and worn damage is forgotten.
pub proof fn law_the_world_is_kept_once_a_second(
    players: Seq<Player>,
    before: Wash,
    after: Wash,
    luck: Luck,
    torch: Option<InvSlot>,
    tick: u64,
    reset_ticks: u64,
    wet: Wash,
    tended: LiveView,
)
    requires
        ticked_by(players, before, after, luck, torch, tick, reset_ticks, wet, tended),
    ensures
        fluids_stepped(players, before, wet, torch, tick),
        tick % 60 != 0 ==> after == (Wash { live: wet.live.sand_stepped(), ..wet }).strikes(
            players,
            luck.draws@,
            luck.draws@.len(),
            torch,
            tick,
        ),
        tick % 60 == 0 ==> housekept(tended, after.live, tick, reset_ticks) && saplings_grown(
            (Wash { live: wet.live.sand_stepped(), ..wet }).strikes(
                players,
                luck.draws@,
                luck.draws@.len(),
                torch,
                tick,
            ).live,
            tended,
            tick,
            luck.heights@,
        ),
{
}

/// Keeping the world dries the puddles whose time is over, and nothing else changes in it; what is
/// no puddle any more is not remembered as one.
pub proof fn law_keeping_dries_puddles(
    before: LiveView,
    after: LiveView,
    tick: u64,
    reset_ticks: u64,
    a: int,
    b: int,
)
    requires
        housekept(before, after, tick, reset_ticks),
        before.grid.inside(a, b),
    ensures
        ({
            let c = (a as u32, b as u32);
            let over = before.puddles.dom().contains(c) && dries(
                before.grid,
                c,
                before.puddles[c],
                tick,
            );
            &&& after.grid.at(a, b).id == before.grid.at(a, b).id
            &&& after.grid.at(a, b).wall == before.grid.at(a, b).wall
            &&& over ==> after.grid.at(a, b).liquid is Empty && !after.puddles.dom().contains(c)
            &&& !over ==> after.grid.at(a, b) == before.grid.at(a, b)
            &&& after.saplings == before.saplings && after.sand == before.sand
        }),
{
}

/// What falls is visited from the bottom up, so that a pile moves as a whole, and what fell is
/// tried again in the next tick.
pub proof fn law_sand_is_visited_from_below(v: LiveView)
    ensures
        ({
            let start = SandFall {
                grid: v.grid,
                queue: v.queue,
                next: Seq::empty(),
                staged: v.staged,
            };
            let cells = CellOrder::BottomUp.sorted(v.sand);
            &&& v.sand_stepped().grid == start.visits(cells, cells.len()).grid
            &&& v.sand_stepped().sand == start.visits(cells, cells.len()).next
            &&& v.sand_stepped().supports == v.supports && v.sand_stepped().puddles == v.puddles
        }),
{
}

} // verus!
