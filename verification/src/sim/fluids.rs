//! The fluid automaton: water and lava flow down, level out sideways, and
//! harden to obsidian where they meet.
//!
//! The automaton is sparse: it visits only the cells of a queue, and a cell
//! stays queued only while its neighbourhood changes. Per visit of a liquid
//! cell:
//! 1. next to the other liquid, the lava cell turns to obsidian and the water
//!    cell loses one level;
//! 2. else the liquid flows into the open cell below until that is full;
//! 3. else one level moves to each side that is at least two levels lower.

use vstd::prelude::*;

use crate::grid::{
    group_grid, lemma_at_wf, lemma_index_distinct, lemma_index_inside, lemma_index_position, lemma_put_total,
    lemma_total_nonnegative, total, Grid, World,
};
use crate::sort::{
    count_distinct, distinct, lemma_distinct_bound, lemma_sorted_cells, sort_cells, CellOrder,
};
use crate::tile::{Liquid, LiquidKind, Tile, TileId, TileState, LIQUID_MAX_LEVEL};

verus! {

/// [`settle`] gives up after this many rounds.
pub const MAX_SETTLE_ROUNDS: u32 = 100_000;

// ---- The automaton ---------------------------------------------------------

/// `queue` with the cell `(x, y)` of a `width` by `height` world queued; cells
/// outside and cells already there change nothing.
pub open spec fn marked(
    queue: Seq<(u32, u32)>,
    width: int,
    height: int,
    x: int,
    y: int,
) -> Seq<(u32, u32)> {
    if 0 <= x < width && 0 <= y < height && !queue.contains((x as u32, y as u32)) {
        queue.push((x as u32, y as u32))
    } else {
        queue
    }
}

/// `queue` with `(x, y)` and its four neighbours queued.
pub open spec fn woken(
    queue: Seq<(u32, u32)>,
    width: int,
    height: int,
    x: int,
    y: int,
) -> Seq<(u32, u32)> {
    let q = marked(queue, width, height, x, y);
    let q = marked(q, width, height, x - 1, y);
    let q = marked(q, width, height, x + 1, y);
    let q = marked(q, width, height, x, y - 1);
    marked(q, width, height, x, y + 1)
}

/// Whether `(x, y)` holds the liquid that is not `kind`.
pub open spec fn opposes(g: Grid, kind: LiquidKind, x: int, y: int) -> bool {
    g.liquid(x, y).spec_kind() is Some && g.liquid(x, y).spec_kind() != Some(kind)
}

/// The first neighbour of a `kind` cell that holds the other liquid: left,
/// right, up, down.
pub open spec fn contact(g: Grid, kind: LiquidKind, x: int, y: int) -> Option<(int, int)> {
    if opposes(g, kind, x - 1, y) {
        Some((x - 1, y))
    } else if opposes(g, kind, x + 1, y) {
        Some((x + 1, y))
    } else if opposes(g, kind, x, y - 1) {
        Some((x, y - 1))
    } else if opposes(g, kind, x, y + 1) {
        Some((x, y + 1))
    } else {
        None
    }
}

/// The grid with `level` levels of `kind` at `(x, y)`, and none at level 0.
pub open spec fn with_level(g: Grid, x: int, y: int, kind: LiquidKind, level: int) -> Grid {
    g.put(x, y, g.at(x, y).with_liquid(Liquid::of(kind, level as u8)))
}

/// Lava at `lava` becomes obsidian, water at `water` loses a level.
pub open spec fn hardened(g: Grid, water: (int, int), lava: (int, int)) -> Grid {
    let stone = Tile {
        id: TileId::Obsidian,
        liquid: Liquid::Empty,
        state: TileState::spec_clear(),
        ..g.at(lava.0, lava.1)
    };
    let g1 = g.put(lava.0, lava.1, stone);
    let left = g1.at(water.0, water.1).liquid.spec_level();
    with_level(
        g1,
        water.0,
        water.1,
        LiquidKind::Water,
        if left == 0 {
            0
        } else {
            left - 1
        },
    )
}

/// Liquid at `(x, y)` can flow down.
pub open spec fn can_drop(g: Grid, kind: LiquidKind, x: int, y: int) -> bool {
    &&& g.inside(x, y + 1)
    &&& !g.solid(x, y + 1)
    &&& g.at(x, y + 1).liquid.amount(kind) < LIQUID_MAX_LEVEL
}

/// How much flows down: all of it, or what still fits below.
pub open spec fn drop_amount(g: Grid, kind: LiquidKind, x: int, y: int) -> int {
    let level = g.at(x, y).liquid.spec_level() as int;
    let room = LIQUID_MAX_LEVEL - g.at(x, y + 1).liquid.amount(kind);
    if level < room {
        level
    } else {
        room
    }
}

pub open spec fn dropped(g: Grid, kind: LiquidKind, x: int, y: int) -> Grid {
    let level = g.at(x, y).liquid.spec_level() as int;
    let below = g.at(x, y + 1).liquid.amount(kind);
    let moved = drop_amount(g, kind, x, y);
    with_level(with_level(g, x, y, kind, level - moved), x, y + 1, kind, below + moved)
}

/// Liquid at `(x, y)` can level out into `(nx, y)`.
pub open spec fn can_level(g: Grid, kind: LiquidKind, x: int, y: int, nx: int) -> bool {
    &&& g.inside(nx, y)
    &&& !g.solid(nx, y)
    &&& !opposes(g, kind, nx, y)
    &&& g.at(x, y).liquid.spec_level() >= g.at(nx, y).liquid.spec_level() + 2
}

pub open spec fn leveled(g: Grid, kind: LiquidKind, x: int, y: int, nx: int) -> Grid {
    if can_level(g, kind, x, y, nx) {
        let level = g.at(x, y).liquid.spec_level() as int;
        let other = g.at(nx, y).liquid.spec_level() as int;
        with_level(with_level(g, x, y, kind, level - 1), nx, y, kind, other + 1)
    } else {
        g
    }
}

pub open spec fn leveled_cells(g: Grid, kind: LiquidKind, x: int, y: int, nx: int) -> Seq<
    (u32, u32),
> {
    if can_level(g, kind, x, y, nx) {
        seq![(x as u32, y as u32), (nx as u32, y as u32)]
    } else {
        seq![]
    }
}

/// What one visit of a liquid cell does.
pub struct Update {
    pub grid: Grid,
    /// The cells it changed, in order.
    pub changed: Seq<(u32, u32)>,
    /// The water and the lava cell that met.
    pub met: Option<Meeting>,
}

/// A water cell next to a lava cell.
pub struct Meeting {
    pub water: (int, int),
    pub lava: (int, int),
}

/// One visit of the `kind` liquid at `(x, y)`.
pub open spec fn update(g: Grid, kind: LiquidKind, x: int, y: int) -> Update {
    match contact(g, kind, x, y) {
        Some(n) => {
            let (water, lava) = if kind == LiquidKind::Water {
                ((x, y), n)
            } else {
                (n, (x, y))
            };
            Update {
                grid: hardened(g, water, lava),
                changed: seq![
                    (lava.0 as u32, lava.1 as u32),
                    (water.0 as u32, water.1 as u32),
                ],
                met: Some(Meeting { water, lava }),
            }
        },
        None => if can_drop(g, kind, x, y) {
            Update {
                grid: dropped(g, kind, x, y),
                changed: seq![(x as u32, y as u32), (x as u32, (y + 1) as u32)],
                met: None,
            }
        } else {
            let g1 = leveled(g, kind, x, y, x - 1);
            Update {
                grid: leveled(g1, kind, x, y, x + 1),
                changed: leveled_cells(g, kind, x, y, x - 1) + leveled_cells(
                    g1,
                    kind,
                    x,
                    y,
                    x + 1,
                ),
                met: None,
            }
        },
    }
}

/// A visit changes cells of the world alone.
proof fn lemma_changes_inside(g: Grid, kind: LiquidKind, x: int, y: int)
    requires
        g.inside(x, y),
        g.width <= u32::MAX,
        g.height <= u32::MAX,
    ensures
        forall|k: int|
            0 <= k < update(g, kind, x, y).changed.len() ==> (#[trigger] update(
                g,
                kind,
                x,
                y,
            ).changed[k]).0 < g.width && update(g, kind, x, y).changed[k].1 < g.height,
{
    reveal(Grid::put);
}

/// A world in flow: its grid, the queued cells and the cells changed so far.
#[verifier::ext_equal]
pub struct Flow {
    pub grid: Grid,
    pub queue: Seq<(u32, u32)>,
    pub changed: Seq<(u32, u32)>,
}

impl Flow {
    pub open spec fn mark(self, x: int, y: int) -> Flow {
        Flow { queue: marked(self.queue, self.grid.width, self.grid.height, x, y), ..self }
    }

    pub open spec fn wake(self, x: int, y: int) -> Flow {
        Flow { queue: woken(self.queue, self.grid.width, self.grid.height, x, y), ..self }
    }

    /// The liquid at `(x, y)` is visited: the update happens, and whatever it
    /// touched is queued again.
    pub open spec fn touch(self, kind: LiquidKind, x: int, y: int) -> Flow {
        let u = update(self.grid, kind, x, y);
        let after = Flow { grid: u.grid, changed: self.changed + u.changed, ..self };
        if u.changed.len() == 0 {
            after
        } else {
            match u.met {
                Some(Meeting { water, lava }) => after.wake(water.0, water.1).wake(lava.0, lava.1).wake(x, y),
                None => after.wake(x, y),
            }
        }
    }

    /// One cell of a round: a cell without liquid is forgotten, one that is
    /// not due stays queued.
    pub open spec fn visit(self, cell: (u32, u32), update_water: bool, update_lava: bool) -> Flow {
        let (x, y) = (cell.0 as int, cell.1 as int);
        match self.grid.at(x, y).liquid.spec_kind() {
            None => self,
            Some(kind) => {
                let due = match kind {
                    LiquidKind::Water => update_water,
                    LiquidKind::Lava => update_lava,
                };
                if due {
                    self.touch(kind, x, y)
                } else {
                    self.mark(x, y)
                }
            },
        }
    }

    /// The first `n` of `cells`, visited in turn.
    pub open spec fn visits(
        self,
        cells: Seq<(u32, u32)>,
        n: nat,
        update_water: bool,
        update_lava: bool,
    ) -> Flow
        decreases n,
    {
        if n == 0 {
            self
        } else {
            self.visits(cells, (n - 1) as nat, update_water, update_lava).visit(
                cells[n - 1],
                update_water,
                update_lava,
            )
        }
    }

    /// One round: every queued cell once, bottom row first.
    pub open spec fn round(self, update_water: bool, update_lava: bool) -> Flow {
        let cells = CellOrder::BottomUp.sorted(self.queue);
        Flow { queue: seq![], ..self }.visits(cells, cells.len(), update_water, update_lava)
    }

    /// `n` rounds in which both liquids are due.
    pub open spec fn rounds(self, n: nat) -> Flow
        decreases n,
    {
        if n == 0 {
            self
        } else {
            Flow { changed: seq![], ..self.rounds((n - 1) as nat) }.round(true, true)
        }
    }
}

/// The settling takes `n` rounds: before each some cell was queued, and after
/// the last none is, unless the cap was reached.
pub open spec fn settles_in(start: Flow, n: nat) -> bool {
    &&& n <= MAX_SETTLE_ROUNDS
    &&& forall|k: nat| k < n ==> (#[trigger] start.rounds(k)).queue.len() > 0
    &&& n < MAX_SETTLE_ROUNDS ==> start.rounds(n).queue.len() == 0
}

/// It takes no other number of rounds.
pub proof fn lemma_settles_once(start: Flow, m: nat, n: nat)
    requires
        settles_in(start, m),
        settles_in(start, n),
    ensures
        m == n,
{
    if m < n {
        assert(start.rounds(m).queue.len() > 0);
    } else if n < m {
        assert(start.rounds(n).queue.len() > 0);
    }
}

/// A world with every liquid cell queued, row by row from the top.
pub open spec fn seeded(queue: Seq<(u32, u32)>, g: Grid, n: nat) -> Seq<(u32, u32)>
    decreases n,
{
    if n == 0 {
        queue
    } else {
        let q = seeded(queue, g, (n - 1) as nat);
        let (x, y) = ((n - 1) % g.width, (n - 1) / g.width);
        if g.at(x, y).liquid != Liquid::Empty {
            marked(q, g.width, g.height, x, y)
        } else {
            q
        }
    }
}

// ---- The simulator ---------------------------------------------------------

/// The queue of cells to visit over a world of fixed size.
pub struct FluidSim {
    width: u32,
    height: u32,
    /// Cells queued for the next round.
    active: Vec<(u32, u32)>,
    /// One flag per cell: whether it is queued.
    queued: Vec<bool>,
}

impl View for FluidSim {
    type V = Seq<(u32, u32)>;

    /// The queued cells in the order in which they came.
    closed spec fn view(&self) -> Seq<(u32, u32)> {
        self.active@
    }
}

impl FluidSim {
    pub closed spec fn spec_width(&self) -> u32 {
        self.width
    }

    pub closed spec fn spec_height(&self) -> u32 {
        self.height
    }

    spec fn area(&self) -> Grid {
        Grid { width: self.width as int, height: self.height as int, cells: Seq::empty() }
    }

    /// Every queued cell is inside, queued once, and flagged; no other cell is
    /// flagged.
    pub closed spec fn wf(&self) -> bool {
        &&& self.width * self.height <= u32::MAX
        &&& self.queued@.len() == self.width * self.height
        &&& self.active@.no_duplicates()
        &&& forall|i: int|
            0 <= i < self.active@.len() ==> self.area().inside(
                (#[trigger] self.active@[i]).0 as int,
                self.active@[i].1 as int,
            )
        &&& forall|x: int, y: int|
            self.area().inside(x, y) ==> (#[trigger] self.queued@[self.area().index(x, y)]
                <==> self.active@.contains((x as u32, y as u32)))
    }

    /// The simulator belongs to worlds of this size.
    pub open spec fn fits(&self, g: Grid) -> bool {
        &&& self.wf()
        &&& self.spec_width() == g.width
        &&& self.spec_height() == g.height
    }

    /// An idle simulator for `world`.
    pub fn new(world: &World) -> (sim: FluidSim)
        requires
            world.wf(),
        ensures
            sim.fits(world@),
            sim@ == Seq::<(u32, u32)>::empty(),
    {
        let n: usize = (world.width * world.height) as usize;
        let sim = FluidSim {
            width: world.width,
            height: world.height,
            active: Vec::new(),
            queued: vec![false; n],
        };
        proof {
            assert forall|x: int, y: int| sim.area().inside(x, y) implies !(
            #[trigger] sim.queued@[sim.area().index(x, y)]) by {
                lemma_index_inside(sim.area(), x, y);
            }
        }
        sim
    }

    /// Queues a cell; cells outside and cells already queued change nothing.
    pub fn mark(&mut self, x: u32, y: u32)
        requires
            old(self).wf(),
        ensures
            final(self).wf(),
            final(self).spec_width() == old(self).spec_width(),
            final(self).spec_height() == old(self).spec_height(),
            final(self)@ == marked(
                old(self)@,
                old(self).spec_width() as int,
                old(self).spec_height() as int,
                x as int,
                y as int,
            ),
    {
        if x >= self.width || y >= self.height {
            return;
        }
        proof {
            lemma_index_inside(self.area(), x as int, y as int);
        }
        assert(0 <= y * self.width <= y * self.width + x);
        let i: usize = (y * self.width + x) as usize;
        assert(i == self.area().index(x as int, y as int));
        if !self.queued[i] {
            let ghost before = *self;
            self.queued.set(i, true);
            self.active.push((x, y));
            proof {
                assert(!before.active@.contains((x, y)));
                assert forall|a: int, b: int| self.area().inside(a, b) implies (
                #[trigger] self.queued@[self.area().index(a, b)] <==> self.active@.contains(
                    (a as u32, b as u32),
                )) by {
                    lemma_index_inside(before.area(), a, b);
                    assert(before.queued@[before.area().index(a, b)]
                        <==> before.active@.contains((a as u32, b as u32)));
                    if (a, b) != (x as int, y as int) {
                        lemma_index_distinct(self.area(), x as int, y as int, a, b);
                        if before.active@.contains((a as u32, b as u32)) {
                            let k = before.active@.index_of((a as u32, b as u32));
                            assert(self.active@[k] == (a as u32, b as u32));
                        }
                    } else {
                        assert(self.active@[before.active@.len() as int] == (x, y));
                    }
                }
            }
        }
    }

    /// Queues a cell and its four neighbours.
    pub fn wake(&mut self, x: u32, y: u32)
        requires
            old(self).wf(),
            x < u32::MAX,
            y < u32::MAX,
        ensures
            final(self).wf(),
            final(self).spec_width() == old(self).spec_width(),
            final(self).spec_height() == old(self).spec_height(),
            final(self)@ == woken(
                old(self)@,
                old(self).spec_width() as int,
                old(self).spec_height() as int,
                x as int,
                y as int,
            ),
    {
        self.mark(x, y);
        self.mark(x.wrapping_sub(1), y);
        self.mark(x + 1, y);
        self.mark(x, y.wrapping_sub(1));
        self.mark(x, y + 1);
    }

    /// Queues every liquid cell of the world, row by row from the top.
    pub fn seed_all(&mut self, world: &World)
        requires
            world.wf(),
            old(self).fits(world@),
        ensures
            final(self).fits(world@),
            final(self)@ == seeded(old(self)@, world@, world@.cells.len()),
    {
        let ghost g = world@;
        let mut y: u32 = 0;
        while y < world.height
            invariant
                g == world@,
                world.wf(),
                y <= world.height,
                self.fits(g),
                self@ == seeded(old(self)@, g, (y * world.width) as nat),
            decreases world.height - y,
        {
            let mut x: u32 = 0;
            assert(0 <= y * world.width);
            while x < world.width
                invariant
                    g == world@,
                    world.wf(),
                    y < world.height,
                    x <= world.width,
                    0 <= y * world.width,
                    self.fits(g),
                    self@ == seeded(old(self)@, g, (y * world.width + x) as nat),
                decreases world.width - x,
            {
                proof {
                    let i = y * world.width + x;
                    let w = world.width as int;
                    vstd::arithmetic::div_mod::lemma_fundamental_div_mod_converse(
                        i,
                        w,
                        y as int,
                        x as int,
                    );
                }
                if world.tile(x, y).liquid.is_some() {
                    self.mark(x, y);
                }
                x = x + 1;
            }
            assert((y + 1) * world.width == y * world.width + world.width) by (nonlinear_arith);
            y = y + 1;
        }
        assert(world.height * world.width == world.width * world.height) by (nonlinear_arith);
    }

    /// Whether any cell is queued.
    pub fn is_active(&self) -> (b: bool)
        ensures
            b == (self@.len() > 0),
    {
        self.active.len() > 0
    }

    /// Takes the queued cells out, in visiting order.
    fn drain(&mut self) -> (cells: Vec<(u32, u32)>)
        requires
            old(self).wf(),
        ensures
            final(self).wf(),
            final(self)@ == Seq::<(u32, u32)>::empty(),
            final(self).spec_width() == old(self).spec_width(),
            final(self).spec_height() == old(self).spec_height(),
            cells@ == CellOrder::BottomUp.sorted(old(self)@),
            forall|i: int|
                0 <= i < cells@.len() ==> (#[trigger] cells@[i]).0 < old(self).spec_width()
                    && cells@[i].1 < old(self).spec_height(),
    {
        let mut taken: Vec<(u32, u32)> = Vec::new();
        taken.append(&mut self.active);
        assert(taken@ =~= old(self).active@);
        let cells = sort_cells(CellOrder::BottomUp, taken);
        proof {
            lemma_sorted_cells(CellOrder::BottomUp, old(self).active@);
            assert forall|i: int| 0 <= i < cells@.len() implies (#[trigger] cells@[i]).0
                < self.width && cells@[i].1 < self.height by {
                assert(cells@.contains(cells@[i]));
                assert(old(self).active@.contains(cells@[i]));
                let k = old(self).active@.index_of(cells@[i]);
                assert(old(self).active@[k] == cells@[i]);
            }
            assert forall|a: int, b: int|
                self.area().inside(a, b)
                    && #[trigger] self.queued@[self.area().index(a, b)] implies exists|k: int|
                0 <= k < cells@.len() && cells@[k] == (a as u32, b as u32) by {
                assert(old(self).area() == self.area());
                assert(cells@.contains((a as u32, b as u32)));
            }
        }
        let mut i: usize = 0;
        while i < cells.len()
            invariant
                i <= cells.len(),
                self.active@ == Seq::<(u32, u32)>::empty(),
                self.width == old(self).width,
                self.height == old(self).height,
                self.width * self.height <= u32::MAX,
                self.queued@.len() == self.width * self.height,
                forall|k: int|
                    0 <= k < cells@.len() ==> (#[trigger] cells@[k]).0 < self.width
                        && cells@[k].1 < self.height,
                forall|a: int, b: int|
                    self.area().inside(a, b)
                        && #[trigger] self.queued@[self.area().index(a, b)] ==> exists|k: int|
                        i <= k < cells@.len() && cells@[k] == (a as u32, b as u32),
            decreases cells.len() - i,
        {
            let (x, y) = cells[i];
            proof {
                lemma_index_inside(self.area(), x as int, y as int);
            }
            assert(0 <= y * self.width <= y * self.width + x);
            let ghost before = *self;
            self.queued.set((y * self.width + x) as usize, false);
            proof {
                assert forall|a: int, b: int|
                    self.area().inside(a, b)
                        && #[trigger] self.queued@[self.area().index(a, b)] implies exists|k: int|
                    i + 1 <= k < cells@.len() && cells@[k] == (a as u32, b as u32) by {
                    lemma_index_inside(self.area(), a, b);
                    assert(before.area() == self.area());
                    assert(self.area().index(a, b) != self.area().index(x as int, y as int));
                    assert(before.queued@[before.area().index(a, b)]);
                    let k = choose|k: int|
                        i <= k < cells@.len() && cells@[k] == (a as u32, b as u32);
                    assert(k != i);
                }
            }
            i = i + 1;
        }
        cells
    }

    /// Runs one round over the queue. A kind of liquid that is not to be
    /// updated stays queued. Changed cells are appended to `changed`, each
    /// time they change; returns how many cells changed.
    pub fn step(
        &mut self,
        world: &mut World,
        update_water: bool,
        update_lava: bool,
        changed: &mut Vec<(u32, u32)>,
    ) -> (n: u32)
        requires
            old(world).wf(),
            old(self).fits(old(world)@),
        ensures
            final(world).wf(),
            final(world).width == old(world).width,
            final(world).height == old(world).height,
            final(world).spawn == old(world).spawn,
            final(self).fits(final(world)@),
            ({
                let before = (Flow {
                    grid: old(world)@,
                    queue: old(self)@,
                    changed: old(changed)@,
                });
                let after = before.round(update_water, update_lava);
                &&& final(world)@ == after.grid
                &&& final(self)@ == after.queue
                &&& final(changed)@ == after.changed
            }),
            final(changed)@.take(old(changed)@.len() as int) == old(changed)@,
            n == distinct(final(changed)@.skip(old(changed)@.len() as int)),
    {
        let cells = self.drain();
        let before: usize = changed.len();
        let ghost start = Flow { grid: world@, queue: seq![], changed: changed@ };
        let mut i: usize = 0;
        while i < cells.len()
            invariant
                i <= cells.len(),
                world.wf(),
                world.spawn == old(world).spawn,
                world.width == old(world).width,
                world.height == old(world).height,
                self.fits(world@),
                before == old(changed).len() <= changed.len(),
                changed@.take(before as int) == old(changed)@,
                forall|k: int|
                    before <= k < changed.len() ==> (#[trigger] changed@[k]).0 < world.width
                        && changed@[k].1 < world.height,
                start == (Flow { grid: old(world)@, queue: seq![], changed: old(changed)@ }),
                forall|k: int|
                    0 <= k < cells@.len() ==> (#[trigger] cells@[k]).0 < world.width
                        && cells@[k].1 < world.height,
                (Flow { grid: world@, queue: self@, changed: changed@ }) == start.visits(
                    cells@,
                    i as nat,
                    update_water,
                    update_lava,
                ),
            decreases cells.len() - i,
        {
            let (x, y) = cells[i];
            let liquid = world.tile(x, y).liquid;
            let ghost now = Flow { grid: world@, queue: self@, changed: changed@ };
            match liquid {
                Liquid::Empty => {},
                Liquid::Filled { kind, level } => {
                    proof {
                        lemma_changes_inside(world@, kind, x as int, y as int);
                    }
                    let due: bool = match kind {
                        LiquidKind::Water => update_water,
                        LiquidKind::Lava => update_lava,
                    };
                    if !due {
                        self.mark(x, y);
                    } else if self.update_cell(world, x, y, kind, level, changed) {
                        self.wake(x, y);
                    }
                },
            }
            assert((Flow { grid: world@, queue: self@, changed: changed@ }) =~= now.visit(
                cells@[i as int],
                update_water,
                update_lava,
            ));
            proof {
                assert(changed@.take(before as int) =~= now.changed.take(before as int));
            }
            i = i + 1;
        }
        let mut fresh: Vec<(u32, u32)> = Vec::new();
        let mut j: usize = before;
        while j < changed.len()
            invariant
                before <= j <= changed.len(),
                fresh@ == changed@.subrange(before as int, j as int),
            decreases changed.len() - j,
        {
            fresh.push(changed[j]);
            j = j + 1;
            assert(changed@.subrange(before as int, j as int) =~= changed@.subrange(
                before as int,
                j - 1,
            ).push(changed@[j - 1]));
        }
        assert(fresh@ =~= changed@.skip(before as int));
        proof {
            lemma_distinct_bound(fresh@, world.width as int, world.height as int);
        }
        count_distinct(fresh) as u32
    }

    /// One visit of a liquid cell. Queues the neighbourhoods of two liquids
    /// that met; returns whether anything changed.
    fn update_cell(
        &mut self,
        world: &mut World,
        x: u32,
        y: u32,
        kind: LiquidKind,
        level: u8,
        changed: &mut Vec<(u32, u32)>,
    ) -> (moved: bool)
        requires
            old(world).wf(),
            old(self).fits(old(world)@),
            old(world)@.inside(x as int, y as int),
            old(world)@.at(x as int, y as int).liquid == (Liquid::Filled { kind, level }),
        ensures
            final(world).wf(),
            final(world).spawn == old(world).spawn,
            final(world).width == old(world).width,
            final(world).height == old(world).height,
            final(self).fits(final(world)@),
            ({
                let u = update(old(world)@, kind, x as int, y as int);
                let (w, h) = (old(world)@.width, old(world)@.height);
                &&& final(world)@ == u.grid
                &&& final(changed)@ == old(changed)@ + u.changed
                &&& moved == (u.changed.len() > 0)
                &&& final(self)@ == (match u.met {
                    Some(Meeting { water, lava }) => woken(
                        woken(old(self)@, w, h, water.0, water.1),
                        w,
                        h,
                        lava.0,
                        lava.1,
                    ),
                    None => old(self)@,
                })
            }),
    {
        let ghost g = world@;
        proof {
            lemma_at_wf(g, x as int, y as int);
        }
        let ghost (gx, gy) = (x as int, y as int);
        match self.find_contact(world, x, y, kind) {
            Some((nx, ny)) => {
                let (wx, wy, lx, ly): (u32, u32, u32, u32) = match kind {
                    LiquidKind::Water => (x, y, nx, ny),
                    LiquidKind::Lava => (nx, ny, x, y),
                };
                obsidianize(world, (wx, wy), (lx, ly), changed);
                self.wake(wx, wy);
                self.wake(lx, ly);
                return true;
            },
            None => {},
        }

        if y + 1 < world.height && !world.is_solid(x as i32, y as i32 + 1) {
            let below = world.tile(x, y + 1).liquid;
            let below_level: u8 = if below.holds(kind) {
                below.level()
            } else {
                0
            };
            if below_level < LIQUID_MAX_LEVEL {
                let room: u8 = LIQUID_MAX_LEVEL - below_level;
                let moved: u8 = if level < room {
                    level
                } else {
                    room
                };
                set_level(world, x, y, kind, level - moved);
                set_level(world, x, y + 1, kind, below_level + moved);
                changed.push((x, y));
                changed.push((x, y + 1));
                assert(changed@ =~= old(changed)@ + update(g, kind, gx, gy).changed);
                return true;
            }
        }
        assert(!can_drop(g, kind, gx, gy));
        let left = x > 0 && level_out(world, x, y, x - 1, kind, changed);
        let ghost g1 = world@;
        assert(g1 == leveled(g, kind, gx, gy, gx - 1));
        let right = x + 1 < world.width && level_out(world, x, y, x + 1, kind, changed);
        assert(changed@ =~= old(changed)@ + update(g, kind, gx, gy).changed);
        left || right
    }

    /// The first neighbour that holds the other liquid: left, right, up, down.
    fn find_contact(&self, world: &World, x: u32, y: u32, kind: LiquidKind) -> (n: Option<
        (u32, u32),
    >)
        requires
            world.wf(),
            world@.inside(x as int, y as int),
        ensures
            match n {
                Some((nx, ny)) => contact(world@, kind, x as int, y as int) == Some(
                    (nx as int, ny as int),
                ) && world@.inside(nx as int, ny as int),
                None => contact(world@, kind, x as int, y as int) is None,
            },
    {
        if x > 0 && holds_other(world, x - 1, y, kind) {
            Some((x - 1, y))
        } else if x + 1 < world.width && holds_other(world, x + 1, y, kind) {
            Some((x + 1, y))
        } else if y > 0 && holds_other(world, x, y - 1, kind) {
            Some((x, y - 1))
        } else if y + 1 < world.height && holds_other(world, x, y + 1, kind) {
            Some((x, y + 1))
        } else {
            None
        }
    }
}

/// Whether an inside cell holds the liquid that is not `kind`.
fn holds_other(world: &World, x: u32, y: u32, kind: LiquidKind) -> (b: bool)
    requires
        world.wf(),
        world@.inside(x as int, y as int),
    ensures
        b == opposes(world@, kind, x as int, y as int),
{
    let l = world.tile(x, y).liquid;
    l.is_some() && !l.holds(kind)
}

/// Moves one level sideways where that evens the levels out; returns whether
/// it did.
fn level_out(
    world: &mut World,
    x: u32,
    y: u32,
    nx: u32,
    kind: LiquidKind,
    changed: &mut Vec<(u32, u32)>,
) -> (moved: bool)
    requires
        old(world).wf(),
        old(world)@.inside(x as int, y as int),
        old(world)@.inside(nx as int, y as int),
        x != nx,
        old(world)@.at(x as int, y as int).liquid.spec_kind() == Some(kind),
    ensures
        final(world).wf(),
        final(world).spawn == old(world).spawn,
        final(world).width == old(world).width,
        final(world).height == old(world).height,
        final(world)@ == leveled(old(world)@, kind, x as int, y as int, nx as int),
        final(changed)@ == old(changed)@ + leveled_cells(
            old(world)@,
            kind,
            x as int,
            y as int,
            nx as int,
        ),
        moved == can_level(old(world)@, kind, x as int, y as int, nx as int),
        final(world)@.at(x as int, y as int).liquid.spec_kind() == Some(kind),
{
    broadcast use group_grid;

    if world.is_solid(nx as i32, y as i32) || holds_other(world, nx, y, kind) {
        assert(changed@ =~= old(changed)@ + seq![]);
        return false;
    }
    let level: u8 = world.tile(x, y).liquid.level();
    let n_level: u8 = world.tile(nx, y).liquid.level();
    if level >= n_level + 2 {
        set_level(world, x, y, kind, level - 1);
        set_level(world, nx, y, kind, n_level + 1);
        changed.push((x, y));
        changed.push((nx, y));
        assert(changed@ =~= old(changed)@ + seq![(x, y), (nx, y)]);
        true
    } else {
        assert(changed@ =~= old(changed)@ + seq![]);
        false
    }
}

/// The lava cell becomes obsidian, the water cell loses one level.
fn obsidianize(
    world: &mut World,
    water: (u32, u32),
    lava: (u32, u32),
    changed: &mut Vec<(u32, u32)>,
)
    requires
        old(world).wf(),
        old(world)@.inside(water.0 as int, water.1 as int),
        old(world)@.inside(lava.0 as int, lava.1 as int),
    ensures
        final(world).wf(),
        final(world).spawn == old(world).spawn,
        final(world).width == old(world).width,
        final(world).height == old(world).height,
        final(world)@ == hardened(
            old(world)@,
            (water.0 as int, water.1 as int),
            (lava.0 as int, lava.1 as int),
        ),
        final(changed)@ == old(changed)@ + seq![lava, water],
{
    broadcast use group_grid;

    let mut cell = world.tile(lava.0, lava.1);
    cell.id = TileId::Obsidian;
    cell.liquid = Liquid::Empty;
    cell.state = TileState::clear();
    world.set_tile(lava.0, lava.1, cell);

    let level: u8 = world.tile(water.0, water.1).liquid.level();
    set_level(world, water.0, water.1, LiquidKind::Water, level.saturating_sub(1));
    changed.push(lava);
    changed.push(water);
    assert(changed@ =~= old(changed)@ + seq![lava, water]);
}

/// Sets the liquid of a cell; level 0 is no liquid.
fn set_level(world: &mut World, x: u32, y: u32, kind: LiquidKind, level: u8)
    requires
        old(world).wf(),
        old(world)@.inside(x as int, y as int),
        level <= LIQUID_MAX_LEVEL,
    ensures
        final(world).wf(),
        final(world).spawn == old(world).spawn,
        final(world).width == old(world).width,
        final(world).height == old(world).height,
        final(world)@ == with_level(old(world)@, x as int, y as int, kind, level as int),
{
    let mut t = world.tile(x, y);
    t.liquid = if level == 0 {
        Liquid::Empty
    } else {
        Liquid::new(kind, level)
    };
    world.set_tile(x, y, t);
}

// ---- What a settled world is -----------------------------------------------

/// The liquid at `(x, y)` can move.
pub open spec fn flows(g: Grid, x: int, y: int) -> bool {
    match g.liquid(x, y).spec_kind() {
        None => false,
        Some(kind) => {
            ||| can_drop(g, kind, x, y)
            ||| can_level(g, kind, x, y, x - 1)
            ||| can_level(g, kind, x, y, x + 1)
        },
    }
}

/// `(x, y)` and its right neighbour hold different liquids.
pub open spec fn meets_right(g: Grid, x: int, y: int) -> bool {
    match g.liquid(x, y).spec_kind() {
        None => false,
        Some(kind) => opposes(g, kind, x + 1, y),
    }
}

/// `(x, y)` and the cell below hold different liquids.
pub open spec fn meets_below(g: Grid, x: int, y: int) -> bool {
    match g.liquid(x, y).spec_kind() {
        None => false,
        Some(kind) => opposes(g, kind, x, y + 1),
    }
}

/// Nothing can move, and nowhere do water and lava touch.
pub open spec fn settled(g: Grid) -> bool {
    forall|x: int, y: int|
        #![trigger g.liquid(x, y)]
        !flows(g, x, y) && !meets_right(g, x, y) && !meets_below(g, x, y)
}

/// Every liquid that can move is among `cells`, and of every two liquids that
/// touch at least one.
pub open spec fn covered(g: Grid, cells: Set<(u32, u32)>) -> bool {
    &&& forall|x: int, y: int| #[trigger]
        flows(g, x, y) ==> cells.contains((x as u32, y as u32))
    &&& forall|x: int, y: int| #[trigger]
        meets_right(g, x, y) ==> cells.contains((x as u32, y as u32)) || cells.contains(
            ((x + 1) as u32, y as u32),
        )
    &&& forall|x: int, y: int| #[trigger]
        meets_below(g, x, y) ==> cells.contains((x as u32, y as u32)) || cells.contains(
            (x as u32, (y + 1) as u32),
        )
}

/// `(a, b)` is `(x, y)` or one of its four neighbours.
pub open spec fn near(x: int, y: int, a: int, b: int) -> bool {
    ||| (a == x && b == y)
    ||| (a == x - 1 && b == y)
    ||| (a == x + 1 && b == y)
    ||| (a == x && b == y - 1)
    ||| (a == x && b == y + 1)
}

/// `cells` holds `(x, y)` and its neighbours, as far as they are inside.
pub open spec fn surrounds(g: Grid, cells: Set<(u32, u32)>, x: int, y: int) -> bool {
    forall|a: int, b: int|
        g.inside(a, b) && #[trigger] near(x, y, a, b) ==> cells.contains((a as u32, b as u32))
}

proof fn lemma_marked(queue: Seq<(u32, u32)>, width: int, height: int, x: int, y: int)
    ensures
        forall|c: (u32, u32)|
            queue.contains(c) ==> #[trigger] marked(queue, width, height, x, y).contains(c),
        0 <= x < width && 0 <= y < height ==> marked(queue, width, height, x, y).contains(
            (x as u32, y as u32),
        ),
{
    let q = marked(queue, width, height, x, y);
    assert forall|c: (u32, u32)| queue.contains(c) implies #[trigger] q.contains(c) by {
        let k = queue.index_of(c);
        assert(q[k] == c);
    }
    if 0 <= x < width && 0 <= y < height && !queue.contains((x as u32, y as u32)) {
        assert(q[queue.len() as int] == (x as u32, y as u32));
    }
}

/// Waking a cell keeps what is queued and queues the whole neighbourhood.
pub proof fn lemma_woken(g: Grid, queue: Seq<(u32, u32)>, x: int, y: int)
    ensures
        forall|c: (u32, u32)|
            queue.contains(c) ==> #[trigger] woken(queue, g.width, g.height, x, y).contains(c),
        surrounds(g, woken(queue, g.width, g.height, x, y).to_set(), x, y),
{
    let (w, h) = (g.width, g.height);
    lemma_marked(queue, w, h, x, y);
    let q1 = marked(queue, w, h, x, y);
    lemma_marked(q1, w, h, x - 1, y);
    let q2 = marked(q1, w, h, x - 1, y);
    lemma_marked(q2, w, h, x + 1, y);
    let q3 = marked(q2, w, h, x + 1, y);
    lemma_marked(q3, w, h, x, y - 1);
    let q4 = marked(q3, w, h, x, y - 1);
    lemma_marked(q4, w, h, x, y + 1);
}

/// What setting the liquid of a cell does to the grid.
proof fn lemma_with_level(g: Grid, x: int, y: int, kind: LiquidKind, level: int)
    requires
        g.wf(),
        g.inside(x, y),
        0 <= level <= LIQUID_MAX_LEVEL,
    ensures
        with_level(g, x, y, kind, level).wf(),
        with_level(g, x, y, kind, level).width == g.width,
        with_level(g, x, y, kind, level).height == g.height,
        with_level(g, x, y, kind, level).at(x, y) == g.at(x, y).with_liquid(
            Liquid::of(kind, level as u8),
        ),
        forall|a: int, b: int|
            g.inside(a, b) && (a, b) != (x, y) ==> #[trigger] with_level(
                g,
                x,
                y,
                kind,
                level,
            ).at(a, b) == g.at(a, b),
{
    broadcast use group_grid;

}

/// What hardening does to the grid.
proof fn lemma_hardened(g: Grid, water: (int, int), lava: (int, int))
    requires
        g.wf(),
        g.inside(water.0, water.1),
        g.inside(lava.0, lava.1),
        water != lava,
    ensures
        ({
            let h = hardened(g, water, lava);
            let left = g.at(water.0, water.1).liquid.spec_level();
            &&& h.wf()
            &&& h.width == g.width
            &&& h.height == g.height
            &&& h.at(lava.0, lava.1).id == TileId::Obsidian
            &&& h.at(lava.0, lava.1).liquid == Liquid::Empty
            &&& h.at(water.0, water.1) == g.at(water.0, water.1).with_liquid(
                Liquid::of(
                    LiquidKind::Water,
                    if left == 0 {
                        0
                    } else {
                        (left - 1) as u8
                    },
                ),
            )
            &&& forall|a: int, b: int|
                g.inside(a, b) && (a, b) != water && (a, b) != lava ==> #[trigger] h.at(a, b)
                    == g.at(a, b)
        }),
{
    broadcast use group_grid;

}

/// What flowing down does to the grid.
proof fn lemma_dropped(g: Grid, kind: LiquidKind, x: int, y: int)
    requires
        g.wf(),
        g.inside(x, y),
        g.at(x, y).liquid.spec_kind() == Some(kind),
        can_drop(g, kind, x, y),
    ensures
        ({
            let h = dropped(g, kind, x, y);
            let level = g.at(x, y).liquid.spec_level() as int;
            let below = g.at(x, y + 1).liquid.amount(kind);
            let moved = drop_amount(g, kind, x, y);
            &&& 1 <= moved <= level
            &&& below + moved <= LIQUID_MAX_LEVEL
            &&& h.wf()
            &&& h.width == g.width
            &&& h.height == g.height
            &&& h.at(x, y) == g.at(x, y).with_liquid(Liquid::of(kind, (level - moved) as u8))
            &&& h.at(x, y + 1) == g.at(x, y + 1).with_liquid(
                Liquid::of(kind, (below + moved) as u8),
            )
            &&& forall|a: int, b: int|
                g.inside(a, b) && (a, b) != (x, y) && (a, b) != (x, y + 1) ==> #[trigger] h.at(a, b)
                    == g.at(a, b)
        }),
{
    broadcast use group_grid;

    assert(g.at(x, y).wf());
    assert(g.at(x, y + 1).wf());
    let level = g.at(x, y).liquid.spec_level() as int;
    let below = g.at(x, y + 1).liquid.amount(kind);
    let moved = drop_amount(g, kind, x, y);
    lemma_with_level(g, x, y, kind, level - moved);
    let g1 = with_level(g, x, y, kind, level - moved);
    lemma_with_level(g1, x, y + 1, kind, below + moved);
    let h = dropped(g, kind, x, y);
    assert forall|a: int, b: int|
        g.inside(a, b) && (a, b) != (x, y) && (a, b) != (x, y + 1) implies #[trigger] h.at(a, b)
        == g.at(a, b) by {
        assert(g1.at(a, b) == g.at(a, b));
    }
}

/// What levelling out does to the grid.
proof fn lemma_leveled(g: Grid, kind: LiquidKind, x: int, y: int, nx: int)
    requires
        g.wf(),
        g.inside(x, y),
        nx != x,
        g.at(x, y).liquid.spec_kind() == Some(kind),
    ensures
        ({
            let h = leveled(g, kind, x, y, nx);
            let can = can_level(g, kind, x, y, nx);
            let level = g.at(x, y).liquid.spec_level() as int;
            let other = g.at(nx, y).liquid.spec_level() as int;
            &&& h.wf()
            &&& h.width == g.width
            &&& h.height == g.height
            &&& h.at(x, y).liquid.spec_kind() == Some(kind)
            &&& h.at(x, y) == (if can {
                g.at(x, y).with_liquid(Liquid::of(kind, (level - 1) as u8))
            } else {
                g.at(x, y)
            })
            &&& h.at(nx, y) == (if can {
                g.at(nx, y).with_liquid(Liquid::of(kind, (other + 1) as u8))
            } else {
                g.at(nx, y)
            })
            &&& forall|a: int, b: int|
                g.inside(a, b) && (a, b) != (x, y) && (a, b) != (nx, y) ==> #[trigger] h.at(a, b)
                    == g.at(a, b)
        }),
{
    broadcast use group_grid;

    if can_level(g, kind, x, y, nx) {
        assert(g.at(x, y).wf());
        assert(g.at(nx, y).wf());
        let level = g.at(x, y).liquid.spec_level() as int;
        let other = g.at(nx, y).liquid.spec_level() as int;
        lemma_with_level(g, x, y, kind, level - 1);
        let g1 = with_level(g, x, y, kind, level - 1);
        lemma_with_level(g1, nx, y, kind, other + 1);
        let h = leveled(g, kind, x, y, nx);
        assert forall|a: int, b: int|
            g.inside(a, b) && (a, b) != (x, y) && (a, b) != (nx, y) implies #[trigger] h.at(a, b)
            == g.at(a, b) by {
            assert(g1.at(a, b) == g.at(a, b));
        }
    }
}

/// `h` differs from `g` only near `(x, y)`, and wherever it does the cell is
/// among `after` together with the neighbours whose liquid could now move.
spec fn gentle(g: Grid, h: Grid, after: Set<(u32, u32)>) -> bool {
    &&& h.wf()
    &&& h.width == g.width
    &&& h.height == g.height
    // A changed cell is known.
    &&& forall|a: int, b: int|
        #![trigger h.at(a, b)]
        g.inside(a, b) && h.at(a, b) != g.at(a, b) ==> after.contains((a as u32, b as u32))
    // A changed cell with an unknown neighbour only grew: it stayed passable,
    // took more of the liquid it had or of some liquid where it had none.
    &&& forall|a: int, b: int|
        #![trigger h.at(a, b)]
        g.inside(a, b) && h.at(a, b) != g.at(a, b) && !surrounds(g, after, a, b) ==> {
            &&& h.at(a, b).solid() == g.at(a, b).solid()
            &&& h.at(a, b).liquid.spec_level() >= g.at(a, b).liquid.spec_level()
            &&& g.at(a, b).liquid == Liquid::Empty || g.at(a, b).liquid.spec_kind() == h.at(
                a,
                b,
            ).liquid.spec_kind()
        }
}

/// If every restless cell was known before, and a gentle change keeps all
/// known cells but perhaps some that rest now, every restless cell is known
/// after.
proof fn lemma_gentle_covers(
    g: Grid,
    h: Grid,
    x: int,
    y: int,
    before: Set<(u32, u32)>,
    after: Set<(u32, u32)>,
)
    requires
        g.wf(),
        g.width <= u32::MAX,
        g.height <= u32::MAX,
        gentle(g, h, after),
        covered(g, before),
        g.inside(x, y),
        after.contains((x as u32, y as u32)),
        forall|c: (u32, u32)|
            before.contains(c) && c != (x as u32, y as u32) ==> #[trigger] after.contains(c),
    ensures
        covered(h, after),
{
    assert forall|a: int, b: int| #[trigger] flows(h, a, b) implies after.contains(
        (a as u32, b as u32),
    ) by {
        if !after.contains((a as u32, b as u32)) {
            assert(g.inside(a, b));
            assert(h.at(a, b) == g.at(a, b));
            let kind = g.at(a, b).liquid.spec_kind()->Some_0;
            assert(near(a - 1, b, a, b));
            assert(near(a + 1, b, a, b));
            assert(near(a, b + 1, a, b));
            if can_drop(h, kind, a, b) {
                assert(!surrounds(g, after, a, b + 1));
                assert(can_drop(g, kind, a, b));
            }
            if can_level(h, kind, a, b, a - 1) {
                assert(!surrounds(g, after, a - 1, b));
                assert(can_level(g, kind, a, b, a - 1));
            }
            if can_level(h, kind, a, b, a + 1) {
                assert(!surrounds(g, after, a + 1, b));
                assert(can_level(g, kind, a, b, a + 1));
            }
            assert(flows(g, a, b));
        }
    }
    assert forall|a: int, b: int| #[trigger] meets_right(h, a, b) implies after.contains(
        (a as u32, b as u32),
    ) || after.contains(((a + 1) as u32, b as u32)) by {
        if !after.contains((a as u32, b as u32)) && !after.contains(((a + 1) as u32, b as u32)) {
            assert(h.at(a, b) == g.at(a, b));
            assert(h.at(a + 1, b) == g.at(a + 1, b));
            assert(meets_right(g, a, b));
        }
    }
    assert forall|a: int, b: int| #[trigger] meets_below(h, a, b) implies after.contains(
        (a as u32, b as u32),
    ) || after.contains((a as u32, (b + 1) as u32)) by {
        if !after.contains((a as u32, b as u32)) && !after.contains((a as u32, (b + 1) as u32)) {
            assert(h.at(a, b) == g.at(a, b));
            assert(h.at(a, b + 1) == g.at(a, b + 1));
            assert(meets_below(g, a, b));
        }
    }
}

/// An update leaves only cells near to it unsettled: if every restless cell
/// was known before and the touched neighbourhoods are added, every restless
/// cell is known after.
proof fn lemma_update_covers(
    g: Grid,
    kind: LiquidKind,
    x: int,
    y: int,
    before: Set<(u32, u32)>,
    after: Set<(u32, u32)>,
)
    requires
        g.wf(),
        g.width <= u32::MAX,
        g.height <= u32::MAX,
        g.inside(x, y),
        g.at(x, y).liquid.spec_kind() == Some(kind),
        covered(g, before),
        forall|c: (u32, u32)|
            before.contains(c) && c != (x as u32, y as u32) ==> #[trigger] after.contains(c),
        ({
            let u = update(g, kind, x, y);
            &&& u.changed.len() > 0 ==> surrounds(g, after, x, y)
            &&& match u.met {
                Some(Meeting { water, lava }) => surrounds(g, after, water.0, water.1)
                    && surrounds(g, after, lava.0, lava.1),
                None => true,
            }
        }),
    ensures
        covered(update(g, kind, x, y).grid, after),
{
    let u = update(g, kind, x, y);
    assert(near(x, y, x, y));
    match contact(g, kind, x, y) {
        Some(n) => {
            let (water, lava) = (u.met->Some_0.water, u.met->Some_0.lava);
            lemma_hardened(g, water, lava);
            assert(near(water.0, water.1, water.0, water.1));
            assert(near(lava.0, lava.1, lava.0, lava.1));
            lemma_gentle_covers(g, u.grid, x, y, before, after);
        },
        None => {
            if can_drop(g, kind, x, y) {
                lemma_dropped(g, kind, x, y);
                assert(near(x, y, x, y + 1));
                assert(!opposes(g, kind, x, y + 1));
                lemma_gentle_covers(g, u.grid, x, y, before, after);
            } else {
                let g1 = leveled(g, kind, x, y, x - 1);
                lemma_leveled(g, kind, x, y, x - 1);
                lemma_leveled(g1, kind, x, y, x + 1);
                if u.changed.len() > 0 {
                    assert(near(x, y, x - 1, y));
                    assert(near(x, y, x + 1, y));
                    assert(gentle(g, g1, after));
                    lemma_gentle_covers(g, g1, x, y, before, after);
                    assert(gentle(g1, u.grid, after)) by {
                        assert forall|a: int, b: int| surrounds(g1, after, a, b) == surrounds(
                            g,
                            after,
                            a,
                            b,
                        ) by {}
                    }
                    lemma_gentle_covers(g1, u.grid, x, y, after, after);
                } else {
                    assert(u.grid == g);
                    assert(!flows(g, x, y));
                    assert(!meets_right(g, x, y) && !meets_below(g, x, y));
                    assert(!meets_right(g, x - 1, y) && !meets_below(g, x, y - 1));
                    assert(covered(g, after));
                }
            }
        },
    }
}

impl Flow {
    /// A flow over a world of machine size: queued cells are inside.
    pub open spec fn wf(self) -> bool {
        &&& self.grid.wf()
        &&& self.grid.width <= u32::MAX
        &&& self.grid.height <= u32::MAX
        &&& inside_all(self.grid, self.queue)
    }

    /// Every restless cell is queued.
    pub open spec fn awake(self) -> bool {
        covered(self.grid, self.queue.to_set())
    }
}

pub open spec fn inside_all(g: Grid, cells: Seq<(u32, u32)>) -> bool {
    forall|i: int|
        0 <= i < cells.len() ==> g.inside((#[trigger] cells[i]).0 as int, cells[i].1 as int)
}

proof fn lemma_marked_inside(g: Grid, queue: Seq<(u32, u32)>, x: int, y: int)
    requires
        g.width <= u32::MAX,
        g.height <= u32::MAX,
        inside_all(g, queue),
    ensures
        inside_all(g, marked(queue, g.width, g.height, x, y)),
{
}

proof fn lemma_woken_inside(g: Grid, queue: Seq<(u32, u32)>, x: int, y: int)
    requires
        g.width <= u32::MAX,
        g.height <= u32::MAX,
        inside_all(g, queue),
    ensures
        inside_all(g, woken(queue, g.width, g.height, x, y)),
{
    let (w, h) = (g.width, g.height);
    lemma_marked_inside(g, queue, x, y);
    let q = marked(queue, w, h, x, y);
    lemma_marked_inside(g, q, x - 1, y);
    let q = marked(q, w, h, x - 1, y);
    lemma_marked_inside(g, q, x + 1, y);
    let q = marked(q, w, h, x + 1, y);
    lemma_marked_inside(g, q, x, y - 1);
    let q = marked(q, w, h, x, y - 1);
    lemma_marked_inside(g, q, x, y + 1);
}

/// An update keeps the world well-formed and of its size.
pub proof fn lemma_update_wf(g: Grid, kind: LiquidKind, x: int, y: int)
    requires
        g.wf(),
        g.inside(x, y),
        g.at(x, y).liquid.spec_kind() == Some(kind),
    ensures
        update(g, kind, x, y).grid.wf(),
        update(g, kind, x, y).grid.width == g.width,
        update(g, kind, x, y).grid.height == g.height,
{
    match contact(g, kind, x, y) {
        Some(n) => {
            let m = update(g, kind, x, y).met->Some_0;
            lemma_hardened(g, m.water, m.lava);
        },
        None => {
            if can_drop(g, kind, x, y) {
                lemma_dropped(g, kind, x, y);
            } else {
                lemma_leveled(g, kind, x, y, x - 1);
                lemma_leveled(leveled(g, kind, x, y, x - 1), kind, x, y, x + 1);
            }
        },
    }
}

/// Visiting one cell of `rest` keeps every restless cell either queued or
/// still to come.
proof fn lemma_visit_covers(
    f: Flow,
    cell: (u32, u32),
    rest: Set<(u32, u32)>,
    update_water: bool,
    update_lava: bool,
)
    requires
        f.wf(),
        f.grid.inside(cell.0 as int, cell.1 as int),
        covered(f.grid, f.queue.to_set().union(rest)),
    ensures
        ({
            let after = f.visit(cell, update_water, update_lava);
            &&& after.wf()
            &&& after.grid.width == f.grid.width
            &&& after.grid.height == f.grid.height
            &&& covered(after.grid, after.queue.to_set().union(rest.remove(cell)))
        }),
{
    broadcast use group_grid;

    let (x, y) = (cell.0 as int, cell.1 as int);
    let g = f.grid;
    let after = f.visit(cell, update_water, update_lava);
    let p = f.queue.to_set().union(rest);
    let p2 = after.queue.to_set().union(rest.remove(cell));
    match g.at(x, y).liquid.spec_kind() {
        None => {
            assert forall|a: int, b: int| #[trigger] flows(g, a, b) implies p2.contains(
                (a as u32, b as u32),
            ) by {
                assert(p.contains((a as u32, b as u32)));
            }
            assert forall|a: int, b: int| #[trigger] meets_right(g, a, b) implies p2.contains(
                (a as u32, b as u32),
            ) || p2.contains(((a + 1) as u32, b as u32)) by {
                assert(p.contains((a as u32, b as u32)) || p.contains(((a + 1) as u32, b as u32)));
            }
            assert forall|a: int, b: int| #[trigger] meets_below(g, a, b) implies p2.contains(
                (a as u32, b as u32),
            ) || p2.contains((a as u32, (b + 1) as u32)) by {
                assert(p.contains((a as u32, b as u32)) || p.contains((a as u32, (b + 1) as u32)));
            }
        },
        Some(kind) => {
            let due = match kind {
                LiquidKind::Water => update_water,
                LiquidKind::Lava => update_lava,
            };
            let (w, h) = (g.width, g.height);
            if due {
                let u = update(g, kind, x, y);
                lemma_update_wf(g, kind, x, y);
                let q = f.queue;
                if u.changed.len() > 0 {
                    match u.met {
                        Some(Meeting { water, lava }) => {
                            let q1 = woken(q, w, h, water.0, water.1);
                            let q2 = woken(q1, w, h, lava.0, lava.1);
                            lemma_woken(g, q, water.0, water.1);
                            lemma_woken_inside(g, q, water.0, water.1);
                            lemma_woken(g, q1, lava.0, lava.1);
                            lemma_woken_inside(g, q1, lava.0, lava.1);
                            lemma_woken(g, q2, x, y);
                            lemma_woken_inside(g, q2, x, y);
                        },
                        None => {
                            lemma_woken(g, q, x, y);
                            lemma_woken_inside(g, q, x, y);
                        },
                    }
                }
                assert forall|c: (u32, u32)| p.contains(c) && c != cell implies #[trigger] p2.contains(
                    c,
                ) by {}
                lemma_update_covers(g, kind, x, y, p, p2);
            } else {
                lemma_marked(f.queue, w, h, x, y);
                lemma_marked_inside(g, f.queue, x, y);
                assert forall|c: (u32, u32)| p.contains(c) implies #[trigger] p2.contains(c) by {}
                assert(covered(g, p2));
            }
        },
    }
}

proof fn lemma_visits_cover(
    f: Flow,
    cells: Seq<(u32, u32)>,
    n: nat,
    update_water: bool,
    update_lava: bool,
)
    requires
        f.wf(),
        inside_all(f.grid, cells),
        cells.no_duplicates(),
        n <= cells.len(),
        covered(f.grid, f.queue.to_set().union(cells.to_set())),
    ensures
        ({
            let after = f.visits(cells, n, update_water, update_lava);
            &&& after.wf()
            &&& after.grid.width == f.grid.width
            &&& after.grid.height == f.grid.height
            &&& covered(after.grid, after.queue.to_set().union(cells.skip(n as int).to_set()))
        }),
    decreases n,
{
    if n == 0 {
        assert(cells.skip(0) =~= cells);
    } else {
        let m = (n - 1) as nat;
        lemma_visits_cover(f, cells, m, update_water, update_lava);
        let mid = f.visits(cells, m, update_water, update_lava);
        let rest = cells.skip(m as int).to_set();
        lemma_visit_covers(mid, cells[m as int], rest, update_water, update_lava);
        assert(rest.remove(cells[m as int]) =~= cells.skip(n as int).to_set()) by {
            assert forall|c: (u32, u32)|
                rest.contains(c) && c != cells[m as int] implies cells.skip(n as int).contains(
                c,
            ) by {
                let k = cells.skip(m as int).index_of(c);
                assert(cells.skip(n as int)[k - 1] == c);
            }
            assert forall|c: (u32, u32)| cells.skip(n as int).contains(c) implies rest.contains(c)
                && c != cells[m as int] by {
                let k = cells.skip(n as int).index_of(c);
                assert(cells.skip(m as int)[k + 1] == c);
            }
        }
    }
}

/// A round keeps every restless cell queued, whichever liquids are due.
pub proof fn law_round_keeps_awake(f: Flow, update_water: bool, update_lava: bool)
    requires
        f.wf(),
        f.queue.no_duplicates(),
        f.awake(),
    ensures
        f.round(update_water, update_lava).wf(),
        f.round(update_water, update_lava).awake(),
        f.round(update_water, update_lava).grid.width == f.grid.width,
        f.round(update_water, update_lava).grid.height == f.grid.height,
{
    let cells = CellOrder::BottomUp.sorted(f.queue);
    lemma_sorted_cells(CellOrder::BottomUp, f.queue);
    let start = Flow { queue: seq![], ..f };
    assert(start.queue.to_set().union(cells.to_set()) =~= f.queue.to_set());
    assert forall|i: int| 0 <= i < cells.len() implies f.grid.inside(
        (#[trigger] cells[i]).0 as int,
        cells[i].1 as int,
    ) by {
        assert(cells.contains(cells[i]));
        assert(f.queue.contains(cells[i]));
        let k = f.queue.index_of(cells[i]);
        assert(f.queue[k] == cells[i]);
    }
    lemma_visits_cover(start, cells, cells.len(), update_water, update_lava);
    let after = f.round(update_water, update_lava);
    assert(after.queue.to_set().union(cells.skip(cells.len() as int).to_set())
        =~= after.queue.to_set());
}

/// An awake world with an empty queue is settled: nothing can move, and no
/// water touches lava.
pub proof fn law_idle_is_settled(f: Flow)
    requires
        f.awake(),
        f.queue.len() == 0,
    ensures
        settled(f.grid),
{
    assert forall|x: int, y: int| #![trigger f.grid.liquid(x, y)] true implies !flows(f.grid, x, y)
        && !meets_right(f.grid, x, y) && !meets_below(f.grid, x, y) by {
        if flows(f.grid, x, y) {
            assert(f.queue.to_set().contains((x as u32, y as u32)));
        }
        if meets_right(f.grid, x, y) {
        }
        if meets_below(f.grid, x, y) {
        }
    }
}

/// In a settled world a visit of any liquid changes nothing.
pub proof fn law_settled_is_fixed(g: Grid, kind: LiquidKind, x: int, y: int)
    requires
        g.wf(),
        settled(g),
        g.inside(x, y),
        g.at(x, y).liquid.spec_kind() == Some(kind),
    ensures
        update(g, kind, x, y).grid == g,
        update(g, kind, x, y).changed.len() == 0,
        update(g, kind, x, y).met is None,
{
    assert(g.liquid(x, y) == g.at(x, y).liquid);
    assert(!flows(g, x, y) && !meets_right(g, x, y) && !meets_below(g, x, y));
    if opposes(g, kind, x - 1, y) {
        assert(g.liquid(x - 1, y).spec_kind() is Some);
        assert(meets_right(g, x - 1, y));
    }
    if opposes(g, kind, x, y - 1) {
        assert(g.liquid(x, y - 1).spec_kind() is Some);
        assert(meets_below(g, x, y - 1));
    }
}

/// After any change of one tile the world is awake again once the cell and
/// its neighbours are queued.
pub proof fn law_wake_after_edit(f: Flow, x: int, y: int, t: Tile)
    requires
        f.wf(),
        f.awake(),
        f.grid.inside(x, y),
        t.wf(),
    ensures
        (Flow { grid: f.grid.put(x, y, t), ..f }).wake(x, y).awake(),
{
    broadcast use group_grid;

    let g = f.grid;
    let h = g.put(x, y, t);
    let p = f.queue.to_set();
    let q = woken(f.queue, g.width, g.height, x, y);
    lemma_woken(g, f.queue, x, y);
    let p2 = q.to_set();
    assert forall|c: (u32, u32)| p.contains(c) implies #[trigger] p2.contains(c) by {}
    assert forall|a: int, b: int| #[trigger] flows(h, a, b) implies p2.contains(
        (a as u32, b as u32),
    ) by {
        if !p2.contains((a as u32, b as u32)) {
            assert(g.inside(a, b));
            assert(!near(x, y, a, b));
            assert(flows(g, a, b));
        }
    }
    assert forall|a: int, b: int| #[trigger] meets_right(h, a, b) implies p2.contains(
        (a as u32, b as u32),
    ) || p2.contains(((a + 1) as u32, b as u32)) by {
        if !p2.contains((a as u32, b as u32)) {
            assert(g.inside(a, b));
            assert(!near(x, y, a, b));
            assert(meets_right(g, a, b));
        }
    }
    assert forall|a: int, b: int| #[trigger] meets_below(h, a, b) implies p2.contains(
        (a as u32, b as u32),
    ) || p2.contains((a as u32, (b + 1) as u32)) by {
        if !p2.contains((a as u32, b as u32)) {
            assert(g.inside(a, b));
            assert(!near(x, y, a, b));
            assert(meets_below(g, a, b));
        }
    }
}

// ---- Settling --------------------------------------------------------------

impl FluidSim {
    /// What a well-formed simulator promises of its queue.
    pub proof fn lemma_queue(&self)
        requires
            self.wf(),
        ensures
            self@.no_duplicates(),
            forall|i: int|
                0 <= i < self@.len() ==> (#[trigger] self@[i]).0 < self.spec_width() && self@[i].1
                    < self.spec_height(),
    {
    }
}

proof fn lemma_seeded(queue: Seq<(u32, u32)>, g: Grid, n: nat, x: int, y: int)
    requires
        g.wf(),
        n <= g.cells.len(),
        g.inside(x, y),
        g.at(x, y).liquid != Liquid::Empty,
        g.index(x, y) < n,
    ensures
        seeded(queue, g, n).contains((x as u32, y as u32)),
    decreases n,
{
    let m = (n - 1) as nat;
    lemma_index_position(g, m as int);
    let (a, b) = ((n - 1) % g.width, (n - 1) / g.width);
    lemma_marked(seeded(queue, g, m), g.width, g.height, a, b);
    if g.index(x, y) == m {
        if (a, b) != (x, y) {
            lemma_index_distinct(g, a, b, x, y);
        }
    } else {
        lemma_seeded(queue, g, m, x, y);
    }
}

/// With every liquid cell queued, every restless cell is.
pub proof fn law_seeded_is_awake(queue: Seq<(u32, u32)>, g: Grid)
    requires
        g.wf(),
    ensures
        covered(g, seeded(queue, g, g.cells.len()).to_set()),
{
    let q = seeded(queue, g, g.cells.len());
    assert forall|x: int, y: int| g.inside(x, y) && #[trigger] g.liquid(x, y).spec_kind() is Some
        implies q.contains((x as u32, y as u32)) by {
        lemma_index_inside(g, x, y);
        lemma_seeded(queue, g, g.cells.len(), x, y);
    }
    assert forall|x: int, y: int| #[trigger] flows(g, x, y) implies q.to_set().contains(
        (x as u32, y as u32),
    ) by {
        assert(g.liquid(x, y).spec_kind() is Some);
    }
    assert forall|x: int, y: int| #[trigger] meets_right(g, x, y) implies q.to_set().contains(
        (x as u32, y as u32),
    ) by {
        assert(g.liquid(x, y).spec_kind() is Some);
    }
    assert forall|x: int, y: int| #[trigger] meets_below(g, x, y) implies q.to_set().contains(
        (x as u32, y as u32),
    ) by {
        assert(g.liquid(x, y).spec_kind() is Some);
    }
}

/// `after` has the walls of `before`, and its foregrounds but for new
/// obsidian.
pub open spec fn only_hardens(before: Grid, after: Grid) -> bool {
    &&& after.width == before.width
    &&& after.height == before.height
    &&& forall|a: int, b: int|
        #![trigger after.at(a, b)]
        before.inside(a, b) ==> {
            &&& after.at(a, b).id == before.at(a, b).id || after.at(a, b).id == TileId::Obsidian
            &&& after.at(a, b).wall == before.at(a, b).wall
        }
}

proof fn lemma_only_hardens_twice(f: Grid, g: Grid, h: Grid)
    requires
        only_hardens(f, g),
        only_hardens(g, h),
    ensures
        only_hardens(f, h),
{
    assert forall|a: int, b: int|
        #![trigger h.at(a, b)]
        f.inside(a, b) implies (h.at(a, b).id == f.at(a, b).id || h.at(a, b).id == TileId::Obsidian)
        && h.at(a, b).wall == f.at(a, b).wall by {
        assert(g.inside(a, b));
        assert(g.at(a, b) == g.at(a, b));
    }
}

proof fn lemma_update_only_hardens(g: Grid, kind: LiquidKind, x: int, y: int)
    requires
        g.wf(),
        g.inside(x, y),
        g.at(x, y).liquid.spec_kind() == Some(kind),
    ensures
        only_hardens(g, update(g, kind, x, y).grid),
{
    match contact(g, kind, x, y) {
        Some(n) => {
            let m = update(g, kind, x, y).met->Some_0;
            lemma_hardened(g, m.water, m.lava);
            let h = hardened(g, m.water, m.lava);
            assert(h.at(m.lava.0, m.lava.1).wall == g.at(m.lava.0, m.lava.1).wall) by {
                broadcast use group_grid;

            }
            assert forall|a: int, b: int|
                #![trigger h.at(a, b)]
                g.inside(a, b) implies (h.at(a, b).id == g.at(a, b).id || h.at(a, b).id
                == TileId::Obsidian) && h.at(a, b).wall == g.at(a, b).wall by {
                if (a, b) != m.water && (a, b) != m.lava {
                    assert(h.at(a, b) == g.at(a, b));
                }
            }
        },
        None => {
            if can_drop(g, kind, x, y) {
                lemma_dropped(g, kind, x, y);
                let h = dropped(g, kind, x, y);
                assert forall|a: int, b: int|
                    #![trigger h.at(a, b)]
                    g.inside(a, b) implies h.at(a, b).id == g.at(a, b).id && h.at(a, b).wall
                    == g.at(a, b).wall by {
                    if (a, b) != (x, y) && (a, b) != (x, y + 1) {
                        assert(h.at(a, b) == g.at(a, b));
                    }
                }
            } else {
                lemma_leveled_only_hardens(g, kind, x, y, x - 1);
                let g1 = leveled(g, kind, x, y, x - 1);
                lemma_leveled(g, kind, x, y, x - 1);
                lemma_leveled_only_hardens(g1, kind, x, y, x + 1);
                lemma_only_hardens_twice(g, g1, leveled(g1, kind, x, y, x + 1));
            }
        },
    }
}

proof fn lemma_leveled_only_hardens(g: Grid, kind: LiquidKind, x: int, y: int, nx: int)
    requires
        g.wf(),
        g.inside(x, y),
        nx != x,
        g.at(x, y).liquid.spec_kind() == Some(kind),
    ensures
        only_hardens(g, leveled(g, kind, x, y, nx)),
{
    lemma_leveled(g, kind, x, y, nx);
    let h = leveled(g, kind, x, y, nx);
    assert forall|a: int, b: int|
        #![trigger h.at(a, b)]
        g.inside(a, b) implies h.at(a, b).id == g.at(a, b).id && h.at(a, b).wall == g.at(a, b).wall
        by {
        if (a, b) != (x, y) && (a, b) != (nx, y) {
            assert(h.at(a, b) == g.at(a, b));
        }
    }
}

proof fn lemma_visits_only_harden(
    f: Flow,
    cells: Seq<(u32, u32)>,
    n: nat,
    update_water: bool,
    update_lava: bool,
)
    requires
        f.grid.wf(),
        inside_all(f.grid, cells),
        n <= cells.len(),
    ensures
        f.visits(cells, n, update_water, update_lava).grid.wf(),
        only_hardens(f.grid, f.visits(cells, n, update_water, update_lava).grid),
    decreases n,
{
    if n > 0 {
        let m = (n - 1) as nat;
        lemma_visits_only_harden(f, cells, m, update_water, update_lava);
        let mid = f.visits(cells, m, update_water, update_lava);
        let (x, y) = (cells[m as int].0 as int, cells[m as int].1 as int);
        assert(f.grid.inside(x, y));
        match mid.grid.at(x, y).liquid.spec_kind() {
            None => {},
            Some(k) => {
                lemma_update_wf(mid.grid, k, x, y);
                lemma_update_only_hardens(mid.grid, k, x, y);
                lemma_only_hardens_twice(f.grid, mid.grid, update(mid.grid, k, x, y).grid);
            },
        }
    }
}

/// A round leaves every wall and every foreground as it is, but for lava that
/// hardens to obsidian.
pub proof fn law_round_only_hardens(f: Flow, update_water: bool, update_lava: bool)
    requires
        f.wf(),
    ensures
        only_hardens(f.grid, f.round(update_water, update_lava).grid),
{
    let cells = CellOrder::BottomUp.sorted(f.queue);
    lemma_sorted_cells(CellOrder::BottomUp, f.queue);
    assert forall|i: int| 0 <= i < cells.len() implies f.grid.inside(
        (#[trigger] cells[i]).0 as int,
        cells[i].1 as int,
    ) by {
        assert(cells.contains(cells[i]));
        assert(f.queue.contains(cells[i]));
        let k = f.queue.index_of(cells[i]);
        assert(f.queue[k] == cells[i]);
    }
    lemma_visits_only_harden(
        Flow { queue: seq![], ..f },
        cells,
        cells.len(),
        update_water,
        update_lava,
    );
}

/// The flow from which a world settles: every liquid cell queued.
pub open spec fn unsettled(g: Grid) -> Flow {
    Flow { grid: g, queue: seeded(seq![], g, g.cells.len()), changed: seq![] }
}

/// Runs rounds until no cell is queued, at most [`MAX_SETTLE_ROUNDS`]; returns
/// how many it took. If it finished below the cap, nothing can move any more
/// and no water touches lava.
pub fn settle(world: &mut World) -> (rounds: u32)
    requires
        old(world).wf(),
    ensures
        final(world).wf(),
        final(world).width == old(world).width,
        final(world).height == old(world).height,
        final(world).spawn == old(world).spawn,
        final(world)@ == unsettled(old(world)@).rounds(rounds as nat).grid,
        settles_in(unsettled(old(world)@), rounds as nat),
        rounds < 100_000 ==> settled(final(world)@),
        only_hardens(old(world)@, final(world)@),
{
    let mut sim = FluidSim::new(world);
    sim.seed_all(world);
    let mut changed: Vec<(u32, u32)> = Vec::new();
    let mut rounds: u32 = 0;
    let ghost start = unsettled(world@);
    proof {
        law_seeded_is_awake(seq![], world@);
    }
    while sim.is_active() && rounds < MAX_SETTLE_ROUNDS
        invariant
            world.wf(),
            world.width == old(world).width,
            world.height == old(world).height,
            world.spawn == old(world).spawn,
            sim.fits(world@),
            rounds <= MAX_SETTLE_ROUNDS,
            start == unsettled(old(world)@),
            start.rounds(rounds as nat).grid == world@,
            start.rounds(rounds as nat).queue == sim@,
            forall|k: nat| k < rounds ==> (#[trigger] start.rounds(k)).queue.len() > 0,
            covered(world@, sim@.to_set()),
            only_hardens(old(world)@, world@),
        decreases MAX_SETTLE_ROUNDS - rounds,
    {
        changed.clear();
        let ghost now = Flow { grid: world@, queue: sim@, changed: changed@ };
        proof {
            sim.lemma_queue();
            law_round_keeps_awake(now, true, true);
            law_round_only_hardens(now, true, true);
            lemma_only_hardens_twice(old(world)@, now.grid, now.round(true, true).grid);
            assert(now =~= Flow { changed: seq![], ..start.rounds(rounds as nat) });
        }
        sim.step(world, true, true, &mut changed);
        rounds = rounds + 1;
    }
    proof {
        if rounds < MAX_SETTLE_ROUNDS {
            law_idle_is_settled(Flow { grid: world@, queue: sim@, changed: seq![] });
        }
    }
    rounds
}

// ---- Volume ----------------------------------------------------------------

/// How many levels of `kind` the world holds.
pub open spec fn volume(g: Grid, kind: LiquidKind) -> int {
    total(g.cells, |i: int, t: Tile| t.liquid.amount(kind))
}

proof fn lemma_put_volume(g: Grid, kind: LiquidKind, x: int, y: int, t: Tile)
    requires
        g.wf(),
        g.inside(x, y),
    ensures
        volume(g.put(x, y, t), kind) == volume(g, kind) - g.at(x, y).liquid.amount(kind)
            + t.liquid.amount(kind),
{
    lemma_put_total(g, |i: int, t: Tile| t.liquid.amount(kind), x, y, t);
}

/// Changing the liquid of two cells changes a volume by the two differences.
proof fn lemma_two_levels(
    g: Grid,
    kind: LiquidKind,
    x: int,
    y: int,
    level: int,
    a: int,
    b: int,
    other: int,
    of: LiquidKind,
)
    requires
        g.wf(),
        g.inside(x, y),
        g.inside(a, b),
        (x, y) != (a, b),
        0 <= level <= LIQUID_MAX_LEVEL,
        0 <= other <= LIQUID_MAX_LEVEL,
    ensures
        ({
            let h = with_level(with_level(g, x, y, kind, level), a, b, kind, other);
            volume(h, of) == volume(g, of) - g.at(x, y).liquid.amount(of)
                - g.at(a, b).liquid.amount(of) + (if of == kind {
                level + other
            } else {
                0
            })
        }),
{
    broadcast use group_grid;

    let t = g.at(x, y).with_liquid(Liquid::of(kind, level as u8));
    let g1 = g.put(x, y, t);
    lemma_put_volume(g, of, x, y, t);
    let t2 = g1.at(a, b).with_liquid(Liquid::of(kind, other as u8));
    lemma_put_volume(g1, of, a, b, t2);
}

/// Flowing neither makes nor loses liquid. Where water and lava meet, one
/// level of water is spent and the lava of the hardened cell is gone.
pub proof fn law_update_volume(g: Grid, kind: LiquidKind, x: int, y: int)
    requires
        g.wf(),
        g.inside(x, y),
        g.at(x, y).liquid.spec_kind() == Some(kind),
    ensures
        ({
            let u = update(g, kind, x, y);
            match u.met {
                None => {
                    &&& volume(u.grid, LiquidKind::Water) == volume(g, LiquidKind::Water)
                    &&& volume(u.grid, LiquidKind::Lava) == volume(g, LiquidKind::Lava)
                },
                Some(Meeting { water, lava }) => {
                    &&& g.at(water.0, water.1).liquid.spec_kind() == Some(LiquidKind::Water)
                    &&& g.at(lava.0, lava.1).liquid.spec_kind() == Some(LiquidKind::Lava)
                    &&& u.grid.at(lava.0, lava.1).id == TileId::Obsidian
                    &&& u.grid.at(lava.0, lava.1).liquid == Liquid::Empty
                    &&& volume(u.grid, LiquidKind::Water) == volume(g, LiquidKind::Water) - 1
                    &&& volume(u.grid, LiquidKind::Lava) == volume(g, LiquidKind::Lava)
                        - g.at(lava.0, lava.1).liquid.spec_level()
                },
            }
        }),
{
    broadcast use group_grid;

    let u = update(g, kind, x, y);
    match u.met {
        Some(Meeting { water, lava }) => {
            let stone = Tile {
                id: TileId::Obsidian,
                liquid: Liquid::Empty,
                state: TileState::spec_clear(),
                ..g.at(lava.0, lava.1)
            };
            let g1 = g.put(lava.0, lava.1, stone);
            lemma_put_volume(g, LiquidKind::Water, lava.0, lava.1, stone);
            lemma_put_volume(g, LiquidKind::Lava, lava.0, lava.1, stone);
            let left = g1.at(water.0, water.1).liquid.spec_level();
            let t = g1.at(water.0, water.1).with_liquid(
                Liquid::of(LiquidKind::Water, (left - 1) as u8),
            );
            lemma_put_volume(g1, LiquidKind::Water, water.0, water.1, t);
            lemma_put_volume(g1, LiquidKind::Lava, water.0, water.1, t);
        },
        None => {
            if can_drop(g, kind, x, y) {
                let moved = drop_amount(g, kind, x, y);
                let level = g.at(x, y).liquid.spec_level() - moved;
                let below = g.at(x, y + 1).liquid.amount(kind) + moved;
                assert(!opposes(g, kind, x, y + 1));
                lemma_two_levels(g, kind, x, y, level, x, y + 1, below, LiquidKind::Water);
                lemma_two_levels(g, kind, x, y, level, x, y + 1, below, LiquidKind::Lava);
            } else {
                lemma_leveled_volume(g, kind, x, y, x - 1);
                let g1 = leveled(g, kind, x, y, x - 1);
                lemma_leveled_volume(g1, kind, x, y, x + 1);
            }
        },
    }
}

proof fn lemma_leveled_volume(g: Grid, kind: LiquidKind, x: int, y: int, nx: int)
    requires
        g.wf(),
        g.inside(x, y),
        nx != x,
        g.at(x, y).liquid.spec_kind() == Some(kind),
    ensures
        leveled(g, kind, x, y, nx).wf(),
        leveled(g, kind, x, y, nx).inside(x, y),
        leveled(g, kind, x, y, nx).at(x, y).liquid.spec_kind() == Some(kind),
        volume(leveled(g, kind, x, y, nx), LiquidKind::Water) == volume(g, LiquidKind::Water),
        volume(leveled(g, kind, x, y, nx), LiquidKind::Lava) == volume(g, LiquidKind::Lava),
{
    broadcast use group_grid;

    if can_level(g, kind, x, y, nx) {
        let level = g.at(x, y).liquid.spec_level() - 1;
        let other = g.at(nx, y).liquid.spec_level() + 1;
        lemma_two_levels(g, kind, x, y, level, nx, y, other, LiquidKind::Water);
        lemma_two_levels(g, kind, x, y, level, nx, y, other, LiquidKind::Lava);
    }
}

proof fn lemma_visits_volume(
    f: Flow,
    cells: Seq<(u32, u32)>,
    n: nat,
    update_water: bool,
    update_lava: bool,
    kind: LiquidKind,
)
    requires
        f.grid.wf(),
        inside_all(f.grid, cells),
        n <= cells.len(),
    ensures
        ({
            let after = f.visits(cells, n, update_water, update_lava);
            &&& after.grid.wf()
            &&& after.grid.width == f.grid.width
            &&& after.grid.height == f.grid.height
            &&& volume(after.grid, kind) <= volume(f.grid, kind)
        }),
    decreases n,
{
    broadcast use group_grid;

    if n > 0 {
        let m = (n - 1) as nat;
        lemma_visits_volume(f, cells, m, update_water, update_lava, kind);
        let mid = f.visits(cells, m, update_water, update_lava);
        let (x, y) = (cells[m as int].0 as int, cells[m as int].1 as int);
        match mid.grid.at(x, y).liquid.spec_kind() {
            None => {},
            Some(k) => {
                lemma_update_wf(mid.grid, k, x, y);
                law_update_volume(mid.grid, k, x, y);
            },
        }
    }
}

/// A round makes no liquid of either kind.
pub proof fn law_round_makes_no_liquid(
    f: Flow,
    update_water: bool,
    update_lava: bool,
    kind: LiquidKind,
)
    requires
        f.wf(),
    ensures
        volume(f.round(update_water, update_lava).grid, kind) <= volume(f.grid, kind),
{
    let cells = CellOrder::BottomUp.sorted(f.queue);
    lemma_sorted_cells(CellOrder::BottomUp, f.queue);
    assert forall|i: int| 0 <= i < cells.len() implies f.grid.inside(
        (#[trigger] cells[i]).0 as int,
        cells[i].1 as int,
    ) by {
        assert(cells.contains(cells[i]));
        assert(f.queue.contains(cells[i]));
        let k = f.queue.index_of(cells[i]);
        assert(f.queue[k] == cells[i]);
    }
    lemma_visits_volume(
        Flow { queue: seq![], ..f },
        cells,
        cells.len(),
        update_water,
        update_lava,
        kind,
    );
}

/// Obsidian cells of the world.
pub open spec fn stones(g: Grid) -> int {
    total(
        g.cells,
        |i: int, t: Tile|
            if t.id == TileId::Obsidian {
                1
            } else {
                0
            },
    )
}

/// Obsidian holds no liquid.
pub open spec fn stones_are_dry(g: Grid) -> bool {
    forall|a: int, b: int|
        g.inside(a, b) && (#[trigger] g.at(a, b)).id == TileId::Obsidian ==> g.at(a, b).liquid
            == Liquid::Empty
}

proof fn lemma_put_stones(g: Grid, x: int, y: int, t: Tile)
    requires
        g.wf(),
        g.inside(x, y),
    ensures
        stones(g.put(x, y, t)) == stones(g) - (if g.at(x, y).id == TileId::Obsidian {
            1int
        } else {
            0
        }) + (if t.id == TileId::Obsidian {
            1int
        } else {
            0
        }),
{
    lemma_put_total(
        g,
        |i: int, t: Tile|
            if t.id == TileId::Obsidian {
                1
            } else {
                0
            },
        x,
        y,
        t,
    );
}

proof fn lemma_leveled_stones(g: Grid, kind: LiquidKind, x: int, y: int, nx: int)
    requires
        g.wf(),
        g.inside(x, y),
        nx != x,
        g.at(x, y).liquid.spec_kind() == Some(kind),
        stones_are_dry(g),
    ensures
        stones_are_dry(leveled(g, kind, x, y, nx)),
        stones(leveled(g, kind, x, y, nx)) == stones(g),
{
    broadcast use group_grid;

    let h = leveled(g, kind, x, y, nx);
    if can_level(g, kind, x, y, nx) {
        let level = g.at(x, y).liquid.spec_level() as int;
        let other = g.at(nx, y).liquid.spec_level() as int;
        let t = g.at(x, y).with_liquid(Liquid::of(kind, (level - 1) as u8));
        lemma_put_stones(g, x, y, t);
        let g1 = g.put(x, y, t);
        lemma_put_stones(g1, nx, y, g1.at(nx, y).with_liquid(Liquid::of(kind, (other + 1) as u8)));
        assert forall|a: int, b: int|
            h.inside(a, b) && (#[trigger] h.at(a, b)).id == TileId::Obsidian implies h.at(
            a,
            b,
        ).liquid == Liquid::Empty by {
            assert(g.inside(a, b));
            assert(g.at(a, b).id == TileId::Obsidian);
        }
    }
}

/// A visit makes one stone where water and lava meet, and else none.
proof fn lemma_update_stones(g: Grid, kind: LiquidKind, x: int, y: int)
    requires
        g.wf(),
        g.inside(x, y),
        g.at(x, y).liquid.spec_kind() == Some(kind),
        stones_are_dry(g),
    ensures
        ({
            let u = update(g, kind, x, y);
            &&& stones_are_dry(u.grid)
            &&& stones(u.grid) == stones(g) + (if u.met is Some {
                1int
            } else {
                0
            })
        }),
{
    broadcast use group_grid;

    let u = update(g, kind, x, y);
    match u.met {
        Some(Meeting { water, lava }) => {
            let stone = Tile {
                id: TileId::Obsidian,
                liquid: Liquid::Empty,
                state: TileState::spec_clear(),
                ..g.at(lava.0, lava.1)
            };
            let g1 = g.put(lava.0, lava.1, stone);
            lemma_put_stones(g, lava.0, lava.1, stone);
            let left = g1.at(water.0, water.1).liquid.spec_level();
            assert(g.at(lava.0, lava.1).liquid.spec_kind() == Some(LiquidKind::Lava));
            assert(g.at(lava.0, lava.1).id != TileId::Obsidian);
            let t = g1.at(water.0, water.1).with_liquid(
                Liquid::of(
                    LiquidKind::Water,
                    (if left == 0 {
                        0
                    } else {
                        left - 1
                    }) as u8,
                ),
            );
            lemma_put_stones(g1, water.0, water.1, t);
            assert forall|a: int, b: int|
                u.grid.inside(a, b) && (#[trigger] u.grid.at(a, b)).id
                    == TileId::Obsidian implies u.grid.at(a, b).liquid == Liquid::Empty by {
                assert(g.inside(a, b));
                assert(g.at(water.0, water.1).liquid.spec_kind() == Some(LiquidKind::Water));
                assert(g.at(water.0, water.1).id != TileId::Obsidian);
                if (a, b) != lava {
                    assert(g.at(a, b).id == TileId::Obsidian);
                }
            }
        },
        None => {
            if can_drop(g, kind, x, y) {
                let moved = drop_amount(g, kind, x, y);
                let level = g.at(x, y).liquid.spec_level() - moved;
                let below = g.at(x, y + 1).liquid.amount(kind) + moved;
                let t = g.at(x, y).with_liquid(Liquid::of(kind, level as u8));
                lemma_put_stones(g, x, y, t);
                let g1 = g.put(x, y, t);
                lemma_put_stones(
                    g1,
                    x,
                    y + 1,
                    g1.at(x, y + 1).with_liquid(Liquid::of(kind, below as u8)),
                );
                assert forall|a: int, b: int|
                    u.grid.inside(a, b) && (#[trigger] u.grid.at(a, b)).id
                        == TileId::Obsidian implies u.grid.at(a, b).liquid == Liquid::Empty by {
                    assert(g.inside(a, b));
                    assert(g.at(a, b).id == TileId::Obsidian);
                }
            } else {
                lemma_leveled_stones(g, kind, x, y, x - 1);
                lemma_leveled_volume(g, kind, x, y, x - 1);
                let g1 = leveled(g, kind, x, y, x - 1);
                lemma_leveled_stones(g1, kind, x, y, x + 1);
            }
        },
    }
}

proof fn lemma_visits_stones(
    f: Flow,
    cells: Seq<(u32, u32)>,
    n: nat,
    update_water: bool,
    update_lava: bool,
)
    requires
        f.grid.wf(),
        stones_are_dry(f.grid),
        inside_all(f.grid, cells),
        n <= cells.len(),
    ensures
        ({
            let after = f.visits(cells, n, update_water, update_lava).grid;
            &&& after.wf()
            &&& after.width == f.grid.width
            &&& after.height == f.grid.height
            &&& stones_are_dry(after)
            &&& stones(after) >= stones(f.grid)
            &&& volume(after, LiquidKind::Water) + stones(after) == volume(
                f.grid,
                LiquidKind::Water,
            ) + stones(f.grid)
            &&& volume(after, LiquidKind::Lava) <= volume(f.grid, LiquidKind::Lava)
            &&& stones(after) == stones(f.grid) ==> volume(after, LiquidKind::Lava) == volume(
                f.grid,
                LiquidKind::Lava,
            )
        }),
    decreases n,
{
    broadcast use group_grid;

    if n > 0 {
        let m = (n - 1) as nat;
        lemma_visits_stones(f, cells, m, update_water, update_lava);
        let mid = f.visits(cells, m, update_water, update_lava);
        let (x, y) = (cells[m as int].0 as int, cells[m as int].1 as int);
        match mid.grid.at(x, y).liquid.spec_kind() {
            None => {},
            Some(k) => {
                lemma_update_wf(mid.grid, k, x, y);
                law_update_volume(mid.grid, k, x, y);
                lemma_update_stones(mid.grid, k, x, y);
            },
        }
    }
}

/// A whole round spends exactly one level of water for each new obsidian cell
/// and makes no liquid; while nothing hardens, no lava is lost either.
/// Obsidian stays dry, no other foreground changes, and every level stays
/// within its bounds.
pub proof fn law_water_turns_to_stone(f: Flow, update_water: bool, update_lava: bool)
    requires
        f.wf(),
        stones_are_dry(f.grid),
    ensures
        ({
            let after = f.round(update_water, update_lava).grid;
            let made = stones(after) - stones(f.grid);
            &&& made >= 0
            &&& volume(after, LiquidKind::Water) == volume(f.grid, LiquidKind::Water) - made
            &&& volume(after, LiquidKind::Lava) <= volume(f.grid, LiquidKind::Lava)
            &&& made == 0 ==> volume(after, LiquidKind::Lava) == volume(f.grid, LiquidKind::Lava)
            &&& stones_are_dry(after)
            &&& only_hardens(f.grid, after)
            &&& after.wf()
        }),
{
    let cells = CellOrder::BottomUp.sorted(f.queue);
    lemma_round_cells(f);
    law_round_only_hardens(f, update_water, update_lava);
    lemma_visits_stones(
        Flow { queue: seq![], ..f },
        cells,
        cells.len(),
        update_water,
        update_lava,
    );
}

/// The cells of a round lie inside.
proof fn lemma_round_cells(f: Flow)
    requires
        f.wf(),
    ensures
        inside_all(f.grid, CellOrder::BottomUp.sorted(f.queue)),
{
    let cells = CellOrder::BottomUp.sorted(f.queue);
    lemma_sorted_cells(CellOrder::BottomUp, f.queue);
    assert forall|i: int| 0 <= i < cells.len() implies f.grid.inside(
        (#[trigger] cells[i]).0 as int,
        cells[i].1 as int,
    ) by {
        assert(cells.contains(cells[i]));
        assert(f.queue.contains(cells[i]));
        let k = f.queue.index_of(cells[i]);
        assert(f.queue[k] == cells[i]);
    }
}

// ---- What a round touches --------------------------------------------------

/// `after` differs from `before` in the listed cells at most.
pub open spec fn differs_within(before: Grid, after: Grid, cells: Seq<(u32, u32)>) -> bool {
    &&& after.width == before.width
    &&& after.height == before.height
    &&& forall|a: int, b: int|
        before.inside(a, b) && !cells.contains((a as u32, b as u32)) ==> #[trigger] after.at(a, b)
            == before.at(a, b)
}

proof fn lemma_two_listed(
    s: Seq<(u32, u32)>,
    c: (u32, u32),
    d: (u32, u32),
    t: Seq<(u32, u32)>,
)
    requires
        t == s + seq![c, d],
    ensures
        t.contains(c),
        t.contains(d),
        forall|e: (u32, u32)| s.contains(e) ==> #[trigger] t.contains(e),
{
    assert(t[s.len() as int] == c);
    assert(t[s.len() as int + 1] == d);
    assert forall|e: (u32, u32)| s.contains(e) implies #[trigger] t.contains(e) by {
        let k = s.index_of(e);
        assert(t[k] == e);
    }
}

proof fn lemma_leveled_within(
    g: Grid,
    kind: LiquidKind,
    x: int,
    y: int,
    nx: int,
    first: Grid,
    s: Seq<(u32, u32)>,
)
    requires
        g.wf(),
        g.inside(x, y),
        nx != x,
        g.at(x, y).liquid.spec_kind() == Some(kind),
        differs_within(first, g, s),
    ensures
        differs_within(
            first,
            leveled(g, kind, x, y, nx),
            s + leveled_cells(g, kind, x, y, nx),
        ),
{
    broadcast use group_grid;

    let h = leveled(g, kind, x, y, nx);
    if can_level(g, kind, x, y, nx) {
        let (c, d) = ((x as u32, y as u32), (nx as u32, y as u32));
        lemma_two_listed(s, c, d, s + seq![c, d]);
        let t = s + seq![c, d];
        assert forall|a: int, b: int| first.inside(a, b) && !t.contains((a as u32, b as u32)) implies
            #[trigger] h.at(a, b) == first.at(a, b) by {
            assert(g.at(a, b) == first.at(a, b));
            assert(g.inside(a, b));
        }
    } else {
        assert(s + leveled_cells(g, kind, x, y, nx) =~= s);
    }
}

/// A visit lists every cell that it changes.
proof fn lemma_update_within(
    g: Grid,
    kind: LiquidKind,
    x: int,
    y: int,
    first: Grid,
    s: Seq<(u32, u32)>,
)
    requires
        g.wf(),
        g.inside(x, y),
        g.at(x, y).liquid.spec_kind() == Some(kind),
        differs_within(first, g, s),
    ensures
        differs_within(first, update(g, kind, x, y).grid, s + update(g, kind, x, y).changed),
{
    broadcast use group_grid;

    let u = update(g, kind, x, y);
    match u.met {
        Some(Meeting { water, lava }) => {
            let (c, d) = ((lava.0 as u32, lava.1 as u32), (water.0 as u32, water.1 as u32));
            lemma_two_listed(s, c, d, s + seq![c, d]);
            let t = s + seq![c, d];
            assert forall|a: int, b: int|
                first.inside(a, b) && !t.contains((a as u32, b as u32)) implies #[trigger] u.grid.at(
                a,
                b,
            ) == first.at(a, b) by {
                assert(g.at(a, b) == first.at(a, b));
                assert(g.inside(a, b));
            }
        },
        None => {
            if can_drop(g, kind, x, y) {
                let (c, d) = ((x as u32, y as u32), (x as u32, (y + 1) as u32));
                lemma_two_listed(s, c, d, s + seq![c, d]);
                let t = s + seq![c, d];
                assert forall|a: int, b: int|
                    first.inside(a, b) && !t.contains(
                        (a as u32, b as u32),
                    ) implies #[trigger] u.grid.at(a, b) == first.at(a, b) by {
                    assert(g.at(a, b) == first.at(a, b));
                    assert(g.inside(a, b));
                }
            } else {
                lemma_leveled_within(g, kind, x, y, x - 1, first, s);
                lemma_leveled_volume(g, kind, x, y, x - 1);
                let g1 = leveled(g, kind, x, y, x - 1);
                let s1 = s + leveled_cells(g, kind, x, y, x - 1);
                lemma_leveled_within(g1, kind, x, y, x + 1, first, s1);
                assert(s1 + leveled_cells(g1, kind, x, y, x + 1) =~= s + u.changed);
            }
        },
    }
}

proof fn lemma_visits_within(
    f: Flow,
    cells: Seq<(u32, u32)>,
    n: nat,
    update_water: bool,
    update_lava: bool,
)
    requires
        f.grid.wf(),
        inside_all(f.grid, cells),
        n <= cells.len(),
    ensures
        f.visits(cells, n, update_water, update_lava).grid.wf(),
        differs_within(
            f.grid,
            f.visits(cells, n, update_water, update_lava).grid,
            f.visits(cells, n, update_water, update_lava).changed,
        ),
    decreases n,
{
    if n > 0 {
        let m = (n - 1) as nat;
        lemma_visits_within(f, cells, m, update_water, update_lava);
        let mid = f.visits(cells, m, update_water, update_lava);
        let (x, y) = (cells[m as int].0 as int, cells[m as int].1 as int);
        assert(f.grid.inside(x, y));
        match mid.grid.at(x, y).liquid.spec_kind() {
            None => {},
            Some(k) => {
                lemma_update_wf(mid.grid, k, x, y);
                lemma_update_within(mid.grid, k, x, y, f.grid, mid.changed);
            },
        }
    }
}

/// A round lists every cell that it changes.
pub proof fn law_round_lists_its_changes(f: Flow, update_water: bool, update_lava: bool)
    requires
        f.wf(),
    ensures
        ({
            let after = f.round(update_water, update_lava);
            differs_within(f.grid, after.grid, after.changed)
        }),
{
    let cells = CellOrder::BottomUp.sorted(f.queue);
    lemma_round_cells(f);
    lemma_visits_within(
        Flow { queue: seq![], ..f },
        cells,
        cells.len(),
        update_water,
        update_lava,
    );
}

// ---- Why flowing ends ------------------------------------------------------

/// How far one cell is from rest: liquid wants to be low and spread out.
pub open spec fn unrest(width: int, height: int) -> spec_fn(int, Tile) -> int {
    |i: int, t: Tile|
        {
            let level = t.liquid.spec_level() as int;
            level * level + 17 * level * (height - i / width)
        }
}

/// How far the world is from rest.
pub open spec fn potential(g: Grid) -> int {
    total(g.cells, unrest(g.width, g.height))
}

/// The potential of one cell at row `y`.
spec fn rest_at(g: Grid, level: int, y: int) -> int {
    level * level + 17 * level * (g.height - y)
}

proof fn lemma_put_potential(g: Grid, x: int, y: int, t: Tile)
    requires
        g.wf(),
        g.inside(x, y),
    ensures
        potential(g.put(x, y, t)) == potential(g) - rest_at(
            g,
            g.at(x, y).liquid.spec_level() as int,
            y,
        ) + rest_at(g, t.liquid.spec_level() as int, y),
{
    broadcast use group_grid;

    lemma_put_total(g, unrest(g.width, g.height), x, y, t);
    reveal(Grid::put);
    vstd::arithmetic::div_mod::lemma_fundamental_div_mod_converse(g.index(x, y), g.width, y, x);
}

/// Every update that changes anything brings the world closer to rest, and
/// rest is at the end of it: the potential strictly falls and is never below
/// zero.
pub proof fn law_update_lowers_potential(g: Grid, kind: LiquidKind, x: int, y: int)
    requires
        g.wf(),
        g.inside(x, y),
        g.at(x, y).liquid.spec_kind() == Some(kind),
    ensures
        potential(update(g, kind, x, y).grid) >= 0,
        update(g, kind, x, y).changed.len() > 0 ==> potential(update(g, kind, x, y).grid)
            < potential(g),
        update(g, kind, x, y).changed.len() == 0 ==> update(g, kind, x, y).grid == g,
{
    broadcast use group_grid;

    let u = update(g, kind, x, y);
    lemma_update_wf(g, kind, x, y);
    lemma_potential_nonnegative(u.grid);
    let k = g.height - y;
    match u.met {
        Some(Meeting { water, lava }) => {
            let stone = Tile {
                id: TileId::Obsidian,
                liquid: Liquid::Empty,
                state: TileState::spec_clear(),
                ..g.at(lava.0, lava.1)
            };
            let g1 = g.put(lava.0, lava.1, stone);
            lemma_put_potential(g, lava.0, lava.1, stone);
            let left = g1.at(water.0, water.1).liquid.spec_level() as int;
            let t = g1.at(water.0, water.1).with_liquid(
                Liquid::of(LiquidKind::Water, (left - 1) as u8),
            );
            lemma_put_potential(g1, water.0, water.1, t);
            let l = g.at(lava.0, lava.1).liquid.spec_level() as int;
            assert(g.at(lava.0, lava.1).wf() && g.at(water.0, water.1).wf());
            assert(g1.at(water.0, water.1) == g.at(water.0, water.1));
            assert(u.grid == g1.put(water.0, water.1, t));
            assert(l >= 1 && left >= 1);
            assert(t.liquid.spec_level() == left - 1);
            let kl = g.height - lava.1;
            assert(rest_at(g, 0, lava.1) == 0) by (nonlinear_arith)
                requires
                    rest_at(g, 0, lava.1) == 0 * 0 + 17 * 0 * kl,
            ;
            let kw = g.height - water.1;
            assert(l * l + 17 * l * kl > 0) by (nonlinear_arith)
                requires
                    l >= 1,
                    kl >= 1,
            ;
            assert((left - 1) * (left - 1) + 17 * (left - 1) * kw < left * left + 17 * left * kw)
                by (nonlinear_arith)
                requires
                    left >= 1,
                    kw >= 1,
            ;
        },
        None => {
            if can_drop(g, kind, x, y) {
                assert(!opposes(g, kind, x, y + 1));
                let m = drop_amount(g, kind, x, y);
                let l = g.at(x, y).liquid.spec_level() as int;
                let b = g.at(x, y + 1).liquid.spec_level() as int;
                let t = g.at(x, y).with_liquid(Liquid::of(kind, (l - m) as u8));
                let g1 = g.put(x, y, t);
                lemma_put_potential(g, x, y, t);
                let t2 = g1.at(x, y + 1).with_liquid(Liquid::of(kind, (b + m) as u8));
                lemma_put_potential(g1, x, y + 1, t2);
                assert((l - m) * (l - m) + 17 * (l - m) * k + (b + m) * (b + m) + 17 * (b + m) * (k
                    - 1) < l * l + 17 * l * k + b * b + 17 * b * (k - 1)) by (nonlinear_arith)
                    requires
                        1 <= m <= 8,
                        1 <= l,
                        b + m <= 8,
                ;
            } else {
                lemma_leveled_potential(g, kind, x, y, x - 1);
                let g1 = leveled(g, kind, x, y, x - 1);
                lemma_leveled_potential(g1, kind, x, y, x + 1);
            }
        },
    }
}

proof fn lemma_leveled_potential(g: Grid, kind: LiquidKind, x: int, y: int, nx: int)
    requires
        g.wf(),
        g.inside(x, y),
        nx != x,
        g.at(x, y).liquid.spec_kind() == Some(kind),
    ensures
        leveled(g, kind, x, y, nx).wf(),
        leveled(g, kind, x, y, nx).inside(x, y),
        leveled(g, kind, x, y, nx).at(x, y).liquid.spec_kind() == Some(kind),
        can_level(g, kind, x, y, nx) ==> potential(leveled(g, kind, x, y, nx)) < potential(g),
{
    broadcast use group_grid;

    if can_level(g, kind, x, y, nx) {
        let l = g.at(x, y).liquid.spec_level() as int;
        let n = g.at(nx, y).liquid.spec_level() as int;
        let k = g.height - y;
        let t = g.at(x, y).with_liquid(Liquid::of(kind, (l - 1) as u8));
        let g1 = g.put(x, y, t);
        lemma_put_potential(g, x, y, t);
        let t2 = g1.at(nx, y).with_liquid(Liquid::of(kind, (n + 1) as u8));
        lemma_put_potential(g1, nx, y, t2);
        assert((l - 1) * (l - 1) + 17 * (l - 1) * k + (n + 1) * (n + 1) + 17 * (n + 1) * k < l * l
            + 17 * l * k + n * n + 17 * n * k) by (nonlinear_arith)
            requires
                l >= n + 2,
        ;
    }
}

proof fn lemma_potential_nonnegative(g: Grid)
    requires
        g.wf(),
    ensures
        potential(g) >= 0,
{
    let f = unrest(g.width, g.height);
    assert forall|i: int| 0 <= i < g.cells.len() implies #[trigger] f(i, g.cells[i]) >= 0 by {
        lemma_index_position(g, i);
        let level = g.cells[i].liquid.spec_level() as int;
        let k = g.height - i / g.width;
        assert(level * level + 17 * level * k >= 0) by (nonlinear_arith)
            requires
                level >= 0,
                k >= 0,
        ;
    }
    lemma_total_nonnegative(g.cells, f);
}

// ---- What flowing comes to -------------------------------------------------

/// Where a world is settled, water and lava alike lie level: next to a liquid
/// that cannot sink any further, an open side cell without the other liquid is
/// at most one level lower, and, unless a solid keeps them apart, at most one
/// level higher.
pub proof fn law_settled_lies_level(g: Grid, x: int, y: int, nx: int)
    requires
        g.wf(),
        settled(g),
        g.inside(x, y),
        g.inside(nx, y),
        nx == x - 1 || nx == x + 1,
        g.at(x, y).liquid is Filled,
        !g.at(nx, y).solid(),
        g.at(nx, y).liquid is Filled ==> g.at(nx, y).liquid->kind == g.at(x, y).liquid->kind,
        y + 1 == g.height || g.at(x, y + 1).solid() || (g.at(x, y + 1).liquid is Filled && g.at(
            x,
            y + 1,
        ).liquid->kind == g.at(x, y).liquid->kind && g.at(x, y + 1).liquid->level == 8),
    ensures
        match g.at(nx, y).liquid {
            Liquid::Empty => g.at(x, y).liquid->level <= 1,
            Liquid::Filled { level, .. } => {
                &&& g.at(x, y).liquid->level <= level + 1
                &&& !g.at(x, y).solid() ==> level <= g.at(x, y).liquid->level + 1
            },
        },
{
    assert(g.liquid(x, y) == g.at(x, y).liquid);
    assert(g.liquid(nx, y) == g.at(nx, y).liquid);
    assert(!flows(g, x, y));
    assert(!flows(g, nx, y));
}

/// Where a world is settled, every liquid has fallen as far as it can: below
/// it lies the edge of the world, a solid, or a full cell of the same liquid.
pub proof fn law_settled_has_fallen(g: Grid, x: int, y: int)
    requires
        g.wf(),
        settled(g),
        g.inside(x, y),
        g.at(x, y).liquid is Filled,
    ensures
        y + 1 < g.height && !g.at(x, y + 1).solid() ==> g.at(x, y + 1).liquid == (Liquid::Filled {
            kind: g.at(x, y).liquid->kind,
            level: 8,
        }),
{
    broadcast use group_grid;

    assert(g.liquid(x, y) == g.at(x, y).liquid);
    assert(!flows(g, x, y) && !meets_below(g, x, y));
    if y + 1 < g.height && !g.at(x, y + 1).solid() {
        assert(g.inside(x, y + 1));
        assert(g.at(x, y + 1).wf());
    }
}

/// Where a world is settled, no two neighbours hold different liquids.
pub proof fn law_settled_keeps_apart(g: Grid, x: int, y: int, a: int, b: int)
    requires
        settled(g),
        g.inside(x, y),
        g.inside(a, b),
        (a == x + 1 && b == y) || (a == x && b == y + 1),
    ensures
        g.at(x, y).liquid is Filled && g.at(a, b).liquid is Filled ==> g.at(x, y).liquid->kind
            == g.at(a, b).liquid->kind,
{
    assert(g.liquid(x, y) == g.at(x, y).liquid);
    assert(g.liquid(a, b) == g.at(a, b).liquid);
    assert(!meets_right(g, x, y) && !meets_below(g, x, y));
}

/// No neighbour of `(x, y)` holds a liquid other than `kind`.
pub open spec fn undisturbed(g: Grid, kind: LiquidKind, x: int, y: int) -> bool {
    forall|a: int, b: int|
        g.inside(a, b) && (a - x) * (a - x) + (b - y) * (b - y) == 1 ==> (#[trigger] g.at(
            a,
            b,
        )).liquid is Empty || g.at(a, b).liquid->kind == kind
}

proof fn lemma_undisturbed(g: Grid, kind: LiquidKind, x: int, y: int)
    ensures
        undisturbed(g, kind, x, y) <==> contact(g, kind, x, y) is None,
{
    if undisturbed(g, kind, x, y) {
        assert forall|a: int, b: int|
            g.inside(a, b) && ((b == y && (a == x - 1 || a == x + 1)) || (a == x && (b == y - 1 || b
                == y + 1))) implies !opposes(g, kind, a, b) by {
            assert((a - x) * (a - x) + (b - y) * (b - y) == 1) by (nonlinear_arith)
                requires
                    (b == y && (a == x - 1 || a == x + 1)) || (a == x && (b == y - 1 || b == y + 1)),
            ;
            assert(g.at(a, b) == g.at(a, b));
        }
    } else {
        let (a, b) = choose|a: int, b: int|
            g.inside(a, b) && (a - x) * (a - x) + (b - y) * (b - y) == 1 && !((#[trigger] g.at(
                a,
                b,
            )).liquid is Empty || g.at(a, b).liquid->kind == kind);
        assert((b == y && (a == x - 1 || a == x + 1)) || (a == x && (b == y - 1 || b == y + 1)))
            by (nonlinear_arith)
            requires
                (a - x) * (a - x) + (b - y) * (b - y) == 1,
        ;
        assert(opposes(g, kind, a, b));
    }
}

/// A visited liquid above an open cell that is not full falls into it: what
/// one loses the other gains, until the upper cell is empty or the lower one
/// full. No other cell changes.
pub proof fn law_liquid_falls(g: Grid, kind: LiquidKind, x: int, y: int)
    requires
        g.wf(),
        g.inside(x, y),
        g.inside(x, y + 1),
        g.at(x, y).liquid is Filled,
        g.at(x, y).liquid->kind == kind,
        undisturbed(g, kind, x, y),
        !g.at(x, y + 1).solid(),
        g.at(x, y + 1).liquid.spec_level() < 8,
    ensures
        ({
            let h = update(g, kind, x, y).grid;
            let (up, low) = (h.at(x, y).liquid, h.at(x, y + 1).liquid);
            &&& up.spec_level() + low.spec_level() == g.at(x, y).liquid.spec_level() + g.at(
                x,
                y + 1,
            ).liquid.spec_level()
            &&& up is Empty || low.spec_level() == 8
            &&& low is Filled && low->kind == kind
            &&& up is Filled ==> up->kind == kind
            &&& forall|a: int, b: int|
                g.inside(a, b) && (a, b) != (x, y) && (a, b) != (x, y + 1) ==> #[trigger] h.at(a, b)
                    == g.at(a, b)
            &&& update(g, kind, x, y).changed == seq![
                (x as u32, y as u32),
                (x as u32, (y + 1) as u32),
            ]
        }),
{
    broadcast use group_grid;

    lemma_undisturbed(g, kind, x, y);
    assert(g.at(x, y).wf());
    assert(g.at(x, y + 1).wf());
    assert(g.at(x, y + 1).liquid is Filled ==> g.at(x, y + 1).liquid->kind == kind) by {
        assert((x - x) * (x - x) + (y + 1 - y) * (y + 1 - y) == 1) by (nonlinear_arith);
    }
}

/// How many levels `(nx, y)` gains from a visit of the `kind` liquid at
/// `(x, y)`.
pub open spec fn gain(g: Grid, kind: LiquidKind, x: int, y: int, nx: int) -> int {
    update(g, kind, x, y).grid.at(nx, y).liquid.spec_level() - g.at(nx, y).liquid.spec_level()
}

/// A visited liquid that cannot fall levels out, be it water or lava: one
/// level goes to the left if the open cell there is two or more levels lower,
/// and then one to the right if that cell is two or more levels lower than
/// what is left. No other cell changes.
#[verifier::rlimit(60)]
#[verifier::spinoff_prover]
pub proof fn law_liquid_levels_out(g: Grid, kind: LiquidKind, x: int, y: int)
    requires
        g.wf(),
        g.inside(x, y),
        g.at(x, y).liquid is Filled,
        g.at(x, y).liquid->kind == kind,
        undisturbed(g, kind, x, y),
        y + 1 == g.height || g.at(x, y + 1).solid() || g.at(x, y + 1).liquid.spec_level() == 8,
    ensures
        ({
            let h = update(g, kind, x, y).grid;
            let level = |a: int| g.at(a, y).liquid.spec_level() as int;
            let (left, right) = (gain(g, kind, x, y, x - 1), gain(g, kind, x, y, x + 1));
            let open = |a: int| g.inside(a, y) && !g.at(a, y).solid();
            &&& gain(g, kind, x, y, x) == -(if g.inside(x - 1, y) {
                left
            } else {
                0
            }) - (if g.inside(x + 1, y) {
                right
            } else {
                0
            })
            &&& g.inside(x - 1, y) ==> left == (if open(x - 1) && level(x) - level(x - 1) >= 2 {
                1int
            } else {
                0
            })
            &&& g.inside(x + 1, y) ==> right == (if open(x + 1) && h.at(x, y).liquid.spec_level()
                + right - level(x + 1) >= 2 {
                1int
            } else {
                0
            })
            &&& forall|a: int, b: int|
                g.inside(a, b) && !(b == y && x - 1 <= a <= x + 1) ==> #[trigger] h.at(a, b)
                    == g.at(a, b)
            &&& forall|a: int|
                g.inside(a, y) && x - 1 <= a <= x + 1 ==> {
                    &&& (#[trigger] h.at(a, y)).id == g.at(a, y).id
                    &&& h.at(a, y).wall == g.at(a, y).wall
                    &&& h.at(a, y).state == g.at(a, y).state
                    &&& h.at(a, y).liquid is Filled ==> h.at(a, y).liquid->kind == kind
                }
        }),
{
    broadcast use group_grid;

    lemma_undisturbed(g, kind, x, y);
    assert(g.at(x, y).wf());
    if g.inside(x, y + 1) {
        assert(g.at(x, y + 1).wf());
        assert(g.at(x, y + 1).liquid is Filled ==> g.at(x, y + 1).liquid->kind == kind) by {
            assert((x - x) * (x - x) + (y + 1 - y) * (y + 1 - y) == 1) by (nonlinear_arith);
        }
    }
    if g.inside(x - 1, y) {
        assert(g.at(x - 1, y).wf());
    }
    if g.inside(x + 1, y) {
        assert(g.at(x + 1, y).wf());
    }
    assert(!can_drop(g, kind, x, y));
    assert(contact(g, kind, x, y) is None);
    assert(!opposes(g, kind, x - 1, y) && !opposes(g, kind, x + 1, y));
}

/// A visited liquid next to the other one: the lava of the two cells becomes
/// dry obsidian, the water of the two loses one level, and nothing else
/// changes.
pub proof fn law_meeting_hardens_the_lava(g: Grid, kind: LiquidKind, x: int, y: int)
    requires
        g.wf(),
        g.inside(x, y),
        g.at(x, y).liquid is Filled,
        g.at(x, y).liquid->kind == kind,
        !undisturbed(g, kind, x, y),
    ensures
        update(g, kind, x, y).met matches Some(Meeting { water, lava }) && {
            let h = update(g, kind, x, y).grid;
            &&& g.inside(water.0, water.1) && g.inside(lava.0, lava.1)
            &&& (water.0 - lava.0) * (water.0 - lava.0) + (water.1 - lava.1) * (water.1 - lava.1)
                == 1
            &&& (x, y) == (if kind == LiquidKind::Lava {
                lava
            } else {
                water
            })
            &&& g.at(water.0, water.1).liquid.spec_kind() == Some(LiquidKind::Water)
            &&& g.at(lava.0, lava.1).liquid.spec_kind() == Some(LiquidKind::Lava)
            &&& h.at(lava.0, lava.1).id == TileId::Obsidian
            &&& h.at(lava.0, lava.1).liquid is Empty
            &&& h.at(lava.0, lava.1).wall == g.at(lava.0, lava.1).wall
            &&& h.at(water.0, water.1).liquid.spec_level() == g.at(
                water.0,
                water.1,
            ).liquid.spec_level() - 1
            &&& h.at(water.0, water.1).id == g.at(water.0, water.1).id
            &&& h.at(water.0, water.1).liquid is Filled ==> h.at(water.0, water.1).liquid->kind
                == LiquidKind::Water
            &&& forall|a: int, b: int|
                g.inside(a, b) && (a, b) != water && (a, b) != lava ==> #[trigger] h.at(a, b)
                    == g.at(a, b)
            &&& update(g, kind, x, y).changed == seq![
                (lava.0 as u32, lava.1 as u32),
                (water.0 as u32, water.1 as u32),
            ]
        },
{
    broadcast use group_grid;

    lemma_undisturbed(g, kind, x, y);
    let n = contact(g, kind, x, y)->Some_0;
    assert(g.inside(n.0, n.1));
    assert(g.at(n.0, n.1).wf());
    assert(g.at(x, y).wf());
    assert((n.0 - x) * (n.0 - x) + (n.1 - y) * (n.1 - y) == 1 && (x - n.0) * (x - n.0) + (y - n.1)
        * (y - n.1) == 1) by (nonlinear_arith)
        requires
            n == (x - 1, y) || n == (x + 1, y) || n == (x, y - 1) || n == (x, y + 1),
    ;
}

/// While a liquid is not due, its visited cells stay as they are and queued;
/// a cell without liquid is forgotten.
pub proof fn law_undue_liquids_wait(f: Flow, cell: (u32, u32), water: bool, lava: bool)
    requires
        f.grid.inside(cell.0 as int, cell.1 as int),
    ensures
        match f.grid.at(cell.0 as int, cell.1 as int).liquid {
            Liquid::Empty => f.visit(cell, water, lava) == f,
            Liquid::Filled { kind, .. } => (kind == LiquidKind::Water && !water) || (kind
                == LiquidKind::Lava && !lava) ==> {
                &&& f.visit(cell, water, lava).grid == f.grid
                &&& f.visit(cell, water, lava).changed == f.changed
                &&& f.visit(cell, water, lava).queue.contains(cell)
            },
        },
{
    let (x, y) = (cell.0 as int, cell.1 as int);
    let q = marked(f.queue, f.grid.width, f.grid.height, x, y);
    if !f.queue.contains(cell) {
        assert(q == f.queue.push(cell));
        assert(q.last() == cell);
    }
}

} // verus!
