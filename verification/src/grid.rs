//! The world as a rectangular grid of tiles.

use vstd::prelude::*;

use crate::tile::{Liquid, Tile, TileId, TileState};

verus! {

/// The mathematical view of a world: `cells` row by row.
#[verifier::ext_equal]
pub struct Grid {
    pub width: int,
    pub height: int,
    pub cells: Seq<Tile>,
}

impl Grid {
    pub open spec fn wf(self) -> bool {
        &&& 0 <= self.width
        &&& 0 <= self.height
        &&& self.cells.len() == self.width * self.height
        &&& forall|i: int| 0 <= i < self.cells.len() ==> (#[trigger] self.cells[i]).wf()
    }

    pub open spec fn inside(self, x: int, y: int) -> bool {
        0 <= x < self.width && 0 <= y < self.height
    }

    pub open spec fn index(self, x: int, y: int) -> int {
        y * self.width + x
    }

    /// The tile at column `x`, row `y`.
    #[verifier::opaque]
    pub open spec fn at(self, x: int, y: int) -> Tile {
        self.cells[self.index(x, y)]
    }

    /// The grid with the tile at `(x, y)` replaced.
    #[verifier::opaque]
    pub open spec fn put(self, x: int, y: int, t: Tile) -> Grid {
        Grid { cells: self.cells.update(self.index(x, y), t), ..self }
    }

    /// Everything outside of the world counts as solid.
    pub open spec fn solid(self, x: int, y: int) -> bool {
        !self.inside(x, y) || self.at(x, y).solid()
    }

    pub open spec fn platform(self, x: int, y: int) -> bool {
        self.inside(x, y) && self.at(x, y).platform()
    }

    /// An inside cell without foreground.
    pub open spec fn vacant(self, x: int, y: int) -> bool {
        self.inside(x, y) && self.at(x, y).id == TileId::Air
    }

    /// There is no liquid outside of the world.
    pub open spec fn liquid(self, x: int, y: int) -> Liquid {
        if self.inside(x, y) {
            self.at(x, y).liquid
        } else {
            Liquid::Empty
        }
    }
}

/// The cell of an inside position is a cell of the grid.
pub proof fn lemma_index_inside(g: Grid, x: int, y: int)
    requires
        g.inside(x, y),
    ensures
        0 <= g.index(x, y) < g.width * g.height,
{
    let (w, h) = (g.width, g.height);
    assert(0 <= y * w + x < w * h) by (nonlinear_arith)
        requires
            0 <= x < w,
            0 <= y < h,
    ;
}

/// Different positions have different cells.
pub proof fn lemma_index_distinct(g: Grid, x: int, y: int, a: int, b: int)
    requires
        g.inside(x, y),
        g.inside(a, b),
        (x, y) != (a, b),
    ensures
        g.index(x, y) != g.index(a, b),
{
    let w = g.width;
    if y == b {
    } else if y < b {
        assert(y * w + x < b * w + a) by (nonlinear_arith)
            requires
                y < b,
                0 <= x < w,
                0 <= a < w,
        ;
    } else {
        assert(b * w + a < y * w + x) by (nonlinear_arith)
            requires
                b < y,
                0 <= x < w,
                0 <= a < w,
        ;
    }
}

/// Every cell of a grid has a position.
pub proof fn lemma_index_position(g: Grid, i: int)
    requires
        0 <= i < g.width * g.height,
        0 <= g.width,
    ensures
        g.inside(i % g.width, i / g.width),
        g.index(i % g.width, i / g.width) == i,
{
    let (w, h) = (g.width, g.height);
    assert(w > 0) by (nonlinear_arith)
        requires
            0 <= i < w * h,
            0 <= w,
    ;
    assert(0 <= i % w < w && i == (i / w) * w + i % w) by (nonlinear_arith)
        requires
            w > 0,
    ;
    let q = i / w;
    let r = i % w;
    assert(0 <= q < h) by (nonlinear_arith)
        requires
            i == q * w + r,
            0 <= r < w,
            0 <= i < w * h,
            w > 0,
    ;
}

/// Reading after writing.
pub broadcast proof fn lemma_put_at(g: Grid, x: int, y: int, t: Tile, a: int, b: int)
    requires
        g.wf(),
        g.inside(x, y),
        g.inside(a, b),
    ensures
        #[trigger] g.put(x, y, t).at(a, b) == (if (a, b) == (x, y) {
            t
        } else {
            g.at(a, b)
        }),
{
    reveal(Grid::at);
    reveal(Grid::put);
    lemma_index_inside(g, x, y);
    lemma_index_inside(g, a, b);
    if (a, b) != (x, y) {
        lemma_index_distinct(g, x, y, a, b);
    }
}

/// Writing keeps the shape of the grid.
pub broadcast proof fn lemma_put_shape(g: Grid, x: int, y: int, t: Tile)
    requires
        g.wf(),
        g.inside(x, y),
        t.wf(),
    ensures
        (#[trigger] g.put(x, y, t)).wf(),
        g.put(x, y, t).width == g.width,
        g.put(x, y, t).height == g.height,
{
    reveal(Grid::put);
    lemma_index_inside(g, x, y);
}

/// The tiles of a well-formed grid are well-formed.
pub broadcast proof fn lemma_at_wf(g: Grid, x: int, y: int)
    requires
        g.wf(),
        g.inside(x, y),
    ensures
        (#[trigger] g.at(x, y)).wf(),
{
    reveal(Grid::at);
    lemma_index_inside(g, x, y);
}

/// `after` is `before` with new foregrounds out of `made` alone; liquids have
/// only gone.
pub open spec fn only_brings(before: Grid, after: Grid, made: Set<TileId>) -> bool {
    &&& after.width == before.width
    &&& after.height == before.height
    &&& forall|x: int, y: int|
        #![trigger after.at(x, y)]
        before.inside(x, y) ==> {
            &&& after.at(x, y).id == before.at(x, y).id || made.contains(after.at(x, y).id)
            &&& after.at(x, y).liquid == before.at(x, y).liquid || after.at(x, y).liquid
                == Liquid::Empty
        }
}

/// What two steps bring.
pub proof fn lemma_only_brings_twice(a: Grid, b: Grid, c: Grid, made: Set<TileId>)
    requires
        only_brings(a, b, made),
        only_brings(b, c, made),
    ensures
        only_brings(a, c, made),
{
    assert forall|x: int, y: int|
        #![trigger c.at(x, y)]
        a.inside(x, y) implies (c.at(x, y).id == a.at(x, y).id || made.contains(c.at(x, y).id)) && (
    c.at(x, y).liquid == a.at(x, y).liquid || c.at(x, y).liquid == Liquid::Empty) by {
        assert(b.inside(x, y));
        assert(b.at(x, y) == b.at(x, y));
    }
}

/// A step along grids of which each brings only `made`.
pub proof fn lemma_only_brings_all(trail: Seq<Grid>, n: int, made: Set<TileId>)
    requires
        0 <= n < trail.len(),
        forall|i: int| 0 <= i < n ==> only_brings(#[trigger] trail[i], trail[i + 1], made),
    ensures
        only_brings(trail[0], trail[n], made),
    decreases n,
{
    if n > 0 {
        lemma_only_brings_all(trail, n - 1, made);
        assert(only_brings(trail[n - 1], trail[n - 1 + 1], made));
        lemma_only_brings_twice(trail[0], trail[n - 1], trail[n], made);
    }
}

/// `(a, b)` lies in the `w` by `h` box at `(x, y)`.
pub open spec fn in_box(x: int, y: int, w: int, h: int, a: int, b: int) -> bool {
    x <= a < x + w && y <= b < y + h
}

/// The box is inside of the grid and has no foreground.
pub open spec fn box_vacant(g: Grid, x: int, y: int, w: int, h: int) -> bool {
    forall|a: int, b: int| #[trigger] in_box(x, y, w, h, a, b) ==> g.vacant(a, b)
}

/// One cell of the multi-cell object `id` over what was there: wall, liquid
/// and the mark of a placed wall stay.
pub open spec fn part_of(t: Tile, id: TileId, dx: int, dy: int) -> Tile {
    Tile {
        id,
        state: TileState {
            wall_placed: t.state.wall_placed,
            ..TileState::spec_part(dx as u8, dy as u8)
        },
        ..t
    }
}

/// The object `id` fills the box, and nothing else has changed.
pub open spec fn with_object(
    before: Grid,
    after: Grid,
    id: TileId,
    x: int,
    y: int,
    w: int,
    h: int,
) -> bool {
    &&& after.width == before.width
    &&& after.height == before.height
    &&& forall|a: int, b: int|
        before.inside(a, b) ==> #[trigger] after.at(a, b) == (if in_box(x, y, w, h, a, b) {
            part_of(before.at(a, b), id, a - x, b - y)
        } else {
            before.at(a, b)
        })
}

/// The sum of `f` over the cells, each with its index.
pub open spec fn total(cells: Seq<Tile>, f: spec_fn(int, Tile) -> int) -> int
    decreases cells.len(),
{
    if cells.len() == 0 {
        0
    } else {
        total(cells.drop_last(), f) + f(cells.len() - 1, cells.last())
    }
}

/// Replacing one cell changes a sum by the difference at that cell.
pub proof fn lemma_total_update(cells: Seq<Tile>, f: spec_fn(int, Tile) -> int, i: int, t: Tile)
    requires
        0 <= i < cells.len(),
    ensures
        total(cells.update(i, t), f) == total(cells, f) - f(i, cells[i]) + f(i, t),
    decreases cells.len(),
{
    let n = cells.len() - 1;
    let u = cells.update(i, t);
    if i == n {
        assert(u.drop_last() =~= cells.drop_last());
    } else {
        assert(u.drop_last() =~= cells.drop_last().update(i, t));
        lemma_total_update(cells.drop_last(), f, i, t);
    }
}

/// Writing a tile changes a sum by the difference at its cell.
pub proof fn lemma_put_total(g: Grid, f: spec_fn(int, Tile) -> int, x: int, y: int, t: Tile)
    requires
        g.wf(),
        g.inside(x, y),
    ensures
        total(g.put(x, y, t).cells, f) == total(g.cells, f) - f(g.index(x, y), g.at(x, y)) + f(
            g.index(x, y),
            t,
        ),
{
    reveal(Grid::at);
    reveal(Grid::put);
    lemma_index_inside(g, x, y);
    lemma_total_update(g.cells, f, g.index(x, y), t);
}

/// A sum of amounts that are never negative is not negative.
pub proof fn lemma_total_nonnegative(cells: Seq<Tile>, f: spec_fn(int, Tile) -> int)
    requires
        forall|i: int| 0 <= i < cells.len() ==> #[trigger] f(i, cells[i]) >= 0,
    ensures
        total(cells, f) >= 0,
    decreases cells.len(),
{
    if cells.len() > 0 {
        let n = cells.len() - 1;
        assert(f(n, cells[n]) >= 0);
        assert forall|i: int| 0 <= i < cells.drop_last().len() implies #[trigger] f(
            i,
            cells.drop_last()[i],
        ) >= 0 by {
            assert(f(i, cells[i]) >= 0);
        }
        lemma_total_nonnegative(cells.drop_last(), f);
    }
}

pub broadcast group group_grid {
    lemma_put_at,
    lemma_put_shape,
    lemma_at_wf,
}

/// The world: a grid of tiles, addressed by column and row from the top left.
pub struct World {
    pub width: u32,
    pub height: u32,
    pub tiles: Vec<Tile>,
    /// The air cell above the platform on which players start.
    pub spawn: (u32, u32),
}

impl View for World {
    type V = Grid;

    open spec fn view(&self) -> Grid {
        Grid { width: self.width as int, height: self.height as int, cells: self.tiles@ }
    }
}

/// Largest side of a world.
pub const MAX_SIDE: u32 = 0x7fff_ffff;

impl World {
    /// The tiles fill the rectangle, positions fit the signed coordinates in
    /// use around the world, and cells can be counted in 32 bits.
    pub open spec fn wf(&self) -> bool {
        &&& self@.wf()
        &&& self.width <= MAX_SIDE
        &&& self.height <= MAX_SIDE
        &&& self.width * self.height <= u32::MAX
    }

    /// A world of air.
    pub fn new(width: u32, height: u32) -> (w: World)
        requires
            width <= MAX_SIDE,
            height <= MAX_SIDE,
            width * height <= u32::MAX,
        ensures
            w.wf(),
            w.width == width,
            w.height == height,
            w.spawn == (0u32, 0u32),
            forall|x: int, y: int|
                w@.inside(x, y) ==> #[trigger] w@.at(x, y) == Tile::spec_of(TileId::Air),
    {
        let n: usize = (width * height) as usize;
        let mut tiles: Vec<Tile> = Vec::with_capacity(n);
        let mut i: usize = 0;
        while i < n
            invariant
                i <= n,
                tiles.len() == i,
                forall|k: int| 0 <= k < i ==> tiles@[k] == Tile::spec_of(TileId::Air),
            decreases n - i,
        {
            tiles.push(Tile::of(TileId::Air));
            i = i + 1;
        }
        let w = World { width, height, tiles, spawn: (0, 0) };
        proof {
            reveal(Grid::at);
            assert forall|x: int, y: int| w@.inside(x, y) implies #[trigger] w@.at(x, y)
                == Tile::spec_of(TileId::Air) by {
                lemma_index_inside(w@, x, y);
            }
        }
        w
    }

    pub fn in_bounds(&self, x: u32, y: u32) -> (b: bool)
        ensures
            b == self@.inside(x as int, y as int),
    {
        x < self.width && y < self.height
    }

    /// The tile at an inside position.
    pub fn tile(&self, x: u32, y: u32) -> (t: Tile)
        requires
            self.wf(),
            self@.inside(x as int, y as int),
        ensures
            t == self@.at(x as int, y as int),
            t.wf(),
    {
        proof {
            lemma_index_inside(self@, x as int, y as int);
            lemma_at_wf(self@, x as int, y as int);
            reveal(Grid::at);
        }
        assert(0 <= y * self.width <= y * self.width + x);
        self.tiles[(y * self.width + x) as usize]
    }

    /// Replaces the tile at an inside position.
    pub fn set_tile(&mut self, x: u32, y: u32, t: Tile)
        requires
            old(self).wf(),
            old(self)@.inside(x as int, y as int),
            t.wf(),
        ensures
            final(self).wf(),
            final(self)@ == old(self)@.put(x as int, y as int, t),
            final(self).spawn == old(self).spawn,
            final(self).width == old(self).width,
            final(self).height == old(self).height,
    {
        proof {
            lemma_index_inside(self@, x as int, y as int);
            lemma_put_shape(self@, x as int, y as int, t);
            reveal(Grid::put);
        }
        assert(0 <= y * self.width <= y * self.width + x);
        let i: usize = (y * self.width + x) as usize;
        self.tiles.set(i, t);
        assert(self@ =~= old(self)@.put(x as int, y as int, t));
    }

    /// Whether `(x, y)` blocks movement and liquids; outside of the world
    /// everything does.
    pub fn is_solid(&self, x: i32, y: i32) -> (b: bool)
        requires
            self.wf(),
        ensures
            b == self@.solid(x as int, y as int),
    {
        if x < 0 || y < 0 || !self.in_bounds(x as u32, y as u32) {
            true
        } else {
            self.tile(x as u32, y as u32).is_solid()
        }
    }

    pub fn is_platform(&self, x: i32, y: i32) -> (b: bool)
        requires
            self.wf(),
        ensures
            b == self@.platform(x as int, y as int),
    {
        if x < 0 || y < 0 || !self.in_bounds(x as u32, y as u32) {
            false
        } else {
            self.tile(x as u32, y as u32).id == TileId::Platform
        }
    }

    /// Whether `(x, y)` is an inside cell without foreground.
    pub fn is_empty(&self, x: u32, y: u32) -> (b: bool)
        requires
            self.wf(),
        ensures
            b == self@.vacant(x as int, y as int),
    {
        self.in_bounds(x, y) && self.tile(x, y).id == TileId::Air
    }

    /// The liquid at `(x, y)`; there is none outside of the world.
    pub fn liquid(&self, x: i32, y: i32) -> (l: Liquid)
        requires
            self.wf(),
        ensures
            l == self@.liquid(x as int, y as int),
    {
        if x < 0 || y < 0 || !self.in_bounds(x as u32, y as u32) {
            Liquid::Empty
        } else {
            self.tile(x as u32, y as u32).liquid
        }
    }
}

impl World {
    /// Whether the whole box is inside and without foreground.
    pub fn box_is_vacant(&self, x: u32, y: u32, w: u32, h: u32) -> (b: bool)
        requires
            self.wf(),
            w <= 256,
            h <= 256,
        ensures
            b == box_vacant(self@, x as int, y as int, w as int, h as int),
    {
        if w > 0 && h > 0 && (x >= self.width || y >= self.height || w > self.width - x || h
            > self.height - y) {
            proof {
                if x >= self.width || y >= self.height {
                    assert(in_box(x as int, y as int, w as int, h as int, x as int, y as int));
                } else if w > self.width - x {
                    assert(in_box(
                        x as int,
                        y as int,
                        w as int,
                        h as int,
                        self.width as int,
                        y as int,
                    ));
                } else {
                    assert(in_box(
                        x as int,
                        y as int,
                        w as int,
                        h as int,
                        x as int,
                        self.height as int,
                    ));
                }
            }
            return false;
        }
        if w == 0 || h == 0 {
            return true;
        }
        let mut dy: u32 = 0;
        while dy < h
            invariant
                self.wf(),
                dy <= h,
                x + w <= self.width,
                y + h <= self.height,
                forall|a: int, b: int| #[trigger]
                    in_box(x as int, y as int, w as int, h as int, a, b) && b < y + dy
                        ==> self@.vacant(a, b),
            decreases h - dy,
        {
            let mut dx: u32 = 0;
            while dx < w
                invariant
                    self.wf(),
                    dy < h,
                    dx <= w,
                    x + w <= self.width,
                    y + h <= self.height,
                    forall|a: int, b: int| #[trigger]
                        in_box(x as int, y as int, w as int, h as int, a, b) && (b < y + dy || (b
                            == y + dy && a < x + dx)) ==> self@.vacant(a, b),
                decreases w - dx,
            {
                if !self.is_empty(x + dx, y + dy) {
                    assert(in_box(x as int, y as int, w as int, h as int, x + dx, y + dy));
                    return false;
                }
                dx = dx + 1;
            }
            dy = dy + 1;
        }
        true
    }

    /// Puts the `w` by `h` object `id` with its top left cell at `(x, y)`;
    /// refuses, changing nothing, unless all its cells are free.
    pub fn place_multitile(&mut self, x: u32, y: u32, id: TileId, w: u32, h: u32) -> (placed: bool)
        requires
            old(self).wf(),
            1 <= w <= 256,
            1 <= h <= 256,
        ensures
            final(self).wf(),
            final(self).width == old(self).width,
            final(self).height == old(self).height,
            final(self).spawn == old(self).spawn,
            placed == box_vacant(old(self)@, x as int, y as int, w as int, h as int),
            placed ==> with_object(
                old(self)@,
                final(self)@,
                id,
                x as int,
                y as int,
                w as int,
                h as int,
            ),
            !placed ==> final(self)@ == old(self)@,
    {
        if !self.box_is_vacant(x, y, w, h) {
            return false;
        }
        let ghost g = self@;
        proof {
            assert(in_box(x as int, y as int, w as int, h as int, x + w - 1, y + h - 1));
        }
        let mut dy: u32 = 0;
        while dy < h
            invariant
                self.wf(),
                self.width == old(self).width,
                self.height == old(self).height,
                self.spawn == old(self).spawn,
                g == old(self)@,
                dy <= h <= 256,
                w <= 256,
                x + w <= self.width,
                y + h <= self.height,
                forall|a: int, b: int|
                    g.inside(a, b) ==> #[trigger] self@.at(a, b) == (if in_box(
                        x as int,
                        y as int,
                        w as int,
                        dy as int,
                        a,
                        b,
                    ) {
                        part_of(g.at(a, b), id, a - x, b - y)
                    } else {
                        g.at(a, b)
                    }),
            decreases h - dy,
        {
            let mut dx: u32 = 0;
            while dx < w
                invariant
                    self.wf(),
                    self.width == old(self).width,
                    self.height == old(self).height,
                    self.spawn == old(self).spawn,
                    g == old(self)@,
                    dy < h <= 256,
                    dx <= w <= 256,
                    x + w <= self.width,
                    y + h <= self.height,
                    forall|a: int, b: int|
                        g.inside(a, b) ==> #[trigger] self@.at(a, b) == (if in_box(
                            x as int,
                            y as int,
                            w as int,
                            dy as int,
                            a,
                            b,
                        ) || (b == y + dy && x <= a < x + dx) {
                            part_of(g.at(a, b), id, a - x, b - y)
                        } else {
                            g.at(a, b)
                        }),
                decreases w - dx,
            {
                broadcast use group_grid;

                let mut t = self.tile(x + dx, y + dy);
                t.id = id;
                let mut s = TileState::part(dx as u8, dy as u8);
                s.wall_placed = t.state.wall_placed;
                t.state = s;
                self.set_tile(x + dx, y + dy, t);
                dx = dx + 1;
            }
            dy = dy + 1;
        }
        true
    }

    /// The top left cell of the multi-cell object at an inside position.
    pub fn multitile_origin(&self, x: u32, y: u32) -> (o: (u32, u32))
        requires
            self.wf(),
            self@.inside(x as int, y as int),
        ensures
            o == spec_origin(self@, x, y),
            o.0 <= x,
            o.1 <= y,
    {
        let s = self.tile(x, y).state;
        (x.saturating_sub(s.part_x as u32), y.saturating_sub(s.part_y as u32))
    }
}

/// The position of `(x, y)` less its offset within its object.
pub open spec fn spec_origin(g: Grid, x: u32, y: u32) -> (u32, u32) {
    let s = g.at(x as int, y as int).state;
    (
        if x < s.part_x {
            0
        } else {
            (x - s.part_x) as u32
        },
        if y < s.part_y {
            0
        } else {
            (y - s.part_y) as u32
        },
    )
}

/// Every cell of a placed object leads back to its origin.
pub proof fn law_object_origin(
    before: Grid,
    after: Grid,
    id: TileId,
    x: u32,
    y: u32,
    w: int,
    h: int,
    a: u32,
    b: u32,
)
    requires
        w <= 256,
        h <= 256,
        box_vacant(before, x as int, y as int, w, h),
        with_object(before, after, id, x as int, y as int, w, h),
        in_box(x as int, y as int, w, h, a as int, b as int),
    ensures
        spec_origin(after, a, b) == (x, y),
        after.at(a as int, b as int).id == id,
{
    assert(before.vacant(a as int, b as int));
}

/// A world ends at its edges: outside everything is solid, and there is
/// neither liquid nor platform nor room.
pub proof fn law_worlds_end_at_their_edges(g: Grid, x: int, y: int)
    ensures
        x < 0 || y < 0 || x >= g.width || y >= g.height ==> g.solid(x, y) && !g.platform(x, y)
            && !g.vacant(x, y) && g.liquid(x, y) is Empty,
        0 <= x < g.width && 0 <= y < g.height ==> (g.solid(x, y) <==> g.at(x, y).solid()) && (
        g.platform(x, y) <==> g.at(x, y).id == TileId::Platform) && (g.vacant(x, y) <==> g.at(
            x,
            y,
        ).id == TileId::Air) && g.liquid(x, y) == g.at(x, y).liquid,
{
}

/// An object fills its box, each cell with its own part, and keeps the walls
/// and liquids there; around it nothing changes.
pub proof fn law_objects_fill_their_box(
    before: Grid,
    after: Grid,
    id: TileId,
    x: int,
    y: int,
    w: int,
    h: int,
    a: int,
    b: int,
)
    requires
        with_object(before, after, id, x, y, w, h),
        before.inside(a, b),
        w <= 256 && h <= 256,
    ensures
        x <= a < x + w && y <= b < y + h ==> {
            &&& after.at(a, b).id == id
            &&& after.at(a, b).state.part_x == a - x
            &&& after.at(a, b).state.part_y == b - y
            &&& after.at(a, b).wall == before.at(a, b).wall
            &&& after.at(a, b).liquid == before.at(a, b).liquid
        },
        a < x || a >= x + w || b < y || b >= y + h ==> after.at(a, b) == before.at(a, b),
{
    assert(after.at(a, b) == after.at(a, b));
}

/// Room for an object is a box of cells inside of the world without foreground.
pub proof fn law_boxes_are_vacant_cell_by_cell(g: Grid, x: int, y: int, w: int, h: int, a: int, b: int)
    ensures
        box_vacant(g, x, y, w, h) && x <= a < x + w && y <= b < y + h ==> g.inside(a, b) && g.at(
            a,
            b,
        ).id == TileId::Air,
        x <= a < x + w && y <= b < y + h && (!g.inside(a, b) || g.at(a, b).id != TileId::Air)
            ==> !box_vacant(g, x, y, w, h),
{
    if x <= a < x + w && y <= b < y + h {
        assert(in_box(x, y, w, h, a, b));
    }
}

} // verus!
