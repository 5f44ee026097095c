//! Overview pictures of worlds: the color of every cell, smaller copies, and
//! parts.

use vstd::prelude::*;

use crate::grid::{Grid, World};
use crate::tile::{Liquid, LiquidKind, Tile, TileId, TileState, WallId, TREE_SEGMENT_TOP};

verus! {

/// A color: red, green, blue.
pub type Rgb = (u8, u8, u8);

/// The state of the topmost cell of a tree.
pub open spec fn treetop() -> TileState {
    TileState { variant: TREE_SEGMENT_TOP, ..TileState::spec_clear() }
}

/// The color of a foreground.
pub open spec fn foreground(id: TileId, state: TileState) -> Rgb {
    match id {
        TileId::Air => (0, 0, 0),
        TileId::Dirt => (120, 80, 48),
        TileId::Stone => (115, 115, 122),
        TileId::Grass => (60, 170, 60),
        TileId::Sand => (212, 192, 120),
        TileId::Clay => (168, 105, 76),
        TileId::WoodPlank => (150, 112, 70),
        TileId::CopperOre => (205, 115, 60),
        TileId::IronOre => (195, 165, 145),
        TileId::SilverOre => (215, 215, 225),
        TileId::GoldOre => (235, 195, 60),
        TileId::Hellstone => (220, 70, 40),
        TileId::Obsidian => (80, 40, 120),
        TileId::Ash => (75, 70, 78),
        TileId::StoneBrick => (135, 135, 140),
        TileId::EmberBrick => (150, 55, 45),
        TileId::Torch => (255, 220, 120),
        TileId::Platform => (170, 130, 80),
        TileId::Door => (140, 100, 60),
        TileId::Chest => (255, 170, 30),
        TileId::Workbench => (150, 110, 70),
        TileId::Furnace => (120, 90, 80),
        TileId::Anvil => (90, 90, 95),
        TileId::InfernalForge => (255, 120, 40),
        TileId::RitualAltar => (190, 60, 200),
        TileId::Table | TileId::Chair | TileId::Bed => (150, 110, 70),
        TileId::Pot => (185, 130, 85),
        TileId::LifeCrystal => (255, 60, 130),
        TileId::Cobweb => (225, 225, 225),
        TileId::Sapling => (95, 175, 95),
        TileId::TreeTrunk => if state == treetop() {
            (40, 130, 45)
        } else {
            (105, 78, 48)
        },
    }
}

/// The color of an open cell: its liquid, deeper where there is more of it,
/// else its wall, else the sky, or the dark of the underworld.
pub open spec fn backdrop(t: Tile, underworld: bool) -> Rgb {
    match t.liquid {
        Liquid::Filled { kind: LiquidKind::Water, level } => (
            20,
            (40 + 10 * level) as u8,
            (140 + 12 * level) as u8,
        ),
        Liquid::Filled { kind: LiquidKind::Lava, level } => (
            (180 + 8 * level) as u8,
            (60 + 4 * level) as u8,
            10,
        ),
        Liquid::Empty => match t.wall {
            WallId::Dirt => (62, 44, 30),
            WallId::Stone => (42, 42, 50),
            WallId::Wood => (80, 62, 40),
            WallId::Air => if underworld {
                (28, 12, 12)
            } else {
                (135, 206, 235)
            },
        },
    }
}

/// The color of a cell: what is in front hides what is behind.
pub open spec fn spec_pixel(t: Tile, underworld: bool) -> Rgb {
    if t.id == TileId::Air {
        backdrop(t, underworld)
    } else {
        foreground(t.id, t.state)
    }
}

/// The first row of the underworld in a world of this height.
pub fn hell_top(height: u32) -> (row: u32)
    ensures
        row == height * 1000 / 1200,
        6 * row <= 5 * height < 6 * row + 6,
{
    (height as u64 * 1000 / 1200) as u32
}

fn foreground_color(id: TileId, state: TileState) -> (c: Rgb)
    ensures
        c == foreground(id, state),
{
    match id {
        TileId::Air => (0, 0, 0),
        TileId::Dirt => (120, 80, 48),
        TileId::Stone => (115, 115, 122),
        TileId::Grass => (60, 170, 60),
        TileId::Sand => (212, 192, 120),
        TileId::Clay => (168, 105, 76),
        TileId::WoodPlank => (150, 112, 70),
        TileId::CopperOre => (205, 115, 60),
        TileId::IronOre => (195, 165, 145),
        TileId::SilverOre => (215, 215, 225),
        TileId::GoldOre => (235, 195, 60),
        TileId::Hellstone => (220, 70, 40),
        TileId::Obsidian => (80, 40, 120),
        TileId::Ash => (75, 70, 78),
        TileId::StoneBrick => (135, 135, 140),
        TileId::EmberBrick => (150, 55, 45),
        TileId::Torch => (255, 220, 120),
        TileId::Platform => (170, 130, 80),
        TileId::Door => (140, 100, 60),
        TileId::Chest => (255, 170, 30),
        TileId::Workbench => (150, 110, 70),
        TileId::Furnace => (120, 90, 80),
        TileId::Anvil => (90, 90, 95),
        TileId::InfernalForge => (255, 120, 40),
        TileId::RitualAltar => (190, 60, 200),
        TileId::Table | TileId::Chair | TileId::Bed => (150, 110, 70),
        TileId::Pot => (185, 130, 85),
        TileId::LifeCrystal => (255, 60, 130),
        TileId::Cobweb => (225, 225, 225),
        TileId::Sapling => (95, 175, 95),
        TileId::TreeTrunk => if state.part_x == 0 && state.part_y == 0 && state.variant
            == TREE_SEGMENT_TOP && !state.door_open && !state.door_open_left && !state.wall_placed {
            (40, 130, 45)
        } else {
            (105, 78, 48)
        },
    }
}

/// The color of the cell at `(x, y)`; rows from `hell_top` on lie in the
/// underworld.
pub fn pixel(world: &World, x: u32, y: u32, hell_top: u32) -> (c: Rgb)
    requires
        world.wf(),
        x < world.width,
        y < world.height,
    ensures
        c == spec_pixel(world@.at(x as int, y as int), y >= hell_top),
{
    let t = world.tile(x, y);
    if t.id != TileId::Air {
        return foreground_color(t.id, t.state);
    }
    match t.liquid {
        Liquid::Filled { kind: LiquidKind::Water, level } => (
            20,
            40 + 10 * level,
            140 + 12 * level,
        ),
        Liquid::Filled { kind: LiquidKind::Lava, level } => (180 + 8 * level, 60 + 4 * level, 10),
        Liquid::Empty => match t.wall {
            WallId::Dirt => (62, 44, 30),
            WallId::Stone => (42, 42, 50),
            WallId::Wood => (80, 62, 40),
            WallId::Air => if y >= hell_top {
                (28, 12, 12)
            } else {
                (135, 206, 235)
            },
        },
    }
}

/// A picture: three bytes for each cell, row by row.
pub struct Picture {
    pub width: u32,
    pub height: u32,
    pub bytes: Vec<u8>,
}

impl Picture {
    pub open spec fn wf(self) -> bool {
        self.bytes@.len() == 3 * (self.width * self.height)
    }

    /// The color at column `x`, row `y`.
    pub open spec fn color(self, x: int, y: int) -> Rgb {
        color_of(self.bytes@, self.width as int, x, y)
    }
}

/// The color at column `x`, row `y` of a picture `width` cells wide.
pub open spec fn color_of(bytes: Seq<u8>, width: int, x: int, y: int) -> Rgb {
    let i = 3 * (y * width + x);
    (bytes[i], bytes[i + 1], bytes[i + 2])
}

/// The cell at `(a, b)` is drawn among the first bytes.
pub open spec fn drawn(bytes: Seq<u8>, g: Grid, w: int, top: int, a: int, b: int) -> bool {
    &&& 0 <= b * w + a
    &&& 3 * (b * w + a) + 2 < bytes.len()
    &&& color_of(bytes, w, a, b) == spec_pixel(g.at(a, b), b >= top)
}

/// Draws a whole world, one dot for each cell.
pub fn render(world: &World) -> (p: Picture)
    requires
        world.wf(),
        3 * (world.width * world.height) <= usize::MAX,
    ensures
        p.wf(),
        p.width == world.width,
        p.height == world.height,
        forall|x: int, y: int|
            world@.inside(x, y) ==> #[trigger] p.color(x, y) == spec_pixel(
                world@.at(x, y),
                y >= world.height * 1000 / 1200,
            ),
{
    let top: u32 = hell_top(world.height);
    let ghost g = world@;
    let ghost w = world.width as int;
    let mut bytes: Vec<u8> = Vec::new();
    let mut y: u32 = 0;
    while y < world.height
        invariant
            world.wf(),
            g == world@,
            w == world.width,
            top == world.height * 1000 / 1200,
            y <= world.height,
            bytes.len() == 3 * (y * w),
            forall|a: int, b: int|
                0 <= a < w && 0 <= b < y ==> #[trigger] drawn(bytes@, g, w, top as int, a, b),
        decreases world.height - y,
    {
        let mut x: u32 = 0;
        while x < world.width
            invariant
                world.wf(),
                g == world@,
                w == world.width,
                top == world.height * 1000 / 1200,
                y < world.height,
                x <= world.width,
                bytes.len() == 3 * (y * w + x),
                forall|a: int, b: int|
                    0 <= a < w && 0 <= b && (b < y || (b == y && a < x)) ==> #[trigger] drawn(
                        bytes@,
                        g,
                        w,
                        top as int,
                        a,
                        b,
                    ),
            decreases world.width - x,
        {
            let ghost before = bytes@;
            let (r, g0, b0): Rgb = pixel(world, x, y, top);
            bytes.push(r);
            bytes.push(g0);
            bytes.push(b0);
            proof {
                assert(0 <= y * w) by (nonlinear_arith)
                    requires
                        0 <= w,
                        0 <= y,
                ;
                assert forall|a: int, b: int|
                    0 <= a < w && 0 <= b && (b < y || (b == y && a < x
                        + 1)) implies #[trigger] drawn(bytes@, g, w, top as int, a, b) by {
                    if b < y || a < x {
                        assert(drawn(before, g, w, top as int, a, b));
                    }
                }
            }
            x = x + 1;
        }
        y = y + 1;
        assert(bytes.len() == 3 * (y * w)) by (nonlinear_arith)
            requires
                bytes.len() == 3 * ((y - 1) * w + w),
        ;
    }
    assert(y * w == world.width * world.height) by (nonlinear_arith)
        requires
            y == world.height,
            w == world.width,
    ;
    let p = Picture { width: world.width, height: world.height, bytes };
    assert forall|a: int, b: int| world@.inside(a, b) implies #[trigger] p.color(a, b)
        == spec_pixel(world@.at(a, b), b >= world.height * 1000 / 1200) by {
        assert(drawn(bytes@, g, w, top as int, a, b));
    }
    p
}

/// What `image::imageops::resize` makes of a picture of size `w` by `h` with
/// its nearest filter, for the size `nw` by `nh`.
pub uninterp spec fn resized(bytes: Seq<u8>, w: u32, h: u32, nw: u32, nh: u32) -> Seq<u8>;

/// Every dot of `r` is a dot of `p`.
pub open spec fn dots_from(r: Picture, p: Picture) -> bool {
    forall|x: int, y: int|
        0 <= x < r.width && 0 <= y < r.height ==> exists|a: int, b: int|
            0 <= a < p.width && 0 <= b < p.height && #[trigger] p.color(a, b)
                == #[trigger] r.color(x, y)
}

/// The picture at another size, by `image::imageops::resize` with its nearest
/// filter. The result has the size asked for, and each of its dots is a dot of
/// the picture. Which one is left to the outside function, that computes it in
/// fractions of a dot. Its buffers take sixteen bytes for each dot, so the size
/// is limited to what every machine can address.
#[verifier::external_body]
fn resize_nearest(p: &Picture, nw: u32, nh: u32) -> (r: Picture)
    requires
        p.wf(),
        p.width > 0,
        p.height > 0,
        nw <= p.width,
        nh <= p.height,
        p.width * p.height <= 0x400_0000,
    ensures
        r.wf(),
        r.width == nw,
        r.height == nh,
        r.bytes@ == resized(p.bytes@, p.width, p.height, nw, nh),
        dots_from(r, *p),
{
    let img = image::RgbImage::from_raw(p.width, p.height, p.bytes.clone()).unwrap_or_default();
    let small = image::imageops::resize(&img, nw, nh, image::imageops::FilterType::Nearest);
    Picture { width: nw, height: nh, bytes: small.into_raw() }
}

/// What is left of a span of `len` from `at` on in `whole`.
pub open spec fn cut_len(at: u32, len: u32, whole: u32) -> int {
    if at >= whole {
        0
    } else if at + len <= whole {
        len as int
    } else {
        whole - at
    }
}

/// `r` holds the dots of `p` from column `x`, row `y` on, `w` by `h` of them as
/// far as `p` reaches.
pub open spec fn part_of(r: Picture, p: Picture, x: u32, y: u32, w: u32, h: u32) -> bool {
    &&& r.wf()
    &&& r.width == cut_len(x, w, p.width)
    &&& r.height == cut_len(y, h, p.height)
    &&& forall|a: int, b: int|
        0 <= a < r.width && 0 <= b < r.height ==> #[trigger] r.color(a, b) == p.color(x + a, y + b)
}

/// A part of a picture, by `image::imageops::crop_imm`: the dots from column
/// `x`, row `y` on, as far as the picture reaches.
#[verifier::external_body]
fn crop_picture(p: &Picture, x: u32, y: u32, w: u32, h: u32) -> (r: Picture)
    requires
        p.wf(),
    ensures
        part_of(r, *p, x, y, w, h),
{
    let img = image::RgbImage::from_raw(p.width, p.height, p.bytes.clone()).unwrap_or_default();
    let part = image::imageops::crop_imm(&img, x, y, w, h).to_image();
    Picture { width: part.width(), height: part.height(), bytes: part.into_raw() }
}

/// The picture at one `n`th of its size, where that is smaller at all.
pub fn shrink(p: &Picture, n: Option<u32>) -> (r: Option<Picture>)
    requires
        p.wf(),
        p.width > 0,
        p.height > 0,
        p.width * p.height <= 0x400_0000,
    ensures
        r is Some <==> n is Some && n->Some_0 > 1,
        r matches Some(small) ==> {
            let (nw, nh) = ((p.width / n->Some_0) as u32, (p.height / n->Some_0) as u32);
            &&& small.wf()
            &&& small.width == nw
            &&& small.height == nh
            &&& small.bytes@ == resized(p.bytes@, p.width, p.height, nw, nh)
            &&& dots_from(small, *p)
        },
{
    match n {
        Some(n) => if n > 1 {
            proof {
                assert(p.width / n <= p.width && p.height / n <= p.height) by (nonlinear_arith)
                    requires
                        n > 1,
                ;
            }
            Some(resize_nearest(p, p.width / n, p.height / n))
        } else {
            None
        },
        None => None,
    }
}

/// The parts of a picture that were asked for, in order.
pub fn cut(p: &Picture, crops: &Vec<(u32, u32, u32, u32)>) -> (parts: Vec<Picture>)
    requires
        p.wf(),
    ensures
        parts.len() == crops.len(),
        forall|i: int|
            0 <= i < crops.len() ==> {
                let (x, y, w, h) = crops@[i];
                part_of(#[trigger] parts@[i], *p, x, y, w, h)
            },
{
    let mut parts: Vec<Picture> = Vec::new();
    let mut i: usize = 0;
    while i < crops.len()
        invariant
            p.wf(),
            i <= crops.len(),
            parts.len() == i,
            forall|k: int|
                0 <= k < i ==> {
                    let (x, y, w, h) = crops@[k];
                    part_of(#[trigger] parts@[k], *p, x, y, w, h)
                },
        decreases crops.len() - i,
    {
        let (x, y, w, h) = crops[i];
        parts.push(crop_picture(p, x, y, w, h));
        i = i + 1;
    }
    parts
}

/// What stands in front is seen; behind air the liquid, else the wall, else
/// the sky, which is dark in the underworld.
pub proof fn law_pictures_show_what_is_in_front(t: Tile, underworld: bool)
    ensures
        t.id != TileId::Air ==> spec_pixel(t, underworld) == foreground(t.id, t.state),
        t.id == TileId::Air && t.liquid is Empty && t.wall == WallId::Air && !underworld
            ==> spec_pixel(t, underworld) == (135u8, 206u8, 235u8),
        t.id == TileId::Air && t.liquid is Empty && t.wall == WallId::Air && underworld
            ==> spec_pixel(t, underworld) == (28u8, 12u8, 12u8),
        t.id == TileId::Air && t.liquid is Empty && t.wall != WallId::Air ==> spec_pixel(t, true)
            == spec_pixel(t, false),
        t.id == TileId::Air && t.liquid is Filled ==> spec_pixel(t, true) == spec_pixel(t, false),
        t.id == TileId::Air && t.liquid is Filled && t.wf() && t.liquid->kind == LiquidKind::Water
            ==> spec_pixel(t, underworld).2 > spec_pixel(t, underworld).1 && spec_pixel(
            t,
            underworld,
        ).1 > spec_pixel(t, underworld).0,
        t.id == TileId::Air && t.liquid is Filled && t.wf() && t.liquid->kind == LiquidKind::Lava
            ==> spec_pixel(t, underworld).0 > spec_pixel(t, underworld).1 && spec_pixel(
            t,
            underworld,
        ).1 > spec_pixel(t, underworld).2,
{
}

/// The more liquid, the brighter.
pub proof fn law_full_cells_are_brighter(t: Tile, u: Tile, underworld: bool)
    requires
        t.id == TileId::Air && u.id == TileId::Air,
        t.wf() && u.wf(),
        t.liquid is Filled && u.liquid is Filled,
        t.liquid->kind == u.liquid->kind,
        t.liquid->level < u.liquid->level,
    ensures
        spec_pixel(t, underworld).1 < spec_pixel(u, underworld).1,
{
}

/// Tiles can be told apart by their colours, but for furniture of wood; the
/// layers of the ground have those of earth, stone and ash.
pub proof fn law_tiles_have_their_colours(a: TileId, b: TileId, s: TileState)
    requires
        a != b,
        a != TileId::Table && a != TileId::Chair && a != TileId::Bed && a != TileId::Workbench,
        b != TileId::Table && b != TileId::Chair && b != TileId::Bed && b != TileId::Workbench,
    ensures
        foreground(a, s) != foreground(b, s),
        foreground(TileId::Grass, s).1 > foreground(TileId::Grass, s).0,
        foreground(TileId::Dirt, s) == (120u8, 80u8, 48u8),
        foreground(TileId::Stone, s) == (115u8, 115u8, 122u8),
        foreground(TileId::Sand, s) == (212u8, 192u8, 120u8),
        foreground(TileId::Ash, s) == (75u8, 70u8, 78u8),
{
}

/// A cut takes as much as there is of what was asked for.
pub proof fn law_cuts_end_with_the_picture(at: u32, len: u32, whole: u32)
    ensures
        cut_len(at, len, whole) <= len,
        at < whole ==> at + cut_len(at, len, whole) <= whole,
        at + len <= whole ==> cut_len(at, len, whole) == len,
        at >= whole ==> cut_len(at, len, whole) == 0,
        at < whole && at + len > whole ==> at + cut_len(at, len, whole) == whole,
{
}

/// Each tile is painted in its own colour; the tops of trees are green and their trunks brown.
pub proof fn law_tiles_are_painted(id: TileId, s: TileState)
    ensures
        ({
            let c = foreground(id, s);
            let n = c.0 * 0x1_0000 + c.1 * 0x100 + c.2;
            &&& id == TileId::Air ==> n == 0x000000
            &&& id == TileId::Dirt ==> n == 0x785030
            &&& id == TileId::Stone ==> n == 0x73737a
            &&& id == TileId::Grass ==> n == 0x3caa3c
            &&& id == TileId::Sand ==> n == 0xd4c078
            &&& id == TileId::Clay ==> n == 0xa8694c
            &&& id == TileId::WoodPlank ==> n == 0x967046
            &&& id == TileId::CopperOre ==> n == 0xcd733c
            &&& id == TileId::IronOre ==> n == 0xc3a591
            &&& id == TileId::SilverOre ==> n == 0xd7d7e1
            &&& id == TileId::GoldOre ==> n == 0xebc33c
            &&& id == TileId::Hellstone ==> n == 0xdc4628
            &&& id == TileId::Obsidian ==> n == 0x502878
            &&& id == TileId::Ash ==> n == 0x4b464e
            &&& id == TileId::StoneBrick ==> n == 0x87878c
            &&& id == TileId::EmberBrick ==> n == 0x96372d
            &&& id == TileId::Torch ==> n == 0xffdc78
            &&& id == TileId::Platform ==> n == 0xaa8250
            &&& id == TileId::Door ==> n == 0x8c643c
            &&& id == TileId::Chest ==> n == 0xffaa1e
            &&& id == TileId::Workbench ==> n == 0x966e46
            &&& id == TileId::Furnace ==> n == 0x785a50
            &&& id == TileId::Anvil ==> n == 0x5a5a5f
            &&& id == TileId::InfernalForge ==> n == 0xff7828
            &&& id == TileId::RitualAltar ==> n == 0xbe3cc8
            &&& id == TileId::Bed ==> n == 0x966e46
            &&& id == TileId::Pot ==> n == 0xb98255
            &&& id == TileId::LifeCrystal ==> n == 0xff3c82
            &&& id == TileId::Cobweb ==> n == 0xe1e1e1
            &&& id == TileId::Sapling ==> n == 0x5faf5f
            &&& id == TileId::Table || id == TileId::Chair || id == TileId::Bed ==> n == 0x966e46
            &&& id == TileId::TreeTrunk ==> n == 0x28822d || n == 0x694e30
            &&& id == TileId::TreeTrunk && s.variant != TREE_SEGMENT_TOP ==> n == 0x694e30
            &&& id == TileId::TreeTrunk && s == treetop() ==> n == 0x28822d
        }),
{
}

/// Behind air a wall shows in the colour of what it is made of, dry or not at all; water gets
/// bluer and lava redder with every level.
pub proof fn law_backgrounds_are_painted(t: Tile, underworld: bool)
    requires
        t.wf(),
        t.id == TileId::Air,
    ensures
        ({
            let c = spec_pixel(t, underworld);
            let n = c.0 * 0x1_0000 + c.1 * 0x100 + c.2;
            let level = t.liquid.spec_level();
            &&& t.liquid is Empty && t.wall == WallId::Dirt ==> n == 0x3e2c1e
            &&& t.liquid is Empty && t.wall == WallId::Stone ==> n == 0x2a2a32
            &&& t.liquid is Empty && t.wall == WallId::Wood ==> n == 0x503e28
            &&& t.liquid is Filled && t.liquid->kind is Water ==> c.0 == 20 && c.1 - 40 == 10
                * level && c.2 - 140 == 12 * level
            &&& t.liquid is Filled && t.liquid->kind is Lava ==> c.0 - 180 == 8 * level && c.1 - 60
                == 4 * level && c.2 == 10
        }),
{
}

} // verus!
