//! What a cell of the world looks like, as shapes in parts of a cell, and the
//! colors of tiles, walls and items.

use vstd::prelude::*;

use crate::grid::{Grid, World};
use crate::sim::clock::DAY_TICKS;
use crate::tile::{
    LiquidKind, Tile, TileId, WallId, GRASS_MUSHROOM, TREE_SEGMENT_TOP,
};

verus! {

/// Red, green and blue.
#[derive(Debug, Clone, Copy, PartialEq, Eq, Structural)]
pub struct Rgb {
    pub r: u8,
    pub g: u8,
    pub b: u8,
}

pub open spec fn rgb(r: u8, g: u8, b: u8) -> Rgb {
    Rgb { r, g, b }
}

/// The color of a tile.
pub open spec fn spec_tile_color(id: TileId) -> Rgb {
    match id {
        TileId::Air => rgb(0, 0, 0),
        TileId::Dirt => rgb(139, 96, 60),
        TileId::Stone => rgb(128, 128, 130),
        TileId::Grass => rgb(66, 160, 66),
        TileId::Sand => rgb(212, 200, 142),
        TileId::Clay => rgb(158, 90, 74),
        TileId::WoodPlank => rgb(170, 124, 86),
        TileId::CopperOre => rgb(196, 116, 62),
        TileId::IronOre => rgb(180, 152, 138),
        TileId::SilverOre => rgb(215, 222, 230),
        TileId::GoldOre => rgb(232, 196, 66),
        TileId::Hellstone => rgb(186, 60, 42),
        TileId::Obsidian => rgb(64, 44, 94),
        TileId::Ash => rgb(96, 88, 88),
        TileId::StoneBrick => rgb(110, 112, 120),
        TileId::EmberBrick => rgb(158, 76, 54),
        TileId::Torch => rgb(255, 200, 90),
        TileId::Platform => rgb(186, 144, 92),
        TileId::Door => rgb(132, 94, 58),
        TileId::Chest => rgb(168, 116, 62),
        TileId::Workbench => rgb(158, 110, 72),
        TileId::Furnace => rgb(98, 98, 110),
        TileId::Anvil => rgb(76, 76, 86),
        TileId::InfernalForge => rgb(150, 64, 52),
        TileId::RitualAltar => rgb(130, 48, 132),
        TileId::Table => rgb(158, 110, 72),
        TileId::Chair => rgb(158, 110, 72),
        TileId::Bed => rgb(188, 70, 82),
        TileId::Pot => rgb(176, 126, 84),
        TileId::LifeCrystal => rgb(236, 70, 100),
        TileId::Cobweb => rgb(235, 235, 240),
        TileId::Sapling => rgb(104, 176, 70),
        TileId::TreeTrunk => rgb(118, 86, 56),
    }
}

pub fn tile_color(id: TileId) -> (c: Rgb)
    ensures
        c == spec_tile_color(id),
{
    match id {
        TileId::Air => Rgb { r: 0, g: 0, b: 0 },
        TileId::Dirt => Rgb { r: 139, g: 96, b: 60 },
        TileId::Stone => Rgb { r: 128, g: 128, b: 130 },
        TileId::Grass => Rgb { r: 66, g: 160, b: 66 },
        TileId::Sand => Rgb { r: 212, g: 200, b: 142 },
        TileId::Clay => Rgb { r: 158, g: 90, b: 74 },
        TileId::WoodPlank => Rgb { r: 170, g: 124, b: 86 },
        TileId::CopperOre => Rgb { r: 196, g: 116, b: 62 },
        TileId::IronOre => Rgb { r: 180, g: 152, b: 138 },
        TileId::SilverOre => Rgb { r: 215, g: 222, b: 230 },
        TileId::GoldOre => Rgb { r: 232, g: 196, b: 66 },
        TileId::Hellstone => Rgb { r: 186, g: 60, b: 42 },
        TileId::Obsidian => Rgb { r: 64, g: 44, b: 94 },
        TileId::Ash => Rgb { r: 96, g: 88, b: 88 },
        TileId::StoneBrick => Rgb { r: 110, g: 112, b: 120 },
        TileId::EmberBrick => Rgb { r: 158, g: 76, b: 54 },
        TileId::Torch => Rgb { r: 255, g: 200, b: 90 },
        TileId::Platform => Rgb { r: 186, g: 144, b: 92 },
        TileId::Door => Rgb { r: 132, g: 94, b: 58 },
        TileId::Chest => Rgb { r: 168, g: 116, b: 62 },
        TileId::Workbench => Rgb { r: 158, g: 110, b: 72 },
        TileId::Furnace => Rgb { r: 98, g: 98, b: 110 },
        TileId::Anvil => Rgb { r: 76, g: 76, b: 86 },
        TileId::InfernalForge => Rgb { r: 150, g: 64, b: 52 },
        TileId::RitualAltar => Rgb { r: 130, g: 48, b: 132 },
        TileId::Table => Rgb { r: 158, g: 110, b: 72 },
        TileId::Chair => Rgb { r: 158, g: 110, b: 72 },
        TileId::Bed => Rgb { r: 188, g: 70, b: 82 },
        TileId::Pot => Rgb { r: 176, g: 126, b: 84 },
        TileId::LifeCrystal => Rgb { r: 236, g: 70, b: 100 },
        TileId::Cobweb => Rgb { r: 235, g: 235, b: 240 },
        TileId::Sapling => Rgb { r: 104, g: 176, b: 70 },
        TileId::TreeTrunk => Rgb { r: 118, g: 86, b: 56 },
    }
}

/// The color of a wall.
pub open spec fn spec_wall_color(id: WallId) -> Rgb {
    match id {
        WallId::Air => rgb(0, 0, 0),
        WallId::Dirt => rgb(92, 64, 44),
        WallId::Stone => rgb(72, 72, 78),
        WallId::Wood => rgb(116, 86, 60),
    }
}

pub fn wall_color(id: WallId) -> (c: Rgb)
    ensures
        c == spec_wall_color(id),
{
    match id {
        WallId::Air => Rgb { r: 0, g: 0, b: 0 },
        WallId::Dirt => Rgb { r: 92, g: 64, b: 44 },
        WallId::Stone => Rgb { r: 72, g: 72, b: 78 },
        WallId::Wood => Rgb { r: 116, g: 86, b: 60 },
    }
}

// ---- Hashes ----------------------------------------------------------------

/// Scatters the numbers of stars over the sky.
pub open spec fn spec_star_hash(i: u32) -> u32 {
    let h = (((i * 0x9E37_79B9) % 0x1_0000_0000) as u32) ^ 0x5BD1_E995u32;
    let h = h ^ (h >> 13u32);
    let h = ((h * 0xC2B2_AE35) % 0x1_0000_0000) as u32;
    h ^ (h >> 16u32)
}

pub fn star_hash(i: u32) -> (h: u32)
    ensures
        h == spec_star_hash(i),
{
    let h: u32 = i.wrapping_mul(0x9E37_79B9) ^ 0x5BD1_E995;
    let h: u32 = h ^ (h >> 13);
    let h: u32 = h.wrapping_mul(0xC2B2_AE35);
    h ^ (h >> 16)
}

/// Scatters positions; the low byte shades a cell.
pub open spec fn spec_cell_hash(x: u32, y: u32) -> u32 {
    let h = (((x * 0x9E37_79B9) % 0x1_0000_0000) as u32) ^ (((y * 0x85EB_CA6B)
        % 0x1_0000_0000) as u32);
    let h = h ^ (h >> 13u32);
    let h = ((h * 0xC2B2_AE35) % 0x1_0000_0000) as u32;
    h ^ (h >> 16u32)
}

/// How a cell is shaded, of 255.
pub fn brightness(x: u32, y: u32) -> (b: u8)
    ensures
        b == (spec_cell_hash(x, y) & 0xffu32) as u8,
{
    let h: u32 = x.wrapping_mul(0x9E37_79B9) ^ y.wrapping_mul(0x85EB_CA6B);
    let h: u32 = h ^ (h >> 13);
    let h: u32 = h.wrapping_mul(0xC2B2_AE35);
    let h: u32 = h ^ (h >> 16);
    assert((h & 0xffu32) <= 0xff) by (bit_vector);
    (h & 0xff) as u8
}

pub open spec fn spec_item_hash(n: u32) -> u32 {
    let h = ((n * 0x9E37_79B9) % 0x1_0000_0000) as u32;
    h ^ (h >> 15u32)
}

/// The bytes that make the color of an item that has number `n`.
pub fn item_color(n: u32) -> (c: Rgb)
    ensures
        c == (Rgb {
            r: (spec_item_hash(n) & 0xffu32) as u8,
            g: ((spec_item_hash(n) >> 8u32) & 0xffu32) as u8,
            b: ((spec_item_hash(n) >> 16u32) & 0xffu32) as u8,
        }),
{
    let h: u32 = n.wrapping_mul(0x9E37_79B9);
    let h: u32 = h ^ (h >> 15);
    assert((h & 0xffu32) <= 0xff) by (bit_vector);
    assert(((h >> 8u32) & 0xffu32) <= 0xff) by (bit_vector);
    assert(((h >> 16u32) & 0xffu32) <= 0xff) by (bit_vector);
    Rgb { r: (h & 0xff) as u8, g: ((h >> 8) & 0xff) as u8, b: ((h >> 16) & 0xff) as u8 }
}

// ---- The sky ---------------------------------------------------------------

/// What crosses the sky, and how far it is: `done` of `whole` ticks.
#[derive(Debug, Clone, Copy, PartialEq, Eq, Structural)]
pub struct Orb {
    pub sun: bool,
    pub done: u32,
    pub whole: u32,
}

/// The sun from dawn to dusk, and the moon across midnight.
pub fn orb_at(time: u32, dawn: u32, dusk: u32) -> (o: Orb)
    requires
        dawn < dusk < DAY_TICKS,
        time < DAY_TICKS,
    ensures
        o.sun == (dawn <= time < dusk),
        o.sun ==> o.done == time - dawn && o.whole == dusk - dawn,
        !o.sun ==> o.done == (time + DAY_TICKS - dusk) % (DAY_TICKS as int) && o.whole == DAY_TICKS
            - (dusk - dawn),
        o.done < o.whole,
        time == dawn ==> o.sun && o.done == 0,
        time == dusk ==> !o.sun && o.done == 0,
        time > dusk ==> !o.sun && o.done == time - dusk,
        time < dawn ==> !o.sun && o.done == time + (86_400 - dusk),
        o.sun ==> o.whole == dusk - dawn,
        !o.sun ==> o.whole == 86_400 - dusk + dawn,
{
    if dawn <= time && time < dusk {
        Orb { sun: true, done: time - dawn, whole: dusk - dawn }
    } else {
        Orb {
            sun: false,
            done: (time + DAY_TICKS - dusk) % DAY_TICKS,
            whole: DAY_TICKS - (dusk - dawn),
        }
    }
}

// ---- What is visible -------------------------------------------------------

/// A row or column of cells, ends included.
#[derive(Debug, Clone, Copy, PartialEq, Eq, Structural)]
pub struct Span {
    pub first: u32,
    pub last: u32,
}

/// The cells of a side of `len` cells that are seen when those from `from` to
/// `to` are, and one more at each end.
pub fn visible_span(from: i64, to: i64, len: u32) -> (s: Span)
    requires
        i64::MIN < from,
        to < i64::MAX,
        len > 0,
        from - 1 <= u32::MAX,
    ensures
        s.first == (if from - 1 > 0 {
            from - 1
        } else {
            0
        }),
        s.last == (if to + 1 < 0 {
            0
        } else if to + 1 < len {
            to + 1
        } else {
            len - 1
        }),
        s.last < len,
{
    let first: u32 = if from - 1 > 0 {
        (from - 1) as u32
    } else {
        0
    };
    let last: u32 = if to + 1 < 0 {
        0
    } else if to + 1 < len as i64 {
        (to + 1) as u32
    } else {
        len - 1
    };
    Span { first, last }
}

// ---- Cells -----------------------------------------------------------------

/// How a shape is painted.
#[derive(Debug, Clone, Copy, PartialEq, Eq, Structural)]
pub enum Paint {
    /// A color, at so many hundredths of the cell's shade.
    Shaded { color: Rgb, percent: u8 },
    TorchGlow,
    CrystalGlow,
    Web,
    WaterBody,
    WaterSurface,
    LavaBody,
    LavaSurface,
}

/// A shape. Lengths are thousandths of a cell, from its top left corner.
#[derive(Debug, Clone, Copy, PartialEq, Eq, Structural)]
pub enum Shape {
    Rect { x: i32, y: i32, w: i32, h: i32, paint: Paint },
    Disc { x: i32, y: i32, r: i32, paint: Paint },
    Line { x1: i32, y1: i32, x2: i32, y2: i32, paint: Paint },
    /// The cell but for a margin of one pixel.
    Inset { paint: Paint },
    /// A line of two pixels above the lower margin.
    BaseLine { paint: Paint },
    /// A line of the surface of a liquid, at this height.
    SurfaceLine { y: i32, paint: Paint },
}

pub open spec fn shaded(color: Rgb) -> Paint {
    Paint::Shaded { color, percent: 100 }
}

pub open spec fn rect(x: int, y: int, w: int, h: int, paint: Paint) -> Shape {
    Shape::Rect { x: x as i32, y: y as i32, w: w as i32, h: h as i32, paint }
}

pub open spec fn disc(x: int, y: int, r: int, paint: Paint) -> Shape {
    Shape::Disc { x: x as i32, y: y as i32, r: r as i32, paint }
}

/// The shapes of the foreground of a cell.
pub open spec fn foreground(t: Tile, furniture: bool, height: u8) -> Seq<Shape> {
    let base = shaded(spec_tile_color(t.id));
    match t.id {
        TileId::Air => seq![],
        TileId::Grass => seq![
            rect(0, 0, 1000, 1000, shaded(spec_tile_color(TileId::Dirt))),
            rect(0, 0, 1000, 300, base),
        ] + (if t.state.variant == GRASS_MUSHROOM {
            seq![
                rect(440, -300, 120, 320, shaded(rgb(226, 220, 200))),
                disc(500, -340, 240, shaded(rgb(196, 62, 58))),
            ]
        } else {
            seq![]
        }),
        TileId::Torch => seq![
            rect(450, 350, 120, 550, shaded(rgb(110, 80, 50))),
            disc(500, 280, 220, base),
            disc(500, 280, 1100, Paint::TorchGlow),
        ],
        TileId::Platform => seq![rect(0, 0, 1000, 350, base)],
        TileId::Door => seq![
            if !t.state.door_open {
                rect(150, 0, 700, 1000, base)
            } else if t.state.door_open_left {
                rect(0, 0, 200, 1000, base)
            } else {
                rect(800, 0, 200, 1000, base)
            },
        ],
        TileId::TreeTrunk => if t.state.variant == TREE_SEGMENT_TOP {
            seq![
                rect(350, 500, 300, 500, base),
                disc(500, 350, 850, (Paint::Shaded { color: rgb(52, 132, 58), percent: 85 })),
                disc(500, 150, 600, shaded(rgb(52, 132, 58))),
            ]
        } else {
            seq![rect(300, 0, 400, 1000, base)]
        },
        TileId::Sapling => seq![
            rect(450, 400, 100, 600, shaded(rgb(110, 80, 50))),
            disc(500, 350, 250, base),
        ],
        TileId::Cobweb => seq![
            Shape::Line { x1: 0, y1: 0, x2: 1000, y2: 1000, paint: Paint::Web },
            Shape::Line { x1: 1000, y1: 0, x2: 0, y2: 1000, paint: Paint::Web },
        ],
        TileId::Pot => seq![
            disc(500, 600, 380, base),
            rect(300, 100, 400, 180, shaded(rgb(130, 90, 60))),
        ],
        TileId::LifeCrystal => seq![
            rect(250, 250, 500, 500, base),
            disc(500, 500, 650, Paint::CrystalGlow),
        ],
        _ => if furniture {
            seq![Shape::Inset { paint: base }] + (if t.state.part_y + 1 == height {
                seq![
                    Shape::BaseLine {
                        paint: Paint::Shaded { color: spec_tile_color(t.id), percent: 60 },
                    },
                ]
            } else {
                seq![]
            })
        } else {
            seq![rect(0, 0, 1000, 1000, base)]
        },
    }
}

/// The wall behind, where the foreground does not cover it.
pub open spec fn background(t: Tile) -> Seq<Shape> {
    if t.wall != WallId::Air && !t.solid() {
        seq![
            rect(
                0,
                0,
                1000,
                1000,
                (Paint::Shaded { color: spec_wall_color(t.wall), percent: 55 }),
            ),
        ]
    } else {
        seq![]
    }
}

/// The liquid in front: it fills the cell from below, and where there is none
/// in the cell above, its surface shows.
pub open spec fn overlay(g: Grid, x: int, y: int) -> Seq<Shape> {
    let l = g.at(x, y).liquid;
    let top = 1000 - l.spec_level() * 125;
    match l.spec_kind() {
        None => seq![],
        Some(kind) => {
            let (body, surface) = if kind == LiquidKind::Water {
                (Paint::WaterBody, Paint::WaterSurface)
            } else {
                (Paint::LavaBody, Paint::LavaSurface)
            };
            seq![rect(0, top, 1000, 1000 - top, body)] + (if g.liquid(x, y - 1).spec_kind()
                is None {
                seq![Shape::SurfaceLine { y: top as i32, paint: surface }]
            } else {
                seq![]
            })
        },
    }
}

fn paint_of(color: Rgb, percent: u8) -> (p: Paint)
    ensures
        p == (Paint::Shaded { color, percent }),
{
    Paint::Shaded { color, percent }
}

/// The shapes of the foreground of a cell. `furniture` and `height` tell of
/// its tile.
fn foreground_shapes(t: Tile, furniture: bool, height: u8) -> (out: Vec<Shape>)
    requires
        t.wf(),
    ensures
        out@ == foreground(t, furniture, height),
{
    let base = paint_of(tile_color(t.id), 100);
    let mut out: Vec<Shape> = Vec::new();
    match t.id {
        TileId::Air => {},
        TileId::Grass => {
            let dirt = paint_of(tile_color(TileId::Dirt), 100);
            out.push(Shape::Rect { x: 0, y: 0, w: 1000, h: 1000, paint: dirt });
            out.push(Shape::Rect { x: 0, y: 0, w: 1000, h: 300, paint: base });
            if t.state.variant == GRASS_MUSHROOM {
                let stem = paint_of(Rgb { r: 226, g: 220, b: 200 }, 100);
                let cap = paint_of(Rgb { r: 196, g: 62, b: 58 }, 100);
                out.push(Shape::Rect { x: 440, y: -300, w: 120, h: 320, paint: stem });
                out.push(Shape::Disc { x: 500, y: -340, r: 240, paint: cap });
            }
        },
        TileId::Torch => {
            let stick = paint_of(Rgb { r: 110, g: 80, b: 50 }, 100);
            out.push(Shape::Rect { x: 450, y: 350, w: 120, h: 550, paint: stick });
            out.push(Shape::Disc { x: 500, y: 280, r: 220, paint: base });
            out.push(Shape::Disc { x: 500, y: 280, r: 1100, paint: Paint::TorchGlow });
        },
        TileId::Platform => {
            out.push(Shape::Rect { x: 0, y: 0, w: 1000, h: 350, paint: base });
        },
        TileId::Door => {
            if !t.state.door_open {
                out.push(Shape::Rect { x: 150, y: 0, w: 700, h: 1000, paint: base });
            } else if t.state.door_open_left {
                out.push(Shape::Rect { x: 0, y: 0, w: 200, h: 1000, paint: base });
            } else {
                out.push(Shape::Rect { x: 800, y: 0, w: 200, h: 1000, paint: base });
            }
        },
        TileId::TreeTrunk => {
            if t.state.variant == TREE_SEGMENT_TOP {
                let leaf = Rgb { r: 52, g: 132, b: 58 };
                out.push(Shape::Rect { x: 350, y: 500, w: 300, h: 500, paint: base });
                out.push(Shape::Disc { x: 500, y: 350, r: 850, paint: paint_of(leaf, 85) });
                out.push(Shape::Disc { x: 500, y: 150, r: 600, paint: paint_of(leaf, 100) });
            } else {
                out.push(Shape::Rect { x: 300, y: 0, w: 400, h: 1000, paint: base });
            }
        },
        TileId::Sapling => {
            let stem = paint_of(Rgb { r: 110, g: 80, b: 50 }, 100);
            out.push(Shape::Rect { x: 450, y: 400, w: 100, h: 600, paint: stem });
            out.push(Shape::Disc { x: 500, y: 350, r: 250, paint: base });
        },
        TileId::Cobweb => {
            out.push(Shape::Line { x1: 0, y1: 0, x2: 1000, y2: 1000, paint: Paint::Web });
            out.push(Shape::Line { x1: 1000, y1: 0, x2: 0, y2: 1000, paint: Paint::Web });
        },
        TileId::Pot => {
            let rim = paint_of(Rgb { r: 130, g: 90, b: 60 }, 100);
            out.push(Shape::Disc { x: 500, y: 600, r: 380, paint: base });
            out.push(Shape::Rect { x: 300, y: 100, w: 400, h: 180, paint: rim });
        },
        TileId::LifeCrystal => {
            out.push(Shape::Rect { x: 250, y: 250, w: 500, h: 500, paint: base });
            out.push(Shape::Disc { x: 500, y: 500, r: 650, paint: Paint::CrystalGlow });
        },
        _ => {
            if furniture {
                out.push(Shape::Inset { paint: base });
                if t.state.part_y as u32 + 1 == height as u32 {
                    out.push(Shape::BaseLine { paint: paint_of(tile_color(t.id), 60) });
                }
            } else {
                out.push(Shape::Rect { x: 0, y: 0, w: 1000, h: 1000, paint: base });
            }
        },
    }
    assert(out@ =~= foreground(t, furniture, height));
    out
}

/// All that is drawn of an inside cell, from back to front.
pub fn draw_cell(world: &World, x: u32, y: u32, furniture: bool, height: u8) -> (out: Vec<Shape>)
    requires
        world.wf(),
        world@.inside(x as int, y as int),
    ensures
        out@ == background(world@.at(x as int, y as int)) + foreground(
            world@.at(x as int, y as int),
            furniture,
            height,
        ) + overlay(world@, x as int, y as int),
{
    proof {
        crate::grid::lemma_at_wf(world@, x as int, y as int);
    }
    let t = world.tile(x, y);
    let ghost g = world@;
    let mut out: Vec<Shape> = Vec::new();
    if t.wall != WallId::Air && !t.is_solid() {
        out.push(
            Shape::Rect { x: 0, y: 0, w: 1000, h: 1000, paint: paint_of(wall_color(t.wall), 55) },
        );
    }
    assert(out@ =~= background(t));
    let mut front = foreground_shapes(t, furniture, height);
    out.append(&mut front);
    let ghost so_far = out@;
    match t.liquid.kind() {
        Some(kind) => {
            let top: i32 = 1000 - t.liquid.level() as i32 * 125;
            let water: bool = match kind {
                LiquidKind::Water => true,
                LiquidKind::Lava => false,
            };
            let body: Paint = if water {
                Paint::WaterBody
            } else {
                Paint::LavaBody
            };
            out.push(Shape::Rect { x: 0, y: top, w: 1000, h: 1000 - top, paint: body });
            if world.liquid(x as i32, y as i32 - 1).is_none() {
                let surface: Paint = if water {
                    Paint::WaterSurface
                } else {
                    Paint::LavaSurface
                };
                out.push(Shape::SurfaceLine { y: top, paint: surface });
            }
        },
        None => {},
    }
    assert(out@ =~= so_far + overlay(g, x as int, y as int));
    out
}

/// Nothing is drawn of an empty cell.
pub proof fn law_empty_cells_are_clear(g: Grid, x: int, y: int, furniture: bool, height: u8)
    requires
        g.at(x, y) == Tile::spec_of(TileId::Air),
    ensures
        background(g.at(x, y)) + foreground(g.at(x, y), furniture, height) + overlay(g, x, y)
            == Seq::<Shape>::empty(),
{
    assert(background(g.at(x, y)) + foreground(g.at(x, y), furniture, height) + overlay(g, x, y)
        =~= Seq::<Shape>::empty());
}

// ---- How a figure stands ---------------------------------------------------

/// The legs of a figure.
#[derive(Debug, Clone, Copy, PartialEq, Eq, Structural)]
pub enum Gait {
    Stands,
    /// A step, one of two.
    Walks { first: bool },
    Floats,
}

/// How a figure stands: in the air it floats, on the ground it walks in two
/// steps, one to each half of a cell.
pub fn gait(grounded: bool, walking: bool, half_cell: i64) -> (g: Gait)
    ensures
        g == (if walking && grounded {
            Gait::Walks { first: half_cell % 2 == 0 }
        } else if !grounded {
            Gait::Floats
        } else {
            Gait::Stands
        }),
        g is Floats <==> !grounded,
        g is Walks <==> grounded && walking,
        g is Walks ==> (g->first <==> half_cell % 2 == 0),
{
    if walking && grounded {
        Gait::Walks { first: half_cell % 2 == 0 }
    } else if !grounded {
        Gait::Floats
    } else {
        Gait::Stands
    }
}

/// Every tile has its colour; the furniture of wood shares one.
pub proof fn law_colours_are_told_by_number(id: TileId)
    ensures
        ({
            let c = spec_tile_color(id);
            let n = c.r * 0x1_0000 + c.g * 0x100 + c.b;
            &&& id == TileId::Air <==> n == 0
            &&& id == TileId::Dirt <==> n == 0x8b603c
            &&& id == TileId::Stone <==> n == 0x808082
            &&& id == TileId::Grass <==> n == 0x42a042
            &&& id == TileId::Sand <==> n == 0xd4c88e
            &&& id == TileId::Clay <==> n == 0x9e5a4a
            &&& id == TileId::WoodPlank <==> n == 0xaa7c56
            &&& id == TileId::CopperOre <==> n == 0xc4743e
            &&& id == TileId::IronOre <==> n == 0xb4988a
            &&& id == TileId::SilverOre <==> n == 0xd7dee6
            &&& id == TileId::GoldOre <==> n == 0xe8c442
            &&& id == TileId::Hellstone <==> n == 0xba3c2a
            &&& id == TileId::Obsidian <==> n == 0x402c5e
            &&& id == TileId::Ash <==> n == 0x605858
            &&& id == TileId::StoneBrick <==> n == 0x6e7078
            &&& id == TileId::EmberBrick <==> n == 0x9e4c36
            &&& id == TileId::Torch <==> n == 0xffc85a
            &&& id == TileId::Platform <==> n == 0xba905c
            &&& id == TileId::Door <==> n == 0x845e3a
            &&& id == TileId::Chest <==> n == 0xa8743e
            &&& id == TileId::Workbench || id == TileId::Table || id == TileId::Chair <==> n
                == 0x9e6e48
            &&& id == TileId::Furnace <==> n == 0x62626e
            &&& id == TileId::Anvil <==> n == 0x4c4c56
            &&& id == TileId::InfernalForge <==> n == 0x964034
            &&& id == TileId::RitualAltar <==> n == 0x823084
            &&& id == TileId::Bed <==> n == 0xbc4652
            &&& id == TileId::Pot <==> n == 0xb07e54
            &&& id == TileId::LifeCrystal <==> n == 0xec4664
            &&& id == TileId::Cobweb <==> n == 0xebebf0
            &&& id == TileId::Sapling <==> n == 0x68b046
            &&& id == TileId::TreeTrunk <==> n == 0x765638
        }),
{
}

/// So has every wall.
pub proof fn law_walls_have_their_colours(id: WallId)
    ensures
        ({
            let c = spec_wall_color(id);
            let n = c.r * 0x1_0000 + c.g * 0x100 + c.b;
            &&& id == WallId::Air <==> n == 0
            &&& id == WallId::Dirt <==> n == 0x5c402c
            &&& id == WallId::Stone <==> n == 0x48484e
            &&& id == WallId::Wood <==> n == 0x74563c
        }),
{
}

/// A wall shows, at little more than half its brightness, behind whatever is not solid.
pub proof fn law_walls_show_behind(t: Tile)
    ensures
        t.wall == WallId::Air || t.solid() ==> background(t).len() == 0,
        t.wall != WallId::Air && !t.solid() ==> background(t) == seq![
            (Shape::Rect {
                x: 0,
                y: 0,
                w: 1000,
                h: 1000,
                paint: (Paint::Shaded { color: spec_wall_color(t.wall), percent: 55 }),
            }),
        ],
{
}

/// A liquid stands an eighth of the cell high for each level, and has a surface where no liquid
/// lies on it.
pub proof fn law_liquids_show_their_level(g: Grid, x: int, y: int)
    requires
        g.at(x, y).wf(),
    ensures
        ({
            let l = g.at(x, y).liquid;
            let shown = overlay(g, x, y);
            let top = 1000 - 125 * l.spec_level();
            &&& l.spec_kind() is None <==> shown.len() == 0
            &&& l.spec_kind() is Some ==> shown[0] == (Shape::Rect {
                x: 0,
                y: top as i32,
                w: 1000,
                h: (125 * l.spec_level()) as i32,
                paint: match l.spec_kind()->Some_0 {
                    LiquidKind::Water => Paint::WaterBody,
                    LiquidKind::Lava => Paint::LavaBody,
                },
            })
            &&& l.spec_kind() is Some && g.liquid(x, y - 1).spec_kind() is Some ==> shown.len() == 1
            &&& l.spec_kind() is Some && g.liquid(x, y - 1).spec_kind() is None ==> shown.len()
                == 2 && shown[1] == (Shape::SurfaceLine {
                y: top as i32,
                paint: match l.spec_kind()->Some_0 {
                    LiquidKind::Water => Paint::WaterSurface,
                    LiquidKind::Lava => Paint::LavaSurface,
                },
            })
        }),
{
}

/// A shut door stands in the middle of its cell, an open one at the side it opened to.
pub proof fn law_doors_show_how_they_stand(t: Tile, furniture: bool, height: u8)
    requires
        t.id == TileId::Door,
    ensures
        ({
            let shown = foreground(t, furniture, height);
            &&& shown.len() == 1 && shown[0] is Rect
            &&& shown[0]->Rect_y == 0 && shown[0]->Rect_h == 1000
            &&& !t.state.door_open ==> shown[0]->Rect_x == 150 && shown[0]->Rect_w == 700
            &&& t.state.door_open && t.state.door_open_left ==> shown[0]->Rect_x == 0
                && shown[0]->Rect_w == 200
            &&& t.state.door_open && !t.state.door_open_left ==> shown[0]->Rect_x == 800
                && shown[0]->Rect_w == 200
            &&& shown[0]->Rect_paint == (Paint::Shaded {
                color: Rgb { r: 132, g: 94, b: 58 },
                percent: 100,
            })
        }),
{
}

/// Ground fills its cell; furniture is drawn a little inside it, with a line under its lowest
/// part.
pub proof fn law_ground_fills_its_cell(t: Tile, height: u8)
    requires
        t.id == TileId::Dirt || t.id == TileId::Stone || t.id == TileId::Sand || t.id
            == TileId::Clay || t.id == TileId::Ash || t.id == TileId::GoldOre,
    ensures
        foreground(t, false, height) == seq![
            (Shape::Rect {
                x: 0,
                y: 0,
                w: 1000,
                h: 1000,
                paint: (Paint::Shaded { color: spec_tile_color(t.id), percent: 100 }),
            }),
        ],
        ({
            let c = Tile { id: TileId::Chest, ..t };
            let shown = foreground(c, true, height);
            let paint = |percent: u8|
                Paint::Shaded { color: Rgb { r: 168, g: 116, b: 62 }, percent };
            &&& shown[0] == (Shape::Inset { paint: paint(100) })
            &&& height == t.state.part_y + 1 ==> shown.len() == 2 && shown[1] == (Shape::BaseLine {
                paint: paint(60),
            })
            &&& height != t.state.part_y + 1 ==> shown.len() == 1
        }),
{
}

/// Grass is earth with a green top, and a mushroom stands on it where one has grown; only the top
/// of a tree bears leaves; a torch and a crystal glow.
pub proof fn law_plants_show_what_they_are(t: Tile, furniture: bool, height: u8)
    ensures
        t.id == TileId::Air ==> foreground(t, furniture, height).len() == 0,
        t.id == TileId::Grass ==> {
            let shown = foreground(t, furniture, height);
            &&& shown[0] == (Shape::Rect {
                x: 0,
                y: 0,
                w: 1000,
                h: 1000,
                paint: (Paint::Shaded { color: Rgb { r: 139, g: 96, b: 60 }, percent: 100 }),
            })
            &&& shown[1] == (Shape::Rect {
                x: 0,
                y: 0,
                w: 1000,
                h: 300,
                paint: (Paint::Shaded { color: Rgb { r: 66, g: 160, b: 66 }, percent: 100 }),
            })
            &&& t.state.variant == GRASS_MUSHROOM ==> shown.len() == 4 && shown[3] is Disc
            &&& t.state.variant != GRASS_MUSHROOM ==> shown.len() == 2
        },
        t.id == TileId::TreeTrunk && t.state.variant == TREE_SEGMENT_TOP ==> {
            let shown = foreground(t, furniture, height);
            shown.len() == 3 && shown[1] is Disc && shown[2] is Disc
        },
        t.id == TileId::TreeTrunk && t.state.variant != TREE_SEGMENT_TOP ==> {
            let shown = foreground(t, furniture, height);
            shown.len() == 1 && shown[0] is Rect && shown[0]->Rect_x == 300 && shown[0]->Rect_w
                == 400 && shown[0]->Rect_h == 1000
        },
        t.id == TileId::Platform ==> {
            let shown = foreground(t, furniture, height);
            shown.len() == 1 && shown[0] is Rect && shown[0]->Rect_w == 1000 && shown[0]->Rect_h
                == 350 && shown[0]->Rect_y == 0
        },
        t.id == TileId::Torch ==> {
            let shown = foreground(t, furniture, height);
            shown.len() == 3 && shown[2] == (Shape::Disc {
                x: 500,
                y: 280,
                r: 1100,
                paint: Paint::TorchGlow,
            })
        },
        t.id == TileId::LifeCrystal ==> {
            let shown = foreground(t, furniture, height);
            shown.len() == 2 && shown[1] == (Shape::Disc {
                x: 500,
                y: 500,
                r: 650,
                paint: Paint::CrystalGlow,
            })
        },
        t.id == TileId::Cobweb ==> {
            let shown = foreground(t, furniture, height);
            shown.len() == 2 && shown[0] is Line && shown[1] is Line && shown[0]->Line_paint is Web
                && shown[1]->Line_paint is Web
        },
{
}

} // verus!
