//! Tiles: what one cell of the world holds.

use vstd::prelude::*;

verus! {

/// A full cell of liquid.
pub const LIQUID_MAX_LEVEL: u8 = 8;

/// Foreground tiles.
#[derive(Debug, Clone, Copy, PartialEq, Eq, Structural)]
pub enum TileId {
    Air,
    Dirt,
    Stone,
    Grass,
    Sand,
    Clay,
    WoodPlank,
    CopperOre,
    IronOre,
    SilverOre,
    GoldOre,
    Hellstone,
    Obsidian,
    Ash,
    StoneBrick,
    EmberBrick,
    Torch,
    Platform,
    Door,
    Chest,
    Workbench,
    Furnace,
    Anvil,
    InfernalForge,
    RitualAltar,
    Table,
    Chair,
    Bed,
    Pot,
    LifeCrystal,
    Cobweb,
    Sapling,
    TreeTrunk,
}

/// Background walls.
#[derive(Debug, Clone, Copy, PartialEq, Eq, Structural)]
pub enum WallId {
    Air,
    Dirt,
    Stone,
    Wood,
}

/// How a tile collides.
#[derive(Debug, Clone, Copy, PartialEq, Eq, Structural)]
pub enum Solidity {
    /// Nothing stands on it, everything passes through.
    Passable,
    /// Blocks movement and liquids from every side.
    Solid,
    /// Carries what falls onto it, lets the rest through.
    Platform,
    /// Solid while closed.
    Door,
}

impl TileId {
    /// The collision class of each foreground, as this library takes it to be:
    /// no rule derives it.
    pub open spec fn spec_solidity(self) -> Solidity {
        match self {
            TileId::Dirt | TileId::Stone | TileId::Grass | TileId::Sand | TileId::Clay
            | TileId::WoodPlank | TileId::CopperOre | TileId::IronOre | TileId::SilverOre
            | TileId::GoldOre | TileId::Hellstone | TileId::Obsidian | TileId::Ash
            | TileId::StoneBrick | TileId::EmberBrick => Solidity::Solid,
            TileId::Platform => Solidity::Platform,
            TileId::Door => Solidity::Door,
            _ => Solidity::Passable,
        }
    }

    /// The collision class of the tile.
    pub fn solidity(self) -> (s: Solidity)
        ensures
            s == self.spec_solidity(),
    {
        match self {
            TileId::Dirt | TileId::Stone | TileId::Grass | TileId::Sand | TileId::Clay
            | TileId::WoodPlank | TileId::CopperOre | TileId::IronOre | TileId::SilverOre
            | TileId::GoldOre | TileId::Hellstone | TileId::Obsidian | TileId::Ash
            | TileId::StoneBrick | TileId::EmberBrick => Solidity::Solid,
            TileId::Platform => Solidity::Platform,
            TileId::Door => Solidity::Door,
            _ => Solidity::Passable,
        }
    }
}

#[derive(Debug, Clone, Copy, PartialEq, Eq, Structural)]
pub enum LiquidKind {
    Water,
    Lava,
}

/// The liquid layer of a cell: nothing, or one kind at level 1 to
/// [`LIQUID_MAX_LEVEL`].
#[derive(Debug, Clone, Copy, PartialEq, Eq, Structural)]
pub enum Liquid {
    Empty,
    Filled { kind: LiquidKind, level: u8 },
}

impl Liquid {
    pub const NONE: Liquid = Liquid::Empty;

    /// A filled cell holds at least one level and at most a full cell.
    pub open spec fn wf(self) -> bool {
        match self {
            Liquid::Empty => true,
            Liquid::Filled { level, .. } => 1 <= level <= LIQUID_MAX_LEVEL,
        }
    }

    pub open spec fn spec_kind(self) -> Option<LiquidKind> {
        match self {
            Liquid::Empty => None,
            Liquid::Filled { kind, .. } => Some(kind),
        }
    }

    pub open spec fn spec_level(self) -> u8 {
        match self {
            Liquid::Empty => 0,
            Liquid::Filled { level, .. } => level,
        }
    }

    /// How many levels of `kind` the cell holds.
    pub open spec fn amount(self, kind: LiquidKind) -> int {
        if self.spec_kind() == Some(kind) {
            self.spec_level() as int
        } else {
            0
        }
    }

    /// `level` levels of `kind`; no liquid at all for level 0.
    pub open spec fn of(kind: LiquidKind, level: u8) -> Liquid {
        if level == 0 {
            Liquid::Empty
        } else {
            Liquid::Filled { kind, level }
        }
    }

    pub fn new(kind: LiquidKind, level: u8) -> (l: Liquid)
        requires
            1 <= level <= LIQUID_MAX_LEVEL,
        ensures
            l == (Liquid::Filled { kind, level }),
            l.wf(),
    {
        Liquid::Filled { kind, level }
    }

    pub fn kind(self) -> (k: Option<LiquidKind>)
        ensures
            k == self.spec_kind(),
    {
        match self {
            Liquid::Empty => None,
            Liquid::Filled { kind, .. } => Some(kind),
        }
    }

    pub fn level(self) -> (n: u8)
        ensures
            n == self.spec_level(),
    {
        match self {
            Liquid::Empty => 0,
            Liquid::Filled { level, .. } => level,
        }
    }

    pub fn is_some(self) -> (b: bool)
        ensures
            b == (self != Liquid::Empty),
    {
        match self {
            Liquid::Empty => false,
            Liquid::Filled { .. } => true,
        }
    }

    pub fn is_none(self) -> (b: bool)
        ensures
            b == (self == Liquid::Empty),
    {
        match self {
            Liquid::Empty => true,
            Liquid::Filled { .. } => false,
        }
    }

    /// Whether the cell holds `kind`.
    pub fn holds(self, kind: LiquidKind) -> (b: bool)
        ensures
            b == (self.spec_kind() == Some(kind)),
    {
        match self {
            Liquid::Empty => false,
            Liquid::Filled { kind: k, .. } => k == kind,
        }
    }
}

/// Per-cell detail of a tile.
#[derive(Debug, Clone, Copy, PartialEq, Eq, Structural)]
pub struct TileState {
    /// Column of this cell within a multi-cell object.
    pub part_x: u8,
    /// Row of this cell within a multi-cell object.
    pub part_y: u8,
    /// Tile-specific variant (tree segment, mushroom on grass, ...).
    pub variant: u8,
    pub door_open: bool,
    /// An open door leans against the left jamb.
    pub door_open_left: bool,
    /// The wall behind was placed by a player, so it drops when broken.
    pub wall_placed: bool,
}

/// Variant of a trunk cell within a tree.
pub const TREE_SEGMENT_TRUNK: u8 = 0;

/// Variant of the topmost cell of a tree.
pub const TREE_SEGMENT_TOP: u8 = 1;

/// Variant of a grass cell that carries a mushroom.
pub const GRASS_MUSHROOM: u8 = 1;

impl TileState {
    pub open spec fn spec_clear() -> TileState {
        TileState {
            part_x: 0,
            part_y: 0,
            variant: 0,
            door_open: false,
            door_open_left: false,
            wall_placed: false,
        }
    }

    /// The state of a plain cell.
    pub fn clear() -> (s: TileState)
        ensures
            s == TileState::spec_clear(),
    {
        TileState {
            part_x: 0,
            part_y: 0,
            variant: 0,
            door_open: false,
            door_open_left: false,
            wall_placed: false,
        }
    }

    pub open spec fn spec_part(dx: u8, dy: u8) -> TileState {
        TileState { part_x: dx, part_y: dy, ..TileState::spec_clear() }
    }

    /// The state of the cell `(dx, dy)` of a multi-cell object.
    pub fn part(dx: u8, dy: u8) -> (s: TileState)
        ensures
            s == TileState::spec_part(dx, dy),
    {
        let mut s = TileState::clear();
        s.part_x = dx;
        s.part_y = dy;
        s
    }

    pub open spec fn spec_of_variant(variant: u8) -> TileState {
        TileState { variant, ..TileState::spec_clear() }
    }

    /// The state of a plain cell with `variant`.
    pub fn of_variant(variant: u8) -> (s: TileState)
        ensures
            s == TileState::spec_of_variant(variant),
    {
        let mut s = TileState::clear();
        s.variant = variant;
        s
    }

    pub open spec fn spec_wall_only(self) -> TileState {
        TileState { wall_placed: self.wall_placed, ..TileState::spec_clear() }
    }

    /// Forgets everything but who placed the wall: what is left when the
    /// foreground of a cell goes away.
    pub fn wall_only(self) -> (s: TileState)
        ensures
            s == self.spec_wall_only(),
    {
        let mut s = TileState::clear();
        s.wall_placed = self.wall_placed;
        s
    }
}

/// One cell of the world.
#[derive(Debug, Clone, Copy, PartialEq, Eq, Structural)]
pub struct Tile {
    pub id: TileId,
    pub wall: WallId,
    pub liquid: Liquid,
    pub state: TileState,
}

impl Tile {
    pub open spec fn wf(self) -> bool {
        self.liquid.wf()
    }

    pub open spec fn spec_of(id: TileId) -> Tile {
        Tile { id, wall: WallId::Air, liquid: Liquid::Empty, state: TileState::spec_clear() }
    }

    /// A plain tile without wall or liquid.
    pub fn of(id: TileId) -> (t: Tile)
        ensures
            t == Tile::spec_of(id),
            t.wf(),
    {
        Tile { id, wall: WallId::Air, liquid: Liquid::Empty, state: TileState::clear() }
    }

    pub open spec fn solid(self) -> bool {
        match self.id.spec_solidity() {
            Solidity::Solid => true,
            Solidity::Door => !self.state.door_open,
            _ => false,
        }
    }

    /// Whether the cell blocks movement and liquids. A door does while closed.
    pub fn is_solid(self) -> (b: bool)
        ensures
            b == self.solid(),
    {
        match self.id.solidity() {
            Solidity::Solid => true,
            Solidity::Door => !self.state.door_open,
            _ => false,
        }
    }

    pub open spec fn platform(self) -> bool {
        self.id == TileId::Platform
    }

    pub open spec fn with_liquid(self, liquid: Liquid) -> Tile {
        Tile { liquid, ..self }
    }
}

/// Ground, ores, bricks and planks are solid; a door is while it is closed;
/// everything else lets through.
pub proof fn law_ground_is_solid(t: Tile)
    ensures
        t.solid() <==> {
            ||| t.id == TileId::Dirt || t.id == TileId::Stone || t.id == TileId::Grass || t.id
                == TileId::Sand || t.id == TileId::Clay || t.id == TileId::Ash
            ||| t.id == TileId::CopperOre || t.id == TileId::IronOre || t.id == TileId::SilverOre
                || t.id == TileId::GoldOre || t.id == TileId::Hellstone || t.id
                == TileId::Obsidian
            ||| t.id == TileId::WoodPlank || t.id == TileId::StoneBrick || t.id
                == TileId::EmberBrick
            ||| t.id == TileId::Door && !t.state.door_open
        },
        t.platform() <==> t.id == TileId::Platform,
        t.id.spec_solidity() == Solidity::Platform <==> t.id == TileId::Platform,
        t.id.spec_solidity() == Solidity::Door <==> t.id == TileId::Door,
{
}

/// A cell holds between one and eight levels of one liquid, or none of any.
pub proof fn law_cells_hold_eight_levels(l: Liquid, kind: LiquidKind, level: u8)
    ensures
        l.wf() ==> l.spec_level() <= 8,
        l.wf() ==> (l.spec_kind() is Some <==> l.spec_level() >= 1),
        l.wf() ==> l.amount(LiquidKind::Water) + l.amount(LiquidKind::Lava) == l.spec_level(),
        level <= 8 ==> Liquid::of(kind, level).wf(),
        Liquid::of(kind, level).amount(kind) == level,
        level >= 1 ==> Liquid::of(kind, level).spec_kind() == Some(kind),
        Liquid::of(kind, 0) is Empty,
{
}

/// A plain tile has no wall, no liquid and no detail; taking the foreground
/// away leaves nothing of a state but who placed the wall.
pub proof fn law_plain_tiles_are_bare(id: TileId, s: TileState, dx: u8, dy: u8)
    ensures
        Tile::spec_of(id).id == id,
        Tile::spec_of(id).wall == WallId::Air && Tile::spec_of(id).liquid is Empty,
        !Tile::spec_of(id).state.wall_placed && !Tile::spec_of(id).state.door_open,
        Tile::spec_of(id).state.part_x == 0 && Tile::spec_of(id).state.part_y == 0
            && Tile::spec_of(id).state.variant == 0,
        s.spec_wall_only().wall_placed == s.wall_placed,
        !s.spec_wall_only().door_open && s.spec_wall_only().part_x == 0
            && s.spec_wall_only().part_y == 0 && s.spec_wall_only().variant == 0,
        TileState::spec_part(dx, dy).part_x == dx && TileState::spec_part(dx, dy).part_y == dy,
        TileState::spec_of_variant(dx).variant == dx,
{
}

/// Trunks, tree tops and mushrooms are told apart by their variants.
pub proof fn law_variants_tell_apart()
    ensures
        TREE_SEGMENT_TRUNK == 0 && TREE_SEGMENT_TOP == 1 && GRASS_MUSHROOM == 1,
{
}

} // verus!
