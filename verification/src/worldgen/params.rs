//! The numbers that shape a world, scaled to its size.

use vstd::prelude::*;

use crate::tile::TileId;

verus! {

/// Width of a standard world.
pub const WORLD_WIDTH: u32 = 4200;

/// Height of a standard world.
pub const WORLD_HEIGHT: u32 = 1200;

/// Shortest side that leaves room for all layers.
pub const MIN_SIDE: u32 = 300;

/// What a vein of ore may replace.
#[derive(Debug, Clone, Copy, PartialEq, Eq, Structural)]
pub enum OreBed {
    /// Stone, dirt and ash.
    Ground,
    /// Ash alone.
    Ash,
}

impl OreBed {
    pub open spec fn spec_accepts(self, id: TileId) -> bool {
        match self {
            OreBed::Ground => id == TileId::Stone || id == TileId::Dirt || id == TileId::Ash,
            OreBed::Ash => id == TileId::Ash,
        }
    }
}

/// One kind of ore: how many veins of which size, and in which rows.
#[derive(Debug, Clone, Copy)]
pub struct OreSpec {
    pub tile: TileId,
    pub veins: u32,
    pub strength: (u32, u32),
    pub steps: (u32, u32),
    /// From the first row on, up to but without the second.
    pub rows: (u32, u32),
    pub replaces: OreBed,
}

/// The rows of the standard world, each moved to where it lies in a world of
/// another height and rounded; `r220` is row 220.
#[derive(Debug, Clone, Copy)]
pub struct ScaledRows {
    pub r220: u32,
    pub r250: u32,
    pub r280: u32,
    pub r300: u32,
    pub r340: u32,
    pub r350: u32,
    pub r450: u32,
    pub r500: u32,
    pub r600: u32,
    pub r700: u32,
    pub r800: u32,
    pub r850: u32,
    pub r980: u32,
    pub r1000: u32,
    pub r1020: u32,
    pub r1050: u32,
    pub r1060: u32,
    pub r1100: u32,
    pub r1140: u32,
    pub r1190: u32,
}

/// The counts of the standard world, each multiplied with the area of another
/// world and rounded; `c10` is a count of 10.
#[derive(Debug, Clone, Copy)]
pub struct ScaledCounts {
    pub c10: u32,
    pub c20: u32,
    pub c30: u32,
    pub c80: u32,
    pub c100: u32,
    pub c150: u32,
    pub c200: u32,
    pub c250: u32,
    pub c300: u32,
    pub c400: u32,
    pub c450: u32,
    pub c600: u32,
    pub c2000: u32,
}

/// All parameters of one world size. Pairs of rows are bands from the first
/// row on, up to but without the second.
#[derive(Debug)]
pub struct GenParams {
    pub width: u32,
    pub height: u32,
    /// Highest row of the surface.
    pub surface_min: u32,
    pub surface_baseline: u32,
    /// Lowest row of the surface.
    pub surface_max: u32,
    /// First row of stone below the dirt.
    pub dirt_to_stone: u32,
    /// First row of ash below the stone.
    pub stone_to_ash: u32,
    pub stone_blobs: u32,
    pub dirt_blobs: u32,
    pub blob_strength: (u32, u32),
    pub blob_steps: (u32, u32),
    pub clay_blobs: u32,
    pub clay_rows: (u32, u32),
    pub clay_strength: (u32, u32),
    pub clay_steps: (u32, u32),
    pub surface_worms: u32,
    pub surface_worm_strength: (u32, u32),
    pub surface_worm_steps: (u32, u32),
    /// Downward drift of a surface worm per step, in tenths.
    pub surface_worm_bias_tenths: u32,
    pub cavern_worms: u32,
    pub cavern_worm_rows: (u32, u32),
    pub cavern_worm_strength: (u32, u32),
    pub cavern_worm_steps: (u32, u32),
    pub hell_ceiling_rows: (u32, u32),
    pub hell_floor_rows: (u32, u32),
    /// Open cells below this row hold lava.
    pub hell_lava_row: u32,
    pub smoothing_passes: u32,
    pub ores: Vec<OreSpec>,
    pub water_rows: (u32, u32),
    pub water_percent: u32,
    pub lava_rows: (u32, u32),
    pub lava_percent: u32,
    /// How much of a pocket's height is filled.
    pub fill_percent: (u32, u32),
    pub sand_patches: u32,
    pub sand_min_spawn_dist: u32,
    pub sand_strength: (u32, u32),
    pub sand_steps: (u32, u32),
    pub sand_max_depth: u32,
    pub tree_gap: (u32, u32),
    pub tree_height: (u32, u32),
    pub tree_min_separation: u32,
    pub mushroom_per_tiles: u32,
    pub underground_chests: u32,
    pub underground_chest_rows: (u32, u32),
    pub chest_spacing: u32,
    pub surface_chests: u32,
    pub ruins: u32,
    pub ruin_size: (u32, u32),
    pub altars: u32,
    pub altar_rows: (u32, u32),
    pub life_crystals: u32,
    pub life_crystal_rows: (u32, u32),
    pub pots: u32,
    pub cobweb_rows: (u32, u32),
    pub cobweb_pocket_percent: u32,
    /// Pockets up to this many cells are small.
    pub cobweb_max_pocket: u32,
    pub cobweb_target: u32,
    pub spawn_search_radius: u32,
    pub spawn_flat_width: u32,
}

pub open spec fn spec_row(height: u32, scaled: u32) -> u32 {
    if scaled < height {
        scaled
    } else {
        height
    }
}

/// A row of the world: not below its last one.
fn row(height: u32, scaled: u32) -> (r: u32)
    ensures
        r == spec_row(height, scaled),
{
    if scaled < height {
        scaled
    } else {
        height
    }
}

pub open spec fn spec_band(height: u32, first: u32, last: u32) -> (u32, u32) {
    (spec_row(height, first), spec_row(height, (spec_row(height, last) + 1) as u32))
}

/// The band of rows that ends with `last`.
fn band(height: u32, first: u32, last: u32) -> (b: (u32, u32))
    requires
        height < u32::MAX,
    ensures
        b == spec_band(height, first, last),
{
    (row(height, first), row(height, row(height, last) + 1))
}

pub open spec fn spec_at_least(n: u32, least: u32) -> u32 {
    if n < least {
        least
    } else {
        n
    }
}

fn at_least(n: u32, least: u32) -> (r: u32)
    ensures
        r == spec_at_least(n, least),
{
    if n < least {
        least
    } else {
        n
    }
}

pub open spec fn spec_count(scaled: u32) -> u32 {
    spec_at_least(scaled, 1)
}

/// A feature occurs at least once.
fn count(scaled: u32) -> (r: u32)
    ensures
        r == spec_count(scaled),
{
    at_least(scaled, 1)
}

/// The ores of a world.
pub open spec fn ore_table(height: u32, rows: ScaledRows, counts: ScaledCounts) -> Seq<OreSpec> {
    seq![
        OreSpec {
            tile: TileId::CopperOre,
            veins: spec_count(counts.c600),
            strength: (3, 6),
            steps: (4, 8),
            rows: spec_band(height, rows.r250, rows.r700),
            replaces: OreBed::Ground,
        },
        OreSpec {
            tile: TileId::IronOre,
            veins: spec_count(counts.c450),
            strength: (3, 6),
            steps: (4, 8),
            rows: spec_band(height, rows.r300, rows.r850),
            replaces: OreBed::Ground,
        },
        OreSpec {
            tile: TileId::SilverOre,
            veins: spec_count(counts.c300),
            strength: (3, 5),
            steps: (4, 7),
            rows: spec_band(height, rows.r450, rows.r1000),
            replaces: OreBed::Ground,
        },
        OreSpec {
            tile: TileId::GoldOre,
            veins: spec_count(counts.c200),
            strength: (3, 5),
            steps: (4, 7),
            rows: spec_band(height, rows.r600, rows.r1000),
            replaces: OreBed::Ground,
        },
        OreSpec {
            tile: TileId::Hellstone,
            veins: spec_count(counts.c150),
            strength: (3, 5),
            steps: (4, 6),
            rows: spec_band(height, rows.r1020, rows.r1190),
            replaces: OreBed::Ash,
        },
    ]
}

impl GenParams {
    /// The parameters of a `width` by `height` world, given the scaled rows
    /// and counts. Sizes of single features do not scale: a cave is a cave in
    /// any world.
    pub open spec fn follows(
        &self,
        width: u32,
        height: u32,
        rows: ScaledRows,
        counts: ScaledCounts,
        sand_distance: u32,
    ) -> bool {
        &&& self.width == width
        &&& self.height == height
        &&& self.surface_min == spec_row(height, rows.r220)
        &&& self.surface_baseline == spec_row(height, rows.r280)
        &&& self.surface_max == spec_row(height, rows.r340)
        &&& self.dirt_to_stone == spec_row(height, rows.r450)
        &&& self.stone_to_ash == spec_row(height, rows.r1000)
        &&& self.stone_blobs == spec_count(counts.c400)
        &&& self.dirt_blobs == spec_count(counts.c300)
        &&& self.blob_strength == (6u32, 14u32)
        &&& self.blob_steps == (6u32, 12u32)
        &&& self.clay_blobs == spec_count(counts.c300)
        &&& self.clay_rows == (spec_row(height, rows.r250), spec_row(height, rows.r500))
        &&& self.clay_strength == (4u32, 9u32)
        &&& self.clay_steps == (4u32, 8u32)
        &&& self.surface_worms == spec_count(counts.c80)
        &&& self.surface_worm_strength == (4u32, 8u32)
        &&& self.surface_worm_steps == (15u32, 30u32)
        &&& self.surface_worm_bias_tenths == 3
        &&& self.cavern_worms == spec_count(counts.c250)
        &&& self.cavern_worm_rows == (spec_row(height, rows.r450), spec_row(height, rows.r980))
        &&& self.cavern_worm_strength == (10u32, 22u32)
        &&& self.cavern_worm_steps == (60u32, 100u32)
        &&& self.hell_ceiling_rows == (spec_row(height, rows.r1020), spec_row(height, rows.r1050))
        &&& self.hell_floor_rows == (spec_row(height, rows.r1060), spec_row(height, rows.r1140))
        &&& self.hell_lava_row == spec_row(height, rows.r1100)
        &&& self.smoothing_passes == 3
        &&& self.ores@ == ore_table(height, rows, counts)
        &&& self.water_rows == (spec_row(height, rows.r450), spec_row(height, rows.r800))
        &&& self.water_percent == 35
        &&& self.lava_rows == (spec_row(height, rows.r800), spec_row(height, rows.r1000))
        &&& self.lava_percent == 30
        &&& self.fill_percent == (25u32, 75u32)
        &&& self.sand_patches == spec_at_least(spec_count(counts.c10), 2)
        &&& self.sand_min_spawn_dist == spec_at_least(sand_distance, 40)
        &&& self.sand_strength == (15u32, 30u32)
        &&& self.sand_steps == (10u32, 20u32)
        &&& self.sand_max_depth == 25
        &&& self.tree_gap == (5u32, 15u32)
        &&& self.tree_height == (7u32, 16u32)
        &&& self.tree_min_separation == 4
        &&& self.mushroom_per_tiles == 40
        &&& self.underground_chests == spec_count(counts.c150)
        &&& self.underground_chest_rows == (spec_row(height, rows.r350), spec_row(height, rows.r1000))
        &&& self.chest_spacing == 25
        &&& self.surface_chests == spec_count(counts.c20)
        &&& self.ruins == spec_count(counts.c10)
        &&& self.ruin_size == (10u32, 8u32)
        &&& self.altars == spec_count(counts.c30)
        &&& self.altar_rows == (spec_row(height, rows.r500), spec_row(height, rows.r1000))
        &&& self.life_crystals == spec_count(counts.c100)
        &&& self.life_crystal_rows == (spec_row(height, rows.r450), spec_row(height, rows.r1000))
        &&& self.pots == spec_count(counts.c600)
        &&& self.cobweb_rows == (spec_row(height, rows.r450), spec_row(height, rows.r1000))
        &&& self.cobweb_pocket_percent == 10
        &&& self.cobweb_max_pocket == 60
        &&& self.cobweb_target == spec_count(counts.c2000)
        &&& self.spawn_search_radius == 20
        &&& self.spawn_flat_width == 10
    }

    /// Scales the parameters of the standard world.
    pub fn new(
        width: u32,
        height: u32,
        rows: &ScaledRows,
        counts: &ScaledCounts,
        sand_distance: u32,
    ) -> (p: GenParams)
        requires
            height < u32::MAX,
        ensures
            p.follows(width, height, *rows, *counts, sand_distance),
    {
        let ores: Vec<OreSpec> = vec![
            OreSpec {
                tile: TileId::CopperOre,
                veins: count(counts.c600),
                strength: (3, 6),
                steps: (4, 8),
                rows: band(height, rows.r250, rows.r700),
                replaces: OreBed::Ground,
            },
            OreSpec {
                tile: TileId::IronOre,
                veins: count(counts.c450),
                strength: (3, 6),
                steps: (4, 8),
                rows: band(height, rows.r300, rows.r850),
                replaces: OreBed::Ground,
            },
            OreSpec {
                tile: TileId::SilverOre,
                veins: count(counts.c300),
                strength: (3, 5),
                steps: (4, 7),
                rows: band(height, rows.r450, rows.r1000),
                replaces: OreBed::Ground,
            },
            OreSpec {
                tile: TileId::GoldOre,
                veins: count(counts.c200),
                strength: (3, 5),
                steps: (4, 7),
                rows: band(height, rows.r600, rows.r1000),
                replaces: OreBed::Ground,
            },
            OreSpec {
                tile: TileId::Hellstone,
                veins: count(counts.c150),
                strength: (3, 5),
                steps: (4, 6),
                rows: band(height, rows.r1020, rows.r1190),
                replaces: OreBed::Ash,
            },
        ];
        assert(ores@ =~= ore_table(height, *rows, *counts));
        GenParams {
            width,
            height,
            surface_min: row(height, rows.r220),
            surface_baseline: row(height, rows.r280),
            surface_max: row(height, rows.r340),
            dirt_to_stone: row(height, rows.r450),
            stone_to_ash: row(height, rows.r1000),
            stone_blobs: count(counts.c400),
            dirt_blobs: count(counts.c300),
            blob_strength: (6, 14),
            blob_steps: (6, 12),
            clay_blobs: count(counts.c300),
            clay_rows: (row(height, rows.r250), row(height, rows.r500)),
            clay_strength: (4, 9),
            clay_steps: (4, 8),
            surface_worms: count(counts.c80),
            surface_worm_strength: (4, 8),
            surface_worm_steps: (15, 30),
            surface_worm_bias_tenths: 3,
            cavern_worms: count(counts.c250),
            cavern_worm_rows: (row(height, rows.r450), row(height, rows.r980)),
            cavern_worm_strength: (10, 22),
            cavern_worm_steps: (60, 100),
            hell_ceiling_rows: (row(height, rows.r1020), row(height, rows.r1050)),
            hell_floor_rows: (row(height, rows.r1060), row(height, rows.r1140)),
            hell_lava_row: row(height, rows.r1100),
            smoothing_passes: 3,
            ores,
            water_rows: (row(height, rows.r450), row(height, rows.r800)),
            water_percent: 35,
            lava_rows: (row(height, rows.r800), row(height, rows.r1000)),
            lava_percent: 30,
            fill_percent: (25, 75),
            sand_patches: at_least(count(counts.c10), 2),
            sand_min_spawn_dist: at_least(sand_distance, 40),
            sand_strength: (15, 30),
            sand_steps: (10, 20),
            sand_max_depth: 25,
            tree_gap: (5, 15),
            tree_height: (7, 16),
            tree_min_separation: 4,
            mushroom_per_tiles: 40,
            underground_chests: count(counts.c150),
            underground_chest_rows: (row(height, rows.r350), row(height, rows.r1000)),
            chest_spacing: 25,
            surface_chests: count(counts.c20),
            ruins: count(counts.c10),
            ruin_size: (10, 8),
            altars: count(counts.c30),
            altar_rows: (row(height, rows.r500), row(height, rows.r1000)),
            life_crystals: count(counts.c100),
            life_crystal_rows: (row(height, rows.r450), row(height, rows.r1000)),
            pots: count(counts.c600),
            cobweb_rows: (row(height, rows.r450), row(height, rows.r1000)),
            cobweb_pocket_percent: 10,
            cobweb_max_pocket: 60,
            cobweb_target: count(counts.c2000),
            spawn_search_radius: 20,
            spawn_flat_width: 10,
        }
    }
}

impl ScaledRows {
    /// Scaling keeps the order of rows.
    pub open spec fn ordered(self) -> bool {
        &&& self.r220 <= self.r250
        &&& self.r250 <= self.r280
        &&& self.r280 <= self.r300
        &&& self.r300 <= self.r340
        &&& self.r340 <= self.r350
        &&& self.r350 <= self.r450
        &&& self.r450 <= self.r500
        &&& self.r500 <= self.r600
        &&& self.r600 <= self.r700
        &&& self.r700 <= self.r800
        &&& self.r800 <= self.r850
        &&& self.r850 <= self.r980
        &&& self.r980 <= self.r1000
        &&& self.r1000 <= self.r1020
        &&& self.r1020 <= self.r1050
        &&& self.r1050 <= self.r1060
        &&& self.r1060 <= self.r1100
        &&& self.r1100 <= self.r1140
        &&& self.r1140 <= self.r1190
    }
}

/// In a scaled world the layers lie in the order of the standard one, every
/// band of rows starts at or before its end and ends inside of the world, and
/// every feature occurs at least once.
pub proof fn law_layers_keep_order(
    p: GenParams,
    width: u32,
    height: u32,
    rows: ScaledRows,
    counts: ScaledCounts,
    sand_distance: u32,
)
    requires
        height < u32::MAX,
        rows.ordered(),
        p.follows(width, height, rows, counts, sand_distance),
    ensures
        p.surface_min <= p.surface_baseline <= p.surface_max <= p.dirt_to_stone <= p.stone_to_ash
            <= height,
        p.clay_rows.0 <= p.clay_rows.1 <= height,
        p.cavern_worm_rows.0 <= p.cavern_worm_rows.1 <= height,
        p.stone_to_ash <= p.hell_ceiling_rows.0 <= p.hell_ceiling_rows.1 <= p.hell_floor_rows.0
            <= p.hell_lava_row <= p.hell_floor_rows.1 <= height,
        p.dirt_to_stone == p.water_rows.0 <= p.water_rows.1 == p.lava_rows.0 <= p.lava_rows.1
            == p.stone_to_ash,
        p.underground_chest_rows.0 <= p.underground_chest_rows.1 <= height,
        p.altar_rows.0 <= p.altar_rows.1 <= height,
        p.life_crystal_rows.0 <= p.life_crystal_rows.1 <= height,
        p.cobweb_rows.0 <= p.cobweb_rows.1 <= height,
        forall|i: int|
            0 <= i < p.ores@.len() ==> (#[trigger] p.ores@[i]).rows.0 <= p.ores@[i].rows.1
                <= height && p.ores@[i].veins >= 1,
        p.stone_blobs >= 1 && p.dirt_blobs >= 1 && p.clay_blobs >= 1 && p.surface_worms >= 1
            && p.cavern_worms >= 1 && p.sand_patches >= 2 && p.underground_chests >= 1
            && p.surface_chests >= 1 && p.ruins >= 1 && p.altars >= 1 && p.life_crystals >= 1
            && p.pots >= 1 && p.cobweb_target >= 1,
{
}

/// `(first, last)` as rows of a world of `height` rows, the last one taken in.
pub open spec fn through(height: u32, first: u32, last: u32, rows: (u32, u32)) -> bool {
    &&& first <= height ==> rows.0 == first
    &&& last < height ==> rows.1 == last + 1
    &&& rows.0 <= height && rows.1 <= height
}

/// Each ore has its rows and its number of veins: copper starts highest, then
/// iron, silver and gold down to the ash, hellstone lies in the ash alone; the
/// deeper, the fewer.
pub proof fn law_each_ore_has_its_rows(
    p: GenParams,
    width: u32,
    height: u32,
    rows: ScaledRows,
    counts: ScaledCounts,
    sand_distance: u32,
    i: int,
)
    requires
        height < u32::MAX,
        p.follows(width, height, rows, counts, sand_distance),
        0 <= i < p.ores@.len(),
    ensures
        p.ores@.len() == 5,
        ({
            let o = p.ores@[i];
            match o.tile {
                TileId::CopperOre => through(height, rows.r250, rows.r700, o.rows) && o.strength
                    == (3u32, 6u32) && o.steps == (4u32, 8u32) && (counts.c600 >= 1 ==> o.veins
                    == counts.c600),
                TileId::IronOre => through(height, rows.r300, rows.r850, o.rows) && o.strength
                    == (3u32, 6u32) && o.steps == (4u32, 8u32) && (counts.c450 >= 1 ==> o.veins
                    == counts.c450),
                TileId::SilverOre => through(height, rows.r450, rows.r1000, o.rows) && o.strength
                    == (3u32, 5u32) && o.steps == (4u32, 7u32) && (counts.c300 >= 1 ==> o.veins
                    == counts.c300),
                TileId::GoldOre => through(height, rows.r600, rows.r1000, o.rows) && o.strength
                    == (3u32, 5u32) && o.steps == (4u32, 7u32) && (counts.c200 >= 1 ==> o.veins
                    == counts.c200),
                TileId::Hellstone => through(height, rows.r1020, rows.r1190, o.rows) && o.strength
                    == (3u32, 5u32) && o.steps == (4u32, 6u32) && (counts.c150 >= 1 ==> o.veins
                    == counts.c150),
                _ => false,
            }
        }),
        p.ores@[i].replaces.spec_accepts(TileId::Ash),
        p.ores@[i].tile != TileId::Hellstone ==> p.ores@[i].replaces.spec_accepts(TileId::Dirt)
            && p.ores@[i].replaces.spec_accepts(TileId::Stone),
        p.ores@[i].tile == TileId::Hellstone ==> !p.ores@[i].replaces.spec_accepts(TileId::Dirt)
            && !p.ores@[i].replaces.spec_accepts(TileId::Stone),
        !p.ores@[i].replaces.spec_accepts(TileId::Air),
        forall|j: int| 0 <= j < i ==> (#[trigger] p.ores@[j]).tile != p.ores@[i].tile,
{
}

/// Rows scale with the height of the world and counts with its area; a count
/// is what scaling gave it, but at least one.
pub proof fn law_rows_and_counts_scale(
    p: GenParams,
    width: u32,
    height: u32,
    rows: ScaledRows,
    counts: ScaledCounts,
    sand_distance: u32,
)
    requires
        height < u32::MAX,
        p.follows(width, height, rows, counts, sand_distance),
    ensures
        p.width == width && p.height == height,
        rows.r220 <= height ==> p.surface_min == rows.r220,
        rows.r280 <= height ==> p.surface_baseline == rows.r280,
        rows.r340 <= height ==> p.surface_max == rows.r340,
        rows.r450 <= height ==> p.dirt_to_stone == rows.r450,
        rows.r1000 <= height ==> p.stone_to_ash == rows.r1000,
        rows.r250 <= height && rows.r500 <= height ==> p.clay_rows == (rows.r250, rows.r500),
        rows.r450 <= height && rows.r980 <= height ==> p.cavern_worm_rows == (
            rows.r450,
            rows.r980,
        ),
        rows.r1020 <= height && rows.r1050 <= height ==> p.hell_ceiling_rows == (
            rows.r1020,
            rows.r1050,
        ),
        rows.r1060 <= height && rows.r1140 <= height ==> p.hell_floor_rows == (
            rows.r1060,
            rows.r1140,
        ),
        rows.r1100 <= height ==> p.hell_lava_row == rows.r1100,
        rows.r800 <= height ==> p.water_rows.1 == rows.r800,
        rows.r350 <= height ==> p.underground_chest_rows.0 == rows.r350,
        rows.r500 <= height ==> p.altar_rows.0 == rows.r500,
        p.underground_chest_rows.1 == p.stone_to_ash && p.altar_rows.1 == p.stone_to_ash,
        p.life_crystal_rows == (p.dirt_to_stone, p.stone_to_ash),
        p.cobweb_rows == (p.dirt_to_stone, p.stone_to_ash),
        p.water_rows.0 == p.dirt_to_stone && p.water_rows.1 == p.lava_rows.0 && p.lava_rows.1
            == p.stone_to_ash,
        counts.c400 >= 1 ==> p.stone_blobs == counts.c400,
        counts.c300 >= 1 ==> p.dirt_blobs == counts.c300 && p.clay_blobs == counts.c300,
        counts.c80 >= 1 ==> p.surface_worms == counts.c80,
        counts.c250 >= 1 ==> p.cavern_worms == counts.c250,
        counts.c10 >= 2 ==> p.sand_patches == counts.c10 && p.ruins == counts.c10,
        counts.c150 >= 1 ==> p.underground_chests == counts.c150,
        counts.c20 >= 1 ==> p.surface_chests == counts.c20,
        counts.c30 >= 1 ==> p.altars == counts.c30,
        counts.c100 >= 1 ==> p.life_crystals == counts.c100,
        counts.c600 >= 1 ==> p.pots == counts.c600,
        counts.c2000 >= 1 ==> p.cobweb_target == counts.c2000,
        sand_distance >= 40 ==> p.sand_min_spawn_dist == sand_distance,
        sand_distance < 40 ==> p.sand_min_spawn_dist == 40,
{
}

/// The sizes of features do not scale: in worlds of any two sizes caves,
/// trees, blobs and ruins are alike, and so are the chances.
pub proof fn law_features_do_not_scale(
    p: GenParams,
    width: u32,
    height: u32,
    rows: ScaledRows,
    counts: ScaledCounts,
    sand_distance: u32,
)
    requires
        p.follows(width, height, rows, counts, sand_distance),
    ensures
        p.blob_strength.0 == 6 && p.blob_strength.1 == 14 && p.blob_steps.0 == 6
            && p.blob_steps.1 == 12,
        p.clay_strength.0 == 4 && p.clay_strength.1 == 9 && p.clay_steps.0 == 4
            && p.clay_steps.1 == 8,
        p.surface_worm_strength.0 == 4 && p.surface_worm_strength.1 == 8
            && p.surface_worm_steps.0 == 15 && p.surface_worm_steps.1 == 30,
        p.cavern_worm_strength.0 == 10 && p.cavern_worm_strength.1 == 22
            && p.cavern_worm_steps.0 == 60 && p.cavern_worm_steps.1 == 100,
        p.surface_worm_bias_tenths == 3 && p.smoothing_passes == 3,
        p.water_percent == 35 && p.lava_percent == 30,
        p.fill_percent.0 == 25 && p.fill_percent.1 == 75,
        p.sand_strength.0 == 15 && p.sand_strength.1 == 30 && p.sand_steps.0 == 10
            && p.sand_steps.1 == 20 && p.sand_max_depth == 25,
        p.tree_gap.0 == 5 && p.tree_gap.1 == 15 && p.tree_height.0 == 7 && p.tree_height.1 == 16
            && p.tree_min_separation == 4,
        p.mushroom_per_tiles == 40 && p.chest_spacing == 25,
        p.ruin_size.0 == 10 && p.ruin_size.1 == 8,
        p.cobweb_pocket_percent == 10 && p.cobweb_max_pocket == 60,
        p.spawn_search_radius == 20 && p.spawn_flat_width == 10,
{
}

/// A standard world is 4200 cells wide and 1200 high; worlds start at 300.
pub proof fn law_worlds_have_their_size()
    ensures
        WORLD_WIDTH == 4200 && WORLD_HEIGHT == 1200 && MIN_SIDE == 300,
{
}

} // verus!
