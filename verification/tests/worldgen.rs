use ferraria::chest::ChestStore;
use ferraria::grid::World;
use ferraria::item::{InvSlot, ItemId, CHEST_SLOTS};
use ferraria::sim::fluids::MAX_SETTLE_ROUNDS;
use ferraria::tile::{
    Liquid, LiquidKind, Tile, TileId, TileState, WallId, TREE_SEGMENT_TOP, TREE_SEGMENT_TRUNK,
};
use ferraria::worldgen::caves::{smooth_once, surface_scan};
use ferraria::worldgen::flora::{grow_grass, plant_tree, FloraRoll};
use ferraria::worldgen::fluids_fill::{choose_fill, fill_and_settle, PocketRoll};
use ferraria::worldgen::loot::{
    pick_weighted, pot_coin_mult, pot_loot, roll_chest, roll_pot, surface_chest, underground_chest,
    underworld_chest, ChestLootTable, LootRoll, Throw,
};
use ferraria::worldgen::params::{GenParams, ScaledCounts, ScaledRows};
use ferraria::worldgen::pockets::find_air_pockets;
use ferraria::worldgen::dress::{dress, has_room, pass_name, DressDraws};
use ferraria::worldgen::ground::{
    cavern_caves, clay, lay_ground, ore_veins, sand_patches, stone_dirt_blobs, surface_caves,
    GroundDraws, Worm,
};
use ferraria::worldgen::preview::{cut, hell_top, pixel, render, shrink, Picture};
use ferraria::worldgen::runner::{
    apply_circle, child_steps, heightmap, may_branch, sand_limits, sand_start, stone_blob_rows,
    tile_runner,
};
use ferraria::worldgen::scatter::{
    life_crystals, place_structures, pots, ritual_altars, ruin_slice, surface_chests, top_up_webs,
    underground_chests, StructureDraws, WebSeed,
};
use ferraria::worldgen::spawn::{best_column, pick_spawn, platform_row, spawn_candidates, unevenness};
use ferraria::worldgen::structures::{build_ruin, find_floor_spot, underworld_floor};
use ferraria::worldgen::terrain::{Brush, Reach};

/// A small generator of even enough numbers.
struct Dice(u64);

impl Dice {
    fn below(&mut self, n: u32) -> u32 {
        self.0 ^= self.0 << 13;
        self.0 ^= self.0 >> 7;
        self.0 ^= self.0 << 17;
        ((self.0 >> 20) % n as u64) as u32
    }

    fn from(&mut self, lo: u32, hi: u32) -> u32 {
        lo + self.below(hi - lo)
    }

    fn percent(&mut self, p: u32) -> bool {
        self.below(100) < p
    }
}

fn params(width: u32, height: u32) -> GenParams {
    let row = |r: u32| (r as f64 * height as f64 / 1200.0).round() as u32;
    let area = width as f64 / 4200.0 * height as f64 / 1200.0;
    let count = |c: u32| (c as f64 * area).round() as u32;
    let rows = ScaledRows {
        r220: row(220),
        r250: row(250),
        r280: row(280),
        r300: row(300),
        r340: row(340),
        r350: row(350),
        r450: row(450),
        r500: row(500),
        r600: row(600),
        r700: row(700),
        r800: row(800),
        r850: row(850),
        r980: row(980),
        r1000: row(1000),
        r1020: row(1020),
        r1050: row(1050),
        r1060: row(1060),
        r1100: row(1100),
        r1140: row(1140),
        r1190: row(1190),
    };
    let counts = ScaledCounts {
        c10: count(10),
        c20: count(20),
        c30: count(30),
        c80: count(80),
        c100: count(100),
        c150: count(150),
        c200: count(200),
        c250: count(250),
        c300: count(300),
        c400: count(400),
        c450: count(450),
        c600: count(600),
        c2000: count(2000),
    };
    GenParams::new(width, height, &rows, &counts, (150.0 * width as f64 / 4200.0).round() as u32)
}

fn full_size() -> GenParams {
    params(4200, 1200)
}

fn free() -> Reach {
    Reach { rows: (0, u32::MAX), column_limit: None }
}

/// The cells of a short random walk.
fn walk(dice: &mut Dice, w: u32, h: u32, x: u32, y: u32, steps: u32) -> Vec<Vec<(u32, u32)>> {
    let (mut x, mut y) = (x as i64, y as i64);
    let mut out = Vec::new();
    for _ in 0..steps {
        let mut cells = Vec::new();
        for dy in -2..=2i64 {
            for dx in -2..=2i64 {
                let (a, b) = (x + dx, y + dy);
                if dx * dx + dy * dy <= 5 && a >= 0 && b >= 0 && a < w as i64 && b < h as i64 {
                    cells.push((a as u32, b as u32));
                }
            }
        }
        out.push(cells);
        x += dice.below(5) as i64 - 2;
        y += dice.below(5) as i64 - 2;
    }
    out
}

fn any_loot(table: &ChestLootTable, dice: &mut Dice) -> Vec<Option<InvSlot>> {
    let throw = |dice: &mut Dice| Throw {
        hit: dice.below(100),
        swap: dice.percent(50),
        spread: dice.below(1000),
    };
    let at = dice.below(100) as u64;
    let first = throw(dice);
    let throws = table.extras.iter().map(|_| throw(dice)).collect();
    roll_chest(table, at, first, &throws)
}

/// Runs all passes on a small world.
fn generate(seed: u64, w: u32, h: u32) -> (World, ChestStore, GenParams) {
    let mut dice = Dice(seed.wrapping_mul(0x9e37_79b9_7f4a_7c15) | 1);
    let p = params(w, h);
    let mut world = World::new(w, h);
    let mut chests = ChestStore::new();
    let mut level = p.surface_baseline as i64;
    let mut heights = Vec::new();
    for _ in 0..w {
        level += dice.below(3) as i64 - 1;
        heights.push(level);
    }
    let worms = |dice: &mut Dice, n: u32, rows: (u32, u32), steps: u32| -> Vec<Worm> {
        (0..n)
            .map(|_| {
                let (x, y) = (dice.below(w), dice.from(rows.0, rows.1));
                walk(dice, w, h, x, y, steps)
            })
            .collect()
    };
    let ground = GroundDraws {
        heights,
        stones: worms(&mut dice, p.stone_blobs, (p.surface_max, p.dirt_to_stone), 8),
        dirts: worms(&mut dice, p.dirt_blobs, (p.dirt_to_stone, p.stone_to_ash), 8),
        clays: worms(&mut dice, p.clay_blobs, p.clay_rows, 6),
        surface_worms: worms(&mut dice, p.surface_worms, (p.surface_min, p.surface_max), 20),
        cavern_worms: worms(&mut dice, p.cavern_worms.max(20), p.cavern_worm_rows, 60),
        ceilings: (0..w).map(|_| dice.from(p.hell_ceiling_rows.0, p.hell_ceiling_rows.1)).collect(),
        floors: (0..w).map(|_| dice.from(p.hell_floor_rows.0, p.hell_floor_rows.1)).collect(),
        veins: p.ores.iter().map(|o| worms(&mut dice, o.veins, o.rows, 6)).collect(),
    };
    let surface = lay_ground(&mut world, &p, &ground);
    for y in 0..h {
        for x in 0..w {
            let id = world.tile(x, y).id;
            for o in &p.ores {
                assert!(o.tile != id || (o.rows.0 <= y && y < o.rows.1), "{id:?} in row {y}");
            }
        }
    }
    let pockets = find_air_pockets(&world, p.surface_min);
    let rolls = pockets
        .regions
        .iter()
        .map(|r| PocketRoll {
            water: dice.percent(35),
            lava: dice.percent(30),
            rows: dice.below(r.max_y - r.min_y + 2),
        })
        .collect();
    fill_and_settle(&mut world, &p, &pockets, &rolls);
    let flora = (0..w)
        .map(|_| FloraRoll {
            gap: dice.from(5, 16),
            height: dice.from(7, 17),
            mushroom: dice.below(40) == 0,
        })
        .collect();
    let sand = worms(&mut dice, p.sand_patches, (p.surface_min, p.surface_max), 12);
    let draws = DressDraws { sand, first_gap: 5, flora };
    assert!(dress(&mut world, &p, &surface, &draws) < MAX_SETTLE_ROUNDS);

    let scan = |dice: &mut Dice, rows: (u32, u32), wide: u32| -> Vec<(u32, u32)> {
        (0..600).map(|_| (dice.from(1, w - wide - 1), dice.from(rows.0, rows.1))).collect()
    };
    let ruin_count = p.ruins;
    let structures = StructureDraws {
        forge: (3, 2),
        ruins: (0..ruin_count)
            .map(|i| {
                let (lo, hi) = ruin_slice(&p, i);
                (0..50).map(|_| dice.from(lo, hi)).collect()
            })
            .collect(),
        ruin_loots: (0..ruin_count).map(|_| any_loot(&underworld_chest(), &mut dice)).collect(),
        underground: (0..p.underground_chests)
            .map(|_| (0..20).map(|_| scan(&mut dice, p.underground_chest_rows, 2)).collect())
            .collect(),
        underground_loots: (0..p.underground_chests)
            .map(|_| any_loot(&underground_chest(), &mut dice))
            .collect(),
        surface: (0..p.surface_chests)
            .map(|_| (0..100).map(|_| dice.from(2, w - 4)).collect())
            .collect(),
        surface_loots: (0..p.surface_chests)
            .map(|_| any_loot(&surface_chest(), &mut dice))
            .collect(),
        altars: (0..p.altars)
            .map(|_| (0..12).map(|_| scan(&mut dice, p.altar_rows, 3)).collect())
            .collect(),
        crystals: (0..p.life_crystals)
            .map(|_| scan(&mut dice, p.life_crystal_rows, 1))
            .collect(),
        pots: (0..p.pots).map(|_| scan(&mut dice, (p.surface_max, h - 1), 1)).collect(),
        web_coins: pockets.regions.iter().map(|_| dice.percent(10)).collect(),
        web_seeds: (0..p.cobweb_target * 250)
            .map(|_| WebSeed {
                x: dice.from(1, w - 1),
                y: dice.from(p.cobweb_rows.0, p.cobweb_rows.1),
                coins: (0..6).map(|_| dice.percent(50)).collect(),
            })
            .collect(),
    };
    place_structures(&mut world, &mut chests, &p, &pockets, structures);
    pick_spawn(&mut world, &mut chests, &p);
    (world, chests, p)
}

fn count_tiles(w: &World, id: TileId) -> usize {
    w.tiles.iter().filter(|t| t.id == id).count()
}

#[test]
fn a_generated_world_holds_together() {
    let (w, chests, p) = generate(7, 320, 300);
    // The start: a flat platform with room above it.
    let (x, y) = w.spawn;
    assert!(w.tile(x, y + 1).is_solid());
    for dy in 0..3 {
        assert_eq!(w.tile(x, y - dy).id, TileId::Air);
    }
    assert!(x.abs_diff(w.width / 2) <= 20);
    for px in (x - 5)..(x + 5) {
        assert!(w.tile(px, y + 1).is_solid(), "hole in platform at {px}");
        assert_eq!(w.tile(px, y).id, TileId::Air);
    }
    // Ores stay in their rows.
    for spec in &p.ores {
        for y in 0..w.height {
            for x in 0..w.width {
                if w.tile(x, y).id == spec.tile {
                    assert!(spec.rows.0 <= y && y < spec.rows.1, "{:?} at {y}", spec.tile);
                }
            }
        }
    }
    // Water and lava touch nowhere.
    let kind = |x: u32, y: u32| match w.tile(x, y).liquid {
        Liquid::Filled { kind, .. } => Some(kind),
        Liquid::Empty => None,
    };
    for y in 0..w.height - 1 {
        for x in 0..w.width - 1 {
            if let Some(k) = kind(x, y) {
                assert!(kind(x + 1, y).is_none_or(|o| o == k), "at ({x},{y})");
                assert!(kind(x, y + 1).is_none_or(|o| o == k), "at ({x},{y})");
            }
        }
    }
    // Every chest stands whole, holds something, and no chest is left over.
    for chest in &chests.chests {
        let (cx, cy) = chest.origin;
        assert!(chest.slots.iter().any(|s| s.is_some()));
        for dy in 0..2 {
            for dx in 0..2 {
                let t = w.tile(cx + dx, cy + dy);
                assert_eq!(t.id, TileId::Chest);
                assert_eq!((t.state.part_x as u32, t.state.part_y as u32), (dx, dy));
            }
        }
    }
    assert!(!chests.chests.is_empty());
    assert_eq!(count_tiles(&w, TileId::Chest), chests.chests.len() * 4);
    // Trees end in one top and stand on something.
    for y in 1..w.height - 1 {
        for x in 0..w.width {
            let t = w.tile(x, y);
            if t.id == TileId::TreeTrunk {
                let above = w.tile(x, y - 1).id == TileId::TreeTrunk;
                assert_eq!(t.state.variant == TREE_SEGMENT_TRUNK, above, "at ({x},{y})");
                let below = w.tile(x, y + 1);
                assert!(below.is_solid() || below.id == TileId::TreeTrunk);
            }
        }
    }
    // Things are there.
    for id in [TileId::Pot, TileId::LifeCrystal, TileId::Cobweb, TileId::EmberBrick] {
        assert!(count_tiles(&w, id) > 0, "no {id:?}");
    }
}

#[test]
fn equal_draws_give_equal_worlds() {
    let (a, ca, _) = generate(7, 300, 300);
    let (b, cb, _) = generate(7, 300, 300);
    assert_eq!(a.spawn, b.spawn);
    assert_eq!(a.tiles, b.tiles);
    assert_eq!(ca.chests.len(), cb.chests.len());
    let (c, _, _) = generate(8, 300, 300);
    assert_ne!(a.tiles, c.tiles);
}

#[test]
fn labels_separate_pockets_and_flags_sky() {
    // Solid world with two pockets, one connected to the sky.
    let mut w = World::new(20, 20);
    for y in 5..20 {
        for x in 0..20 {
            w.set_tile(x, y, Tile::of(TileId::Stone));
        }
    }
    // Enclosed 3x2 pocket.
    for y in 10..12 {
        for x in 3..6 {
            w.set_tile(x, y, Tile::of(TileId::Air));
        }
    }
    // Shaft open to the sky.
    for y in 5..15 {
        w.set_tile(12, y, Tile::of(TileId::Air));
    }

    let p = find_air_pockets(&w, 5);
    let enclosed = p.regions.iter().filter(|r| !r.open_to_sky).count();
    assert_eq!(enclosed, 1);
    let pocket = p.regions.iter().find(|r| !r.open_to_sky).expect("enclosed pocket");
    assert_eq!(pocket.cells, 6);
    assert_eq!((pocket.min_y, pocket.max_y), (10, 11));
    // The shaft and the sky share one open region.
    let shaft_id = p.region_at(&w, 12, 10).expect("labeled");
    let sky_id = p.region_at(&w, 0, 0).expect("labeled");
    assert_eq!(shaft_id, sky_id);
    assert!(p.regions[(shaft_id - 1) as usize].open_to_sky);
    // Solid cells carry no label.
    assert_eq!(p.region_at(&w, 0, 19), None);
}

#[test]
fn chest_rolls_have_primary_and_guaranteed_extras() {
    let table = underground_chest();
    let mut dice = Dice(5);
    for _ in 0..200 {
        let slots = any_loot(&table, &mut dice);
        assert_eq!(slots.len(), CHEST_SLOTS);
        let filled: Vec<_> = slots.iter().flatten().collect();
        // 1 primary + 3 guaranteed extras minimum.
        assert!(filled.len() >= 4, "only {} slots filled", filled.len());
        assert!(filled.iter().all(|s| s.count >= 1));
        // The coin extra is always present.
        assert!(filled.iter().any(|s| s.item == ItemId::SilverCoin));
        for s in &filled {
            if s.item == ItemId::SilverCoin {
                assert!((5..=20).contains(&s.count));
            }
            if s.item == ItemId::Torch {
                assert!((5..=15).contains(&s.count));
            }
        }
    }
}

#[test]
fn either_rolls_produce_both_options() {
    let entry = LootRoll::either(ItemId::SilverBar, ItemId::GoldBar, 3, 8);
    assert_eq!(entry.roll(false, 3), InvSlot::new(ItemId::SilverBar, 3));
    assert_eq!(entry.roll(true, 8), InvSlot::new(ItemId::GoldBar, 8));
    // Without an alternative the swap changes nothing.
    assert_eq!(LootRoll::of(ItemId::Gel, 1, 2).roll(true, 2), InvSlot::new(ItemId::Gel, 2));
}

#[test]
fn weights_share_out_the_draws() {
    let table = pot_loot();
    let total: u32 = table.iter().map(|e| e.1).sum();
    let mut counts = vec![0u32; table.len()];
    for at in 0..total as u64 {
        counts[pick_weighted(&table, at).expect("within the weights")] += 1;
    }
    assert_eq!(counts, table.iter().map(|e| e.1).collect::<Vec<_>>());
    assert_eq!(pick_weighted(&table, total as u64), None);
    // Coins out of pots are worth more further down.
    assert_eq!(pot_coin_mult(100, 450, 1000), 1);
    assert!(pot_coin_mult(1000, 450, 1000) > pot_coin_mult(450, 450, 1000));
    let coins = table.iter().position(|e| e.0.item.coin_value().is_some()).expect("coins");
    let throw = Throw { hit: 0, swap: false, spread: 0 };
    let plain = roll_pot(&table, coins, throw, 1);
    let deep = roll_pot(&table, coins, throw, 3);
    assert_eq!(deep.count, 3 * plain.count);
}

#[test]
fn parameters_scale_with_the_world() {
    let p = full_size();
    assert_eq!((p.surface_min, p.surface_baseline, p.surface_max), (220, 280, 340));
    assert_eq!((p.dirt_to_stone, p.stone_to_ash), (450, 1000));
    assert_eq!((p.stone_blobs, p.pots, p.altars, p.ruins), (400, 600, 30, 10));
    assert_eq!(p.ores.len(), 5);
    assert_eq!(p.ores[0].rows, (250, 701));
    assert_eq!(p.sand_min_spawn_dist, 150);
    let small = params(600, 400);
    assert_eq!(small.stone_to_ash, 333);
    assert_eq!(small.ruins, 1, "at least one");
    assert_eq!(small.sand_min_spawn_dist, 40);
}

fn stone_world(w: u32, h: u32) -> World {
    let mut world = World::new(w, h);
    for y in 0..h {
        for x in 0..w {
            let mut t = Tile::of(TileId::Stone);
            t.wall = WallId::Stone;
            world.set_tile(x, y, t);
        }
    }
    world
}

/// The cells on the way of a worm that wanders off from `start`.
fn worm(dice: &mut Dice, side: u32, start: (f32, f32), strength: f32, steps: u32) -> Vec<Vec<(u32, u32)>> {
    let mut unit = |lo: f32, hi: f32| lo + (hi - lo) * dice.below(1 << 20) as f32 / (1 << 20) as f32;
    let angle = unit(0.0, std::f32::consts::TAU);
    let (mut x, mut y) = start;
    let (mut dx, mut dy) = (angle.cos(), angle.sin());
    let mut out = Vec::new();
    for _ in 0..steps {
        let mut cells = Vec::new();
        for b in 0..side {
            for a in 0..side {
                let (ex, ey) = (a as f32 + 0.5 - x, b as f32 + 0.5 - y);
                if ex * ex + ey * ey <= strength {
                    cells.push((a, b));
                }
            }
        }
        out.push(cells);
        x += dx * strength.sqrt() * 0.5;
        y += dy * strength.sqrt() * 0.5;
        dx = (dx + unit(-0.5, 0.5)).clamp(-1.0, 1.0);
        dy = (dy + unit(-0.5, 0.5)).clamp(-1.0, 1.0);
    }
    out
}

#[test]
fn carve_opens_a_tunnel_and_keeps_walls() {
    let mut w = stone_world(100, 100);
    let way = worm(&mut Dice(1), 100, (50.0, 50.0), 9.0, 20);
    tile_runner(&mut w, &Brush::Carve, &free(), &way);
    let air = count_tiles(&w, TileId::Air);
    assert!(air > 50, "worm carved only {air} tiles");
    // Walls survive carving.
    assert!(w.tiles.iter().all(|t| t.wall == WallId::Stone));
}

#[test]
fn paint_respects_replace_filter_and_rows() {
    let mut w = World::new(60, 60);
    for y in 30..60 {
        for x in 0..60 {
            w.set_tile(x, y, Tile::of(TileId::Stone));
        }
    }
    let brush = Brush::Paint { tile: TileId::CopperOre, replaces: vec![TileId::Stone] };
    let reach = Reach { rows: (35, 50), column_limit: None };
    let way = worm(&mut Dice(2), 60, (30.0, 40.0), 6.0, 10);
    tile_runner(&mut w, &brush, &reach, &way);
    let mut painted = 0;
    for y in 0..60 {
        for x in 0..60 {
            if w.tile(x, y).id == TileId::CopperOre {
                painted += 1;
                assert!((35..50).contains(&y), "ore outside row clamp at y={y}");
            }
        }
    }
    assert!(painted > 0, "vein painted nothing");
    // Air cells (rows 0..30) were never painted.
    for y in 0..30 {
        for x in 0..60 {
            assert_eq!(w.tile(x, y).id, TileId::Air);
        }
    }
}

#[test]
fn carving_opens_cells_and_keeps_walls() {
    let mut w = stone_world(20, 20);
    tile_runner(&mut w, &Brush::Carve, &free(), &vec![vec![(5, 5), (6, 5)], vec![(6, 5), (7, 5)]]);
    assert_eq!(count_tiles(&w, TileId::Air), 3);
    assert!(w.tiles.iter().all(|t| t.wall == WallId::Stone));
}

#[test]
fn painting_respects_what_it_may_replace_and_its_rows() {
    let mut w = stone_world(20, 20);
    w.set_tile(3, 10, Tile::of(TileId::Dirt));
    let brush = Brush::Paint { tile: TileId::CopperOre, replaces: vec![TileId::Stone] };
    let mut limits = vec![20; 20];
    limits[4] = 11;
    let reach = Reach { rows: (10, 12), column_limit: Some(limits) };
    let cells = vec![(2, 9), (2, 10), (2, 11), (2, 12), (3, 10), (4, 10), (4, 11)];
    apply_circle(&mut w, &brush, &reach, &cells);
    let painted: Vec<(u32, u32)> = (0..20)
        .flat_map(|y| (0..20).map(move |x| (x, y)))
        .filter(|&(x, y)| w.tile(x, y).id == TileId::CopperOre)
        .collect();
    assert_eq!(painted, vec![(2, 10), (4, 10), (2, 11)]);
    assert_eq!(w.tile(3, 10).id, TileId::Dirt);
}

#[test]
fn passes_paint_and_dig_what_they_should() {
    let one = |cells: &[(u32, u32)]| -> Vec<Worm> { vec![vec![cells.to_vec()]] };
    let p = full_size();
    let mut w = stone_world(6, 6);
    w.set_tile(0, 0, Tile::of(TileId::Dirt));
    // Stone goes into dirt first, and dirt into that stone after it.
    stone_dirt_blobs(&mut w, &one(&[(0, 0), (9, 9)]), &one(&[(0, 0), (1, 0)]));
    assert_eq!((w.tile(0, 0).id, w.tile(1, 0).id), (TileId::Dirt, TileId::Dirt));
    assert_eq!(w.tile(2, 0).id, TileId::Stone);
    w.set_tile(3, 3, Tile::of(TileId::Ash));
    clay(&mut w, &one(&[(0, 0), (2, 0), (3, 3)]));
    assert_eq!((w.tile(0, 0).id, w.tile(2, 0).id), (TileId::Clay, TileId::Clay));
    assert_eq!(w.tile(3, 3).id, TileId::Ash);
    surface_caves(&mut w, &one(&[(4, 4)]));
    cavern_caves(&mut w, &one(&[(5, 5)]));
    assert_eq!((w.tile(4, 4).id, w.tile(5, 5).id), (TileId::Air, TileId::Air));
    assert_eq!(w.tile(4, 4).wall, WallId::Stone);
    // Sand ends a few rows below the surface.
    let mut deep = stone_world(2, 60);
    let column: Vec<(u32, u32)> = (0..60).map(|y| (1, y)).collect();
    sand_patches(&mut deep, &p, &vec![0, 10], &one(&column));
    assert_eq!(deep.tile(1, 10 + p.sand_max_depth).id, TileId::Sand);
    assert_eq!(deep.tile(1, 11 + p.sand_max_depth).id, TileId::Stone);
    assert_eq!(deep.tile(0, 5).id, TileId::Stone);
    // Later ores do not replace earlier ones.
    let mut bed = stone_world(1, 1200);
    let veins: Vec<Vec<Worm>> = p.ores.iter().map(|o| one(&[(0, o.rows.0), (0, 720)])).collect();
    ore_veins(&mut bed, &p, &veins);
    assert_eq!(bed.tile(0, 250).id, TileId::CopperOre);
    assert_eq!(bed.tile(0, 300).id, TileId::IronOre);
    assert_eq!(bed.tile(0, 720).id, TileId::IronOre);
    assert_eq!(bed.tile(0, 1020).id, TileId::Stone);
}

#[test]
fn passes_have_names_and_worlds_a_least_size() {
    assert_eq!(pass_name(0), None);
    assert_eq!(pass_name(1), Some("surface heightmap"));
    assert_eq!(pass_name(12), Some("spawn point"));
    assert_eq!(pass_name(13), None);
    assert!(has_room(300, 300));
    assert!(!has_room(299, 4000));
    assert!(!has_room(4200, 299));
}

#[test]
fn worms_branch_within_limits() {
    assert!(may_branch(true, 31, true));
    assert!(!may_branch(true, 32, true));
    assert!(!may_branch(false, 0, true));
    assert!(!may_branch(true, 0, false));
    assert_eq!((child_steps(100), child_steps(1), child_steps(0)), (50, 1, 1));
}

#[test]
fn starts_of_blobs_and_sand() {
    let p = full_size();
    assert_eq!(stone_blob_rows(&p, 300), (300, 450));
    assert_eq!(stone_blob_rows(&p, 900), (449, 450));
    assert_eq!(sand_limits(&p, &vec![280, 1190]), vec![306, 1200]);
    assert_eq!(sand_start(&p, &vec![2100, 2000, 1950, 5]), 1950);
    assert_eq!(sand_start(&p, &vec![2100, 2101]), 2101, "the last one drawn");
    assert_eq!(heightmap(&p, &vec![100, 280, 9000]), vec![220, 280, 340]);
}

#[test]
fn smoothing_opens_spurs_and_closes_holes() {
    let mut w = stone_world(9, 9);
    for y in 0..5 {
        for x in 0..9 {
            w.set_tile(x, y, Tile::of(TileId::Air));
        }
    }
    // A lonely block in the air, and a hole in the ground.
    w.set_tile(4, 2, Tile::of(TileId::Dirt));
    w.set_tile(4, 7, Tile::of(TileId::Air));
    smooth_once(&mut w, 0);
    assert_eq!(w.tile(4, 2).id, TileId::Air);
    assert_eq!(w.tile(4, 7).id, TileId::Stone);
    // Above the first row nothing changes.
    w.set_tile(4, 2, Tile::of(TileId::Dirt));
    smooth_once(&mut w, 3);
    assert_eq!(w.tile(4, 2).id, TileId::Dirt);
    assert_eq!(surface_scan(&w)[4], 2);
    assert_eq!(surface_scan(&w)[0], 5);
}

#[test]
fn grass_grows_under_the_open_sky() {
    let mut w = World::new(10, 30);
    for y in 20..30 {
        for x in 0..10 {
            w.set_tile(x, y, Tile::of(TileId::Dirt));
        }
    }
    grow_grass(&mut w);
    assert!((0..10).all(|x| w.tile(x, 20).id == TileId::Grass && w.tile(x, 21).id == TileId::Dirt));
    assert!(plant_tree(&mut w, 4, 20, 7));
    assert_eq!(w.tile(4, 13).state.variant, TREE_SEGMENT_TOP);
    assert_eq!(w.tile(4, 19).state.variant, TREE_SEGMENT_TRUNK);
    assert_eq!(w.tile(4, 12).id, TileId::Air);
    // There is no room for a second one at the same place, nor for a giant.
    assert!(!plant_tree(&mut w, 4, 20, 7));
    assert!(!plant_tree(&mut w, 6, 20, 25));
}

#[test]
fn pockets_fill_from_the_bottom() {
    let p = full_size();
    let mut w = stone_world(12, 12);
    for y in 4..8 {
        for x in 3..9 {
            w.set_tile(x, y, Tile::of(TileId::Air));
        }
    }
    let pockets = find_air_pockets(&w, 0);
    let region = pockets.regions[0];
    let roll = PocketRoll { water: true, lava: false, rows: 2 };
    // Rows 4 to 7 lie above the water rows of a full-size world.
    assert!(choose_fill(&p, &region, roll).is_none());
    let small = GenParams { water_rows: (0, 10), lava_rows: (10, 12), ..params(300, 300) };
    let fill = choose_fill(&small, &region, roll).expect("filled");
    assert_eq!((fill.kind, fill.from), (LiquidKind::Water, 6));
    let rounds = fill_and_settle(&mut w, &small, &pockets, &vec![roll]);
    assert!(rounds < MAX_SETTLE_ROUNDS);
    let water = w.tiles.iter().filter(|t| t.liquid.is_some()).count();
    assert_eq!(water, 12);
    assert_eq!(w.tile(3, 6).liquid, Liquid::new(LiquidKind::Water, 8));
    assert_eq!(w.tile(3, 5).liquid, Liquid::NONE);
}

/// Stone with a hall from row 10 to 19.
fn hall() -> World {
    let mut w = stone_world(60, 40);
    for y in 10..20 {
        for x in 0..60 {
            w.set_tile(x, y, Tile::of(TileId::Air));
        }
    }
    w
}

#[test]
fn objects_stand_on_floors() {
    let w = hall();
    assert_eq!(find_floor_spot(&w, &vec![(5, 15), (5, 20), (6, 20)], 2, 2), Some((5, 18)));
    assert_eq!(find_floor_spot(&w, &vec![(5, 15), (5, 21), (5, 1)], 2, 2), None);

    let mut w = hall();
    let altars = ritual_altars(&mut w, &vec![vec![vec![(5, 15)], vec![(8, 20)]], vec![vec![(8, 20)]]]);
    assert_eq!(altars, vec![Some((8, 18)), None]);
    assert_eq!(w.tile(10, 19).id, TileId::RitualAltar);
    assert_eq!(w.tile(10, 19).state, TileState::part(2, 1));
}

#[test]
fn underground_chests_keep_apart() {
    let mut w = hall();
    let mut chests = ChestStore::new();
    let p = full_size();
    let loot = |n| {
        let mut slots = vec![None; CHEST_SLOTS];
        slots[0] = Some(InvSlot::new(ItemId::Torch, n));
        slots
    };
    let requests = vec![
        vec![vec![(5, 20)]],
        // The first scan lands too close, the second far enough.
        vec![vec![(10, 20), (50, 20)], vec![(40, 20)]],
        vec![vec![(7, 20)]],
    ];
    let loots = vec![loot(1), loot(2), loot(3)];
    let spots = underground_chests(&mut w, &mut chests, &p, &requests, loots);
    assert_eq!(spots, vec![Some((5, 18)), Some((40, 18)), None]);
    assert_eq!(chests.chests.len(), 2);
    assert_eq!(chests.get((40, 18)).map(|s| s[0]), Some(Some(InvSlot::new(ItemId::Torch, 2))));
}

#[test]
fn surface_chests_take_the_first_floor_with_room() {
    let mut w = hall();
    let mut chests = ChestStore::new();
    let p = full_size();
    // The shared limit is the underground row, beyond this small world.
    let small = GenParams { underground_chest_rows: (30, 40), ..p };
    let surface = vec![10; 60];
    let loots = vec![vec![None; CHEST_SLOTS]; 2];
    let requests = vec![vec![20, 30], vec![20]];
    let spots = surface_chests(&mut w, &mut chests, &small, &surface, &requests, loots);
    assert_eq!(spots[0], Some((20, 18)));
    assert_eq!(spots[1], None, "the floor is taken");
    assert_eq!(w.tile(21, 19).id, TileId::Chest);
}

#[test]
fn crystals_sit_in_stone_and_pots_on_floors() {
    let mut w = hall();
    life_crystals(&mut w, &vec![vec![(5, 30), (5, 20), (6, 20)], vec![(30, 15)]]);
    assert_eq!(w.tile(5, 30).id, TileId::Stone, "no air around");
    assert_eq!(w.tile(5, 20).id, TileId::LifeCrystal);
    assert_eq!(w.tile(5, 20).wall, WallId::Stone);
    assert_eq!(w.tile(6, 20).id, TileId::Stone, "one for a request");
    assert_eq!(count_tiles(&w, TileId::LifeCrystal), 1);

    let mut lava = Tile::of(TileId::Air);
    lava.liquid = Liquid::new(LiquidKind::Lava, 8);
    w.set_tile(12, 19, lava);
    pots(&mut w, &vec![vec![(10, 15), (12, 19), (11, 19)], vec![(11, 19)]]);
    assert_eq!(w.tile(11, 19).id, TileId::Pot);
    assert_eq!(count_tiles(&w, TileId::Pot), 1);
}

#[test]
fn cobwebs_fill_nooks_up_to_the_target() {
    let mut w = hall();
    let coins = vec![true, false, false, false, false, false];
    let seed = |x, y| WebSeed { x, y, coins: coins.clone() };
    // The middle of the hall is no nook; a corner under the ceiling is none
    // either, but a slot in the wall is.
    w.set_tile(30, 20, Tile::of(TileId::Air));
    w.set_tile(31, 20, Tile::of(TileId::Air));
    let n = top_up_webs(&mut w, 0, 2, &vec![seed(20, 15), seed(30, 20), seed(31, 20)]);
    assert_eq!(n, 2);
    assert_eq!(w.tile(30, 20).id, TileId::Cobweb);
    assert_eq!(w.tile(31, 20).id, TileId::Cobweb);
    assert_eq!(w.tile(20, 15).id, TileId::Air);
    // Enough is enough.
    assert_eq!(top_up_webs(&mut w, 2, 2, &vec![seed(30, 20)]), 2);
}

#[test]
fn ruins_stand_in_their_slices() {
    let p = full_size();
    let mut last = 0;
    for i in 0..p.ruins {
        let (lo, hi) = ruin_slice(&p, i);
        assert!(last <= lo && lo < hi && hi + 10 < 4200);
        last = hi;
    }
    let mut w = hall();
    assert_eq!(underworld_floor(&w, 5, 30), Some(20));
    let mut chests = ChestStore::new();
    let loot = vec![Some(InvSlot::new(ItemId::GoldBar, 3)); 1];
    assert!(build_ruin(&mut w, &mut chests, (10, 8), (3, 2), 20, 20, loot));
    assert_eq!(w.tile(20, 13).id, TileId::EmberBrick);
    assert_eq!(w.tile(24, 16).wall, WallId::Stone);
    assert_eq!(w.tile(21, 18).id, TileId::InfernalForge);
    assert_eq!(w.tile(27, 18).id, TileId::Chest);
    assert!(chests.get((27, 18)).is_some());
}

#[test]
fn the_start_is_the_flattest_column() {
    assert_eq!(best_column(50, 40, &vec![5, 3, 9, 3]), 41);
    assert_eq!(best_column(50, 40, &Vec::new()), 50);
    // Four columns of 3, 5, 5 and 7: variance 2, times 16.
    assert_eq!(unevenness(&vec![9, 3, 5, 5, 7, 9], 1, 5), 32);
    assert_eq!(unevenness(&vec![4, 4, 4], 0, 3), 0);
    let p = full_size();
    assert_eq!(spawn_candidates(&p), (2080, 2120));
    assert_eq!(platform_row(&vec![10, 11, 12, 13], 0, 4, 100), 11);
}

#[test]
fn pictures_show_what_is_in_front() {
    let mut w = World::new(4, 1200);
    assert_eq!(hell_top(1200), 1000);
    assert_eq!(pixel(&w, 0, 0, 1000), (135, 206, 235));
    assert_eq!(pixel(&w, 0, 1000, 1000), (28, 12, 12));
    let mut t = Tile::of(TileId::Air);
    t.wall = WallId::Stone;
    w.set_tile(1, 0, t);
    assert_eq!(pixel(&w, 1, 0, 1000), (42, 42, 50));
    t.liquid = Liquid::new(LiquidKind::Water, 8);
    w.set_tile(1, 0, t);
    assert_eq!(pixel(&w, 1, 0, 1000), (20, 120, 236));
    t.liquid = Liquid::new(LiquidKind::Lava, 8);
    w.set_tile(1, 0, t);
    assert_eq!(pixel(&w, 1, 0, 1000), (244, 92, 10));
    t.id = TileId::Stone;
    w.set_tile(1, 0, t);
    assert_eq!(pixel(&w, 1, 0, 1000), (115, 115, 122));
    let mut trunk = Tile::of(TileId::TreeTrunk);
    w.set_tile(2, 0, trunk);
    assert_eq!(pixel(&w, 2, 0, 1000), (105, 78, 48));
    trunk.state.variant = TREE_SEGMENT_TOP;
    w.set_tile(2, 0, trunk);
    assert_eq!(pixel(&w, 2, 0, 1000), (40, 130, 45));
    let all = render(&w);
    assert_eq!((all.width, all.height), (4, 1200));
    assert_eq!(all.bytes.len(), 3 * 4800);
    assert_eq!(all.bytes[3..6], [115, 115, 122]);
    assert_eq!(all.bytes[12 * 1000..12 * 1000 + 3], [28, 12, 12]);
}

/// A picture whose dots tell their column and row.
fn marked(width: u32, height: u32) -> Picture {
    let mut bytes = Vec::new();
    for y in 0..height {
        for x in 0..width {
            bytes.extend([x as u8, y as u8, 7]);
        }
    }
    Picture { width, height, bytes }
}

#[test]
fn pictures_shrink_to_dots_they_hold() {
    let p = marked(9, 6);
    assert!(shrink(&p, None).is_none());
    assert!(shrink(&p, Some(0)).is_none());
    assert!(shrink(&p, Some(1)).is_none());
    let small = shrink(&p, Some(3)).unwrap();
    assert_eq!((small.width, small.height), (3, 2));
    // The dot in the middle of each square of nine.
    assert_eq!(
        small.bytes,
        [1, 1, 7, 4, 1, 7, 7, 1, 7, 1, 4, 7, 4, 4, 7, 7, 4, 7]
    );
    let none = shrink(&p, Some(10)).unwrap();
    assert_eq!((none.width, none.height, none.bytes.len()), (0, 0, 0));
}

#[test]
fn parts_of_pictures_end_where_the_picture_ends() {
    let p = marked(9, 6);
    let parts = cut(&p, &vec![(2, 1, 2, 2), (7, 5, 4, 4), (9, 0, 3, 3)]);
    assert_eq!(parts.len(), 3);
    assert_eq!((parts[0].width, parts[0].height), (2, 2));
    assert_eq!(parts[0].bytes, [2, 1, 7, 3, 1, 7, 2, 2, 7, 3, 2, 7]);
    assert_eq!((parts[1].width, parts[1].height), (2, 1));
    assert_eq!(parts[1].bytes, [7, 5, 7, 8, 5, 7]);
    assert_eq!((parts[2].width, parts[2].height, parts[2].bytes.len()), (0, 3, 0));
}
