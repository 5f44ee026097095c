use ferraria::grid::World;
use ferraria::sim::fluids::{settle, FluidSim, MAX_SETTLE_ROUNDS};
use ferraria::tile::{Liquid, LiquidKind, Tile, TileId};

/// A world whose outer border is stone, interior air.
fn boxed_world(w: u32, h: u32) -> World {
    let mut world = World::new(w, h);
    for x in 0..w {
        world.set_tile(x, h - 1, Tile::of(TileId::Stone));
        world.set_tile(x, 0, Tile::of(TileId::Stone));
    }
    for y in 0..h {
        world.set_tile(0, y, Tile::of(TileId::Stone));
        world.set_tile(w - 1, y, Tile::of(TileId::Stone));
    }
    world
}

fn put(world: &mut World, x: u32, y: u32, kind: LiquidKind, level: u8) {
    let mut t = world.tile(x, y);
    t.liquid = Liquid::new(kind, level);
    world.set_tile(x, y, t);
}

fn total_level(world: &World, kind: LiquidKind) -> u32 {
    world
        .tiles
        .iter()
        .filter(|t| t.liquid.kind() == Some(kind))
        .map(|t| t.liquid.level() as u32)
        .sum()
}

fn assert_no_contact(w: &World) {
    for y in 0..w.height {
        for x in 0..w.width {
            if w.tile(x, y).liquid.kind() == Some(LiquidKind::Water) {
                for (nx, ny) in [(x + 1, y), (x, y + 1)] {
                    if nx < w.width && ny < w.height {
                        assert_ne!(
                            w.tile(nx, ny).liquid.kind(),
                            Some(LiquidKind::Lava),
                            "water at ({x},{y}) touches lava"
                        );
                    }
                }
            }
        }
    }
}

#[test]
fn water_falls_and_spreads_flat() {
    let mut w = boxed_world(12, 8);
    put(&mut w, 5, 1, LiquidKind::Water, 8);
    put(&mut w, 5, 2, LiquidKind::Water, 8);
    let rounds = settle(&mut w);
    assert!(rounds < MAX_SETTLE_ROUNDS);
    // Volume conserved.
    assert_eq!(total_level(&w, LiquidKind::Water), 16);
    // Everything ends on the floor row or one above it, and no column holds
    // liquid floating over an emptier cell.
    for y in 1..7 {
        for x in 1..11 {
            let l = w.tile(x, y).liquid;
            if l.is_some() {
                let below = w.tile(x, y + 1);
                assert!(
                    below.is_solid() || below.liquid.level() == 8,
                    "floating liquid at ({x},{y})"
                );
            }
        }
    }
    // Settled water is equalized: adjacent levels differ by at most 1.
    for x in 1..10 {
        let a = w.tile(x, 6).liquid.level() as i32;
        let b = w.tile(x + 1, 6).liquid.level() as i32;
        assert!((a - b).abs() <= 1, "unequalized at x={x}: {a} vs {b}");
    }
}

#[test]
fn water_onto_lava_makes_obsidian() {
    let mut w = boxed_world(6, 6);
    put(&mut w, 2, 4, LiquidKind::Lava, 8);
    put(&mut w, 2, 2, LiquidKind::Water, 8);
    settle(&mut w);
    assert_eq!(w.tile(2, 4).id, TileId::Obsidian);
    assert_eq!(w.tile(2, 4).liquid, Liquid::NONE);
    assert_eq!(total_level(&w, LiquidKind::Lava), 0);
    // Every conversion costs the water exactly 1 level.
    let obsidian = w.tiles.iter().filter(|t| t.id == TileId::Obsidian).count() as u32;
    assert!(obsidian >= 1);
    assert_eq!(total_level(&w, LiquidKind::Water), 8 - obsidian);
    assert_no_contact(&w);
}

#[test]
fn lava_onto_water_also_converts_the_lava_cell() {
    let mut w = boxed_world(6, 7);
    put(&mut w, 2, 5, LiquidKind::Water, 8);
    put(&mut w, 2, 2, LiquidKind::Lava, 8);
    settle(&mut w);
    let obsidian = w.tiles.iter().filter(|t| t.id == TileId::Obsidian).count();
    assert!(obsidian >= 1, "no obsidian formed");
    assert_eq!(total_level(&w, LiquidKind::Lava), 0);
    assert!(total_level(&w, LiquidKind::Water) < 8);
    // Never water directly adjacent to lava once settled.
    assert_no_contact(&w);
}

#[test]
fn settled_world_has_no_water_lava_contact() {
    let mut w = boxed_world(20, 10);
    // Interleave pools.
    for x in 2..8 {
        put(&mut w, x, 2, LiquidKind::Water, 8);
    }
    for x in 6..12 {
        put(&mut w, x, 5, LiquidKind::Lava, 8);
    }
    settle(&mut w);
    assert_no_contact(&w);
}

/// A small generator of even enough numbers.
struct Dice(u64);

impl Dice {
    fn below(&mut self, n: u64) -> u64 {
        self.0 ^= self.0 << 13;
        self.0 ^= self.0 >> 7;
        self.0 ^= self.0 << 17;
        (self.0 >> 11) % n
    }
}

#[test]
fn settle_reaches_a_fixed_point_on_random_terrain() {
    for seed in 0..30u64 {
        let mut w = boxed_world(48, 48);
        let mut dice = Dice(0xf00d ^ (seed * 0x9e37_79b9 + 1));
        for y in 1..47 {
            for x in 1..47 {
                if dice.below(100) < 35 {
                    w.set_tile(x, y, Tile::of(TileId::Stone));
                } else {
                    match dice.below(10) {
                        0..=2 => {
                            let lvl = 1 + dice.below(8) as u8;
                            put(&mut w, x, y, LiquidKind::Water, lvl);
                        }
                        3 => {
                            let lvl = 1 + dice.below(8) as u8;
                            put(&mut w, x, y, LiquidKind::Lava, lvl);
                        }
                        _ => {}
                    }
                }
            }
        }
        let rounds = settle(&mut w);
        assert!(rounds < MAX_SETTLE_ROUNDS, "seed {seed}: never terminated");
        assert_no_contact(&w);
        // Idempotency: a second settling must change nothing at all.
        let snapshot = w.tiles.clone();
        settle(&mut w);
        assert_eq!(snapshot, w.tiles, "seed {seed}: settle not a fixed point");
    }
}

#[test]
fn full_pool_is_stable() {
    let mut w = boxed_world(8, 6);
    for y in 2..5 {
        for x in 1..7 {
            put(&mut w, x, y, LiquidKind::Water, 8);
        }
    }
    let before = w.tiles.clone();
    let rounds = settle(&mut w);
    assert!(rounds <= 2, "flat-full pool should settle instantly");
    assert_eq!(before, w.tiles);
}

#[test]
fn marking_queues_a_cell_once_and_nothing_outside() {
    let w = boxed_world(6, 6);
    let mut sim = FluidSim::new(&w);
    assert!(!sim.is_active());
    sim.mark(9, 9);
    assert!(!sim.is_active());
    sim.mark(2, 2);
    sim.mark(2, 2);
    assert!(sim.is_active());
    let mut world = w;
    let mut changed = Vec::new();
    assert_eq!(sim.step(&mut world, true, true, &mut changed), 0);
    assert!(changed.is_empty());
    assert!(!sim.is_active());
}

#[test]
fn a_step_counts_changed_cells_once() {
    let mut w = World::new(5, 3);
    for y in 0..3 {
        for x in 0..5 {
            w.set_tile(x, y, Tile::of(TileId::Stone));
        }
    }
    for x in 1..4 {
        w.set_tile(x, 1, Tile::of(TileId::Air));
    }
    put(&mut w, 2, 1, LiquidKind::Water, 8);
    let mut sim = FluidSim::new(&w);
    sim.mark(2, 1);
    let mut changed = vec![(0, 0)];
    assert_eq!(sim.step(&mut w, true, true, &mut changed), 3);
    assert_eq!(changed, vec![(0, 0), (2, 1), (1, 1), (2, 1), (3, 1)]);
    let levels: Vec<u8> = (1..4).map(|x| w.tile(x, 1).liquid.level()).collect();
    assert_eq!(levels, vec![1, 6, 1]);
}

#[test]
fn a_lava_step_leaves_water_waiting() {
    let mut w = boxed_world(6, 6);
    put(&mut w, 2, 1, LiquidKind::Water, 8);
    let mut sim = FluidSim::new(&w);
    sim.seed_all(&w);
    let mut changed = Vec::new();
    sim.step(&mut w, false, true, &mut changed);
    assert_eq!(w.tile(2, 1).liquid.level(), 8);
    assert!(sim.is_active());
    sim.step(&mut w, true, false, &mut changed);
    assert_eq!(w.tile(2, 1).liquid, Liquid::NONE);
    assert_eq!(w.tile(2, 2).liquid, Liquid::new(LiquidKind::Water, 8));
}
