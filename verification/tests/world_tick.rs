use ferraria::grid::World;
use ferraria::item::{InvSlot, ItemId};
use ferraria::sim::interact::Drop;
use ferraria::sim::live::{Draw, Live, Luck};
use ferraria::sim::roster::Roster;
use ferraria::sim::world_tick::{fluids_due, random_tick_budget, Growth, RandomTick};
use ferraria::tile::{Liquid, LiquidKind, Tile, TileId, TREE_SEGMENT_TOP};

const FLOOR: u32 = 30;

/// Air above a slab of stone.
fn flat(w: u32, h: u32, floor: u32) -> Live {
    let mut world = World::new(w, h);
    for y in floor..h {
        for x in 0..w {
            world.set_tile(x, y, Tile::of(TileId::Stone));
        }
    }
    Live::new(world)
}

/// What a torch leaves.
fn torch() -> Option<InvSlot> {
    Some(InvSlot::new(ItemId::Torch, 1))
}

fn put(live: &mut Live, x: u32, y: u32, t: Tile) {
    live.change_tile(&Roster::new(), x, y, t, 0, &mut Vec::new());
}

fn random_tick(live: &mut Live, x: u32, y: u32, drops: &mut Vec<Drop>) -> RandomTick {
    live.random_tick_cell(&Roster::new(), x, y, 0, 0, torch(), drops, &mut Vec::new())
}

fn set_tile(live: &mut Live, x: u32, y: u32, id: TileId) {
    let mut t = live.world.tile(x, y);
    t.id = id;
    put(live, x, y, t);
}

fn water(level: u8) -> Tile {
    let mut t = Tile::of(TileId::Air);
    t.liquid = Liquid::new(LiquidKind::Water, level);
    t
}

/// Ticks of the world in which random updates hit a cell of air.
fn advance(live: &mut Live, tick: &mut u64, n: u64) {
    let budget = random_tick_budget(&live.world) as usize;
    let luck = Luck { draws: vec![Draw { x: 0, y: 0, choice: 0 }; budget], heights: vec![9; 8] };
    let (none, mut drops, mut out) = (Roster::new(), Vec::new(), Vec::new());
    for _ in 0..n {
        *tick += 1;
        live.world_tick(&none, *tick, &luck, torch(), 300, &mut drops, &mut out);
    }
}

#[test]
fn fluids_step_on_cadence_and_broadcast_batches() {
    let mut live = flat(100, 60, FLOOR);
    let mut tick = 0;
    // A 1-wide stone cup on the floor keeps the water from spreading.
    let (x, y) = (52, FLOOR - 3);
    set_tile(&mut live, x - 1, FLOOR - 1, TileId::Stone);
    set_tile(&mut live, x + 1, FLOOR - 1, TileId::Stone);
    put(&mut live, x, y, water(8));

    // Tick 1 is off-cadence for water: nothing moves.
    advance(&mut live, &mut tick, 1);
    assert!(live.staged.is_empty(), "no fluid batch off-cadence");
    assert_eq!(live.world.tile(x, y).liquid.level(), 8);

    // Tick 2: the water falls one cell.
    advance(&mut live, &mut tick, 1);
    assert!(live.staged.contains(&(x, y + 1)));
    assert_eq!(live.world.tile(x, y).liquid.level(), 0);
    assert_eq!(live.world.tile(x, y + 1).liquid.level(), 8);

    // Settles on the floor and goes quiet.
    advance(&mut live, &mut tick, 10);
    assert_eq!(live.world.tile(x, FLOOR - 1).liquid.level(), 8);
    live.staged.clear();
    advance(&mut live, &mut tick, 10);
    assert!(live.staged.is_empty(), "settled water stops broadcasting");
}

#[test]
fn sand_columns_collapse_one_cell_per_tick() {
    let mut live = flat(100, 60, FLOOR);
    let mut tick = 0;
    // A stone shelf 3 cells above the floor holds a 3-sand column.
    let x = 52;
    let shelf = FLOOR - 3;
    set_tile(&mut live, x, shelf, TileId::Stone);
    for dy in 1..=3 {
        set_tile(&mut live, x, shelf - dy, TileId::Sand);
    }
    set_tile(&mut live, x, shelf, TileId::Air);

    advance(&mut live, &mut tick, 1);
    assert_eq!(live.world.tile(x, shelf).id, TileId::Sand, "fell 1");
    assert_eq!(live.world.tile(x, shelf - 1).id, TileId::Sand);
    assert_eq!(live.world.tile(x, shelf - 3).id, TileId::Air, "top vacated");
    assert!(!live.staged.is_empty(), "sand movement batches");

    advance(&mut live, &mut tick, 1);
    assert_eq!(live.world.tile(x, shelf + 1).id, TileId::Sand, "fell 2");

    advance(&mut live, &mut tick, 6);
    // Settled: 3 sand resting on the floor, nothing floating above.
    for dy in 1..=3 {
        assert_eq!(live.world.tile(x, FLOOR - dy).id, TileId::Sand);
    }
    assert_eq!(live.world.tile(x, FLOOR - 4).id, TileId::Air);
    let total = (0..FLOOR)
        .filter(|&y| live.world.tile(x, y).id == TileId::Sand)
        .count();
    assert_eq!(total, 3, "sand conserved");
}

#[test]
fn sand_sinks_through_water_displacing_it() {
    let mut live = flat(100, 60, FLOOR);
    let mut tick = 0;
    let x = 52;
    // Water resting on the floor with sand floating right above it.
    put(&mut live, x, FLOOR - 1, water(8));
    set_tile(&mut live, x, FLOOR - 2, TileId::Sand);

    advance(&mut live, &mut tick, 1);
    assert_eq!(live.world.tile(x, FLOOR - 1).id, TileId::Sand, "sank");
    assert_eq!(
        live.world.tile(x, FLOOR - 1).liquid.level(),
        0,
        "solid cell holds no liquid"
    );
    assert_eq!(
        live.world.tile(x, FLOOR - 2).liquid.level(),
        8,
        "water displaced upward"
    );
}

#[test]
fn grass_spreads_and_dies_by_random_tick() {
    let mut live = flat(100, 60, FLOOR);
    // Grass next to exposed dirt: a tile update converts the dirt.
    let x = 52;
    set_tile(&mut live, x, FLOOR, TileId::Grass);
    set_tile(&mut live, x + 1, FLOOR, TileId::Dirt);
    let r = random_tick(&mut live, x, FLOOR, &mut Vec::new());
    assert!(matches!(r, RandomTick::Spreads(c) if c == (x + 1, FLOOR)));
    assert_eq!(live.world.tile(x + 1, FLOOR).id, TileId::Grass, "spread");

    // Covered grass (all four neighbors solid) dies to dirt.
    let (cx, cy) = (60, FLOOR + 2); // inside the floor slab
    set_tile(&mut live, cx, cy, TileId::Grass);
    let r = random_tick(&mut live, cx, cy, &mut Vec::new());
    assert!(matches!(r, RandomTick::Dies));
    assert_eq!(live.world.tile(cx, cy).id, TileId::Dirt, "died covered");
    assert_eq!(live.staged, vec![(x + 1, FLOOR), (cx, cy)]);
}

#[test]
fn torches_extinguish_under_water() {
    let mut live = flat(100, 60, FLOOR);
    let (x, y) = (52, FLOOR - 1);
    let mut t = Tile::of(TileId::Torch);
    t.liquid = Liquid::new(LiquidKind::Water, 4);
    put(&mut live, x, y, t);
    let mut drops = Vec::new();
    assert!(matches!(random_tick(&mut live, x, y, &mut drops), RandomTick::Snuffed));
    assert_eq!(live.world.tile(x, y).id, TileId::Air, "snuffed out");
    assert_eq!(live.world.tile(x, y).liquid.level(), 4, "the water stays");
    // The torch pops out as a drop.
    let stack = InvSlot::new(ItemId::Torch, 1);
    let (half_x, half_y) = (2 * x as u64 + 1, 2 * y as u64 + 1);
    assert_eq!(drops, vec![Drop { stack, half_x, half_y }]);
    // A dry torch burns on.
    put(&mut live, x, y, Tile::of(TileId::Torch));
    assert!(matches!(random_tick(&mut live, x, y, &mut drops), RandomTick::Nothing));
    assert_eq!(drops.len(), 1);
}

#[test]
fn water_that_comes_puts_torches_out() {
    let mut live = flat(100, 60, FLOOR);
    let (x, y) = (52, FLOOR - 1);
    for dx in [0, 2] {
        set_tile(&mut live, x - 1 + dx, y, TileId::Stone);
    }
    set_tile(&mut live, x, y, TileId::Torch);
    put(&mut live, x, y - 1, water(8));
    let before = live.chunk_frame((0, 0));
    let (mut drops, mut out) = (Vec::new(), Vec::new());
    live.step_fluids(&Roster::new(), 2, torch(), &mut drops, &mut out);
    assert_eq!(live.world.tile(x, y).id, TileId::Air);
    assert_eq!(live.world.tile(x, y).liquid.level(), 8);
    assert_eq!(drops.len(), 1);
    assert_eq!(drops[0].stack, InvSlot::new(ItemId::Torch, 1));
    // Chunks that changed are read again.
    assert_ne!(live.chunk_frame((0, 0)), before);
    assert!(out.is_empty(), "nobody is there");
}

#[test]
fn saplings_grow_into_trees_when_unblocked() {
    let mut live = flat(100, 60, FLOOR);
    let x = 52;
    set_tile(&mut live, x, FLOOR, TileId::Grass);
    set_tile(&mut live, x, FLOOR - 1, TileId::Sapling);
    live.saplings.insert((x, FLOOR - 1), 0); // due immediately
    assert_eq!(live.due_saplings(60), vec![(x, FLOOR - 1)]);
    let mut tick = 0;

    // Blocked: a ceiling 3 tiles up leaves < 7 air above.
    set_tile(&mut live, x, FLOOR - 4, TileId::Stone);
    advance(&mut live, &mut tick, 61);
    assert_eq!(live.world.tile(x, FLOOR - 1).id, TileId::Sapling);
    assert!(live.saplings.get((x, FLOOR - 1)).is_some(), "retries later");

    // Unblock: it grows into a 7-16 segment tree with a crown.
    set_tile(&mut live, x, FLOOR - 4, TileId::Air);
    advance(&mut live, &mut tick, 61);
    assert!(live.saplings.get((x, FLOOR - 1)).is_none());
    let mut height = 0;
    while live.world.tile(x, FLOOR - 1 - height).id == TileId::TreeTrunk {
        height += 1;
    }
    assert_eq!(height, 9);
    let top = live.world.tile(x, FLOOR - height);
    assert_eq!(top.state.variant, TREE_SEGMENT_TOP);

    // Without a sapling the cell is forgotten.
    live.saplings.insert((10, FLOOR - 1), 0);
    assert_eq!(live.world.tile(10, FLOOR - 1).id, TileId::Air);
    assert_eq!(live.grow_sapling(10, FLOOR - 1, 9), Growth::Lost);
    assert!(live.saplings.get((10, FLOOR - 1)).is_none());
}

#[test]
fn level_one_puddles_evaporate_after_a_minute() {
    let mut live = flat(100, 60, FLOOR);
    let mut tick = 0;
    let (x, y) = (52, FLOOR - 1);
    put(&mut live, x, y, water(1));
    assert!(live.puddles.get((x, y)).is_some(), "kept in mind on change");

    // 59 s: still wet.
    advance(&mut live, &mut tick, 59 * 60);
    assert_eq!(live.world.tile(x, y).liquid.level(), 1);
    // Past 60 s (plus the once-a-second sweep): gone.
    advance(&mut live, &mut tick, 2 * 60);
    assert_eq!(live.world.tile(x, y).liquid.level(), 0);
    assert!(live.puddles.get((x, y)).is_none());
}

#[test]
fn fluid_cadence_and_random_tick_budget() {
    assert_eq!(fluids_due(1), (false, false));
    assert_eq!(fluids_due(2), (true, false));
    assert_eq!(fluids_due(5), (false, true));
    assert_eq!(fluids_due(10), (true, true));
    assert_eq!(random_tick_budget(&World::new(10, 10)), 1);
}

#[test]
fn a_step_of_sand_keeps_columns_and_water() {
    let mut live = flat(40, 40, FLOOR);
    // A pool of two columns, with two grains over the one and one over the other.
    for x in [19, 22] {
        set_tile(&mut live, x, FLOOR - 1, TileId::Stone);
    }
    for x in [20, 21] {
        put(&mut live, x, FLOOR - 1, water(8));
    }
    set_tile(&mut live, 20, FLOOR - 2, TileId::Sand);
    set_tile(&mut live, 20, FLOOR - 3, TileId::Sand);
    set_tile(&mut live, 21, FLOOR - 5, TileId::Sand);
    let sand = |live: &Live, x: u32| {
        (0..40).filter(|&y| live.world.tile(x, y).id == TileId::Sand).count()
    };
    let levels =
        |live: &Live| live.world.tiles.iter().map(|t| t.liquid.level() as u32).sum::<u32>();
    for _ in 0..6 {
        live.step_sand();
        assert_eq!((sand(&live, 20), sand(&live, 21)), (2, 1));
        assert_eq!(levels(&live), 16);
        let dry = |t: &Tile| t.id != TileId::Sand || t.liquid == Liquid::NONE;
        assert!(live.world.tiles.iter().all(dry));
    }
    // Both grains moved in the first step; the water came up to their top.
    assert_eq!(live.world.tile(20, FLOOR - 1).id, TileId::Sand);
    assert_eq!(live.world.tile(20, FLOOR - 2).id, TileId::Sand);
    assert_eq!(live.world.tile(20, FLOOR - 3).liquid.level(), 8);
    assert_eq!(live.world.tile(21, FLOOR - 1).id, TileId::Sand);
    assert_eq!(live.world.tile(21, FLOOR - 2).liquid.level(), 8);
}
