use ferraria::cellmap::CellMap;
use ferraria::chest::ChestStore;
use ferraria::grid::World;
use ferraria::item::{InvSlot, ItemId, INVENTORY_SLOTS};
use ferraria::net::{
    admission, handshake, pump, Admission, FirstFrame, InFrame, JoinReply, Opening, PumpStep,
};
use ferraria::sim::interact::{
    accept_swing, apply_damage, breaking, can_place, consume_item, floor_under, has_support,
    hit_effect, is_target, purge_stale_damage, tool_matches, Breaking, DamageSum, DoorMove, Drop,
    Hit, Placing, TileData, ToolKind, ToolStats,
};
use ferraria::sim::live::Live;
use ferraria::sim::mining::{hit_tile, hit_wall, Swing};
use ferraria::sim::player::Hands;
use ferraria::sim::roster::Roster;
use ferraria::tile::{Tile, TileId, TileState, WallId};

fn data(tool: ToolKind, min_power: u32) -> TileData {
    TileData {
        breakable: true,
        tool,
        min_power,
        one_hit: false,
        furniture: false,
        width: 1,
        height: 1,
        drops: Some(InvSlot::new(ItemId::Stone, 1)),
    }
}

fn tool(kind: ToolKind, power: u32) -> Option<ToolStats> {
    Some(ToolStats { kind, power })
}

const FREE: Hands = Hands {
    held_slot: 0,
    last_swing_tick: None,
    last_door_toggle_tick: None,
    last_held_broadcast_tick: None,
    held_broadcast_dirty: false,
};

/// Breaks the cell, with nobody around.
fn break_tile(live: &mut Live, x: u32, y: u32, d: &TileData, acorns: &Vec<bool>) -> Vec<Drop> {
    let mut drops = Vec::new();
    let pot = InvSlot::new(ItemId::CopperCoin, 1);
    let (mut chests, mut none) = (ChestStore::new(), Roster::new());
    live.break_tile(&mut chests, &mut none, x, y, d, pot, acorns, 7, &mut drops, &mut Vec::new());
    drops
}

fn toggle_door(
    live: &mut Live,
    hands: &mut Hands,
    x: u32,
    y: u32,
    in_reach: bool,
    overlaps: bool,
    tick: u64,
) -> Option<DoorMove> {
    let none = Roster::new();
    live.toggle_door(&none, hands, x, y, in_reach, true, overlaps, tick, 10, &mut Vec::new())
}

fn floor_world() -> World {
    let mut w = World::new(40, 40);
    for y in 30..40 {
        for x in 0..40 {
            w.set_tile(x, y, Tile::of(TileId::Stone));
        }
    }
    w
}

#[test]
fn tools_must_match_and_be_strong_enough() {
    assert!(tool_matches(ToolKind::Pick, tool(ToolKind::Pick, 1)));
    assert!(!tool_matches(ToolKind::Pick, tool(ToolKind::Axe, 99)));
    assert!(tool_matches(ToolKind::Any, None));
    let stone = data(ToolKind::Pick, 50);
    assert_eq!(hit_effect(&stone, tool(ToolKind::Pick, 49), true), Hit::Nothing);
    assert_eq!(hit_effect(&stone, tool(ToolKind::Pick, 50), true), Hit::Damages);
    assert_eq!(hit_effect(&stone, tool(ToolKind::Axe, 99), true), Hit::Nothing);
    let web = TileData { one_hit: true, ..data(ToolKind::Any, 0) };
    assert_eq!(hit_effect(&web, None, true), Hit::Breaks);
    assert!(is_target(TileId::Stone, &stone));
    assert!(!is_target(TileId::Air, &stone));
    assert!(!is_target(TileId::Stone, &TileData { breakable: false, ..stone }));
}

#[test]
fn swings_keep_their_pace() {
    let after = accept_swing(FREE, 100, 15, true).expect("first swing");
    assert_eq!(accept_swing(FREE, 100, 15, false), None, "out of reach");
    assert_eq!(accept_swing(after, 113, 15, true), None);
    assert!(accept_swing(after, 114, 15, true).is_some(), "one tick of slack");
}

#[test]
fn damage_adds_up_and_wears_off() {
    let mut map = CellMap::new();
    let sum = |damage, breaks| DamageSum { damage, breaks };
    let one = apply_damage(&mut map, (3, 3), 10, 300, sum(40, false), sum(0, false));
    assert_eq!(one, sum(40, false), "the first hit counts alone");
    let two = apply_damage(&mut map, (3, 3), 20, 300, sum(40, false), sum(80, false));
    assert_eq!(two, sum(80, false));
    assert_eq!(map.get((3, 3)).map(|d| d.damage), Some(80));
    let late = apply_damage(&mut map, (3, 3), 900, 300, sum(40, false), sum(120, true));
    assert_eq!(late, sum(40, false), "worn off");
    let done = apply_damage(&mut map, (3, 3), 901, 300, sum(40, false), sum(120, true));
    assert!(done.breaks);
    assert!(map.get((3, 3)).is_none());
    apply_damage(&mut map, (4, 4), 10, 300, sum(40, false), sum(40, false));
    purge_stale_damage(&mut map, 11, 300);
    assert!(map.get((4, 4)).is_some());
    purge_stale_damage(&mut map, 1000, 300);
    assert!(map.get((4, 4)).is_none());
}

#[test]
fn mining_cracks_then_breaks() {
    let w = floor_world();
    let mut damage = CellMap::new();
    let swing = Swing {
        tool: tool(ToolKind::Pick, 50),
        use_ticks: 15,
        in_reach: true,
        deals: true,
        alone: DamageSum { damage: 50, breaks: false },
        added: DamageSum { damage: 100, breaks: true },
    };
    let d = data(ToolKind::Pick, 0);
    let r = hit_tile(&w, &mut damage, 5, 30, &d, FREE, swing, 100, 300);
    assert_eq!(r.crack.map(|c| c.damage), Some(50));
    assert!(!r.breaks);
    let hands = r.hands.expect("swung");
    // Too fast: nothing at all.
    let r = hit_tile(&w, &mut damage, 5, 30, &d, hands, swing, 105, 300);
    assert!(r.hands.is_none() && r.crack.is_none() && !r.breaks);
    let r = hit_tile(&w, &mut damage, 5, 30, &d, hands, swing, 120, 300);
    assert!(r.breaks);
    // Air is no target, and neither is a wall that is not there.
    let r = hit_tile(&w, &mut damage, 5, 3, &d, FREE, swing, 200, 300);
    assert!(r.hands.is_none());
    let r = hit_wall(&w, &mut damage, 5, 3, FREE, swing, 200, 300);
    assert!(r.hands.is_none());
}

#[test]
fn trees_fall_from_the_cut_up() {
    let mut w = floor_world();
    for y in 24..30 {
        w.set_tile(7, y, Tile::of(TileId::TreeTrunk));
    }
    let mut acorns = vec![false; 40];
    acorns[1] = true;
    let mut live = Live::new(w);
    let axe = data(ToolKind::Axe, 0);
    let drops = break_tile(&mut live, 7, 27, &axe, &acorns);
    assert_eq!(live.world.tile(7, 24).id, TileId::Air);
    assert_eq!(live.world.tile(7, 27).id, TileId::Air);
    assert_eq!(live.world.tile(7, 28).id, TileId::TreeTrunk, "the stump stands");
    let wood: u32 = drops.iter().filter(|d| d.stack.item == ItemId::Wood).map(|d| d.stack.count as u32).sum();
    assert_eq!(wood, 40);
    assert_eq!(drops.iter().filter(|d| d.stack.item == ItemId::Acorn).count(), 1);
    // All that stood around the tree is to be looked at again.
    assert!(live.supports.contains(&(7, 24)) && live.supports.contains(&(8, 25)));

    // Ground that is dug away takes the tree on it along.
    let drops = break_tile(&mut live, 7, 30, &data(ToolKind::Pick, 0), &acorns);
    assert_eq!(live.world.tile(7, 30).id, TileId::Air);
    assert_eq!(live.world.tile(7, 29).id, TileId::Air);
    assert_eq!(drops.len(), 4, "two pieces of wood, an acorn and the stone");
}

#[test]
fn walls_drop_only_where_they_were_placed() {
    let mut live = Live::new(floor_world());
    let mut drops = Vec::new();
    let mut t = Tile::of(TileId::Air);
    t.wall = WallId::Wood;
    let (none, mut out) = (Roster::new(), Vec::new());
    live.world.set_tile(3, 3, t);
    live.break_wall(&none, 3, 3, Some(ItemId::Wood), 7, &mut drops, &mut out);
    assert_eq!(live.world.tile(3, 3).wall, WallId::Air);
    assert!(drops.is_empty(), "a natural wall drops nothing");
    t.state.wall_placed = true;
    live.world.set_tile(3, 3, t);
    live.break_wall(&none, 3, 3, Some(ItemId::Wood), 7, &mut drops, &mut out);
    assert_eq!(drops.len(), 1);
    assert_eq!(breaking(TileId::TreeTrunk, &data(ToolKind::Axe, 0)), Breaking::Tree);
    assert_eq!(breaking(TileId::Stone, &data(ToolKind::Pick, 0)), Breaking::Plain);
}

fn placing(slot: u8, x: u32, y: u32) -> Placing {
    Placing { slot, x, y, in_reach: true, overlaps: false, grow_tick: 500 }
}

#[test]
fn placing_takes_room_reach_and_an_item() {
    let mut w = Live::new(floor_world());
    let mut chests = ChestStore::new();
    let none = Roster::new();
    let mut inv = vec![None; INVENTORY_SLOTS];
    inv[0] = Some(InvSlot::new(ItemId::Stone, 2));
    let d = data(ToolKind::Pick, 0);
    let stone = Some(TileId::Stone);
    let mut put = |w: &mut Live, inv: &mut Vec<Option<InvSlot>>, at: Placing| {
        w.place_tile(&none, &mut chests, inv, stone, &d, at, 7, &mut Vec::new())
    };
    assert!(has_support(&w.world, 5, 29));
    assert!(put(&mut w, &mut inv, placing(0, 5, 29)));
    assert_eq!(w.world.tile(5, 29).id, TileId::Stone);
    assert_eq!(inv[0], Some(InvSlot::new(ItemId::Stone, 1)));
    assert!(!put(&mut w, &mut inv, placing(0, 5, 29)), "taken");
    assert!(!put(&mut w, &mut inv, placing(0, 20, 5)), "nothing to hold it");
    assert!(!put(&mut w, &mut inv, Placing { in_reach: false, ..placing(0, 6, 29) }));
    assert!(!put(&mut w, &mut inv, Placing { overlaps: true, ..placing(0, 6, 29) }));
    assert!(!put(&mut w, &mut inv, placing(1, 6, 29)), "empty slot");
    assert!(!put(&mut w, &mut inv, placing(0, 99, 29)), "outside");
    assert!(put(&mut w, &mut inv, placing(0, 6, 29)));
    assert_eq!(inv[0], None, "used up");

    assert!(can_place(&w.world, TileId::Stone, &d, 7, 29, false));
    assert!(floor_under(&w.world, 8, 28, 2, 2));
    assert!(!floor_under(&w.world, 8, 20, 2, 2));
    inv[0] = Some(InvSlot::new(ItemId::Other(3), 5));
    consume_item(&mut inv, 0);
    assert_eq!(inv[0].map(|s| s.count), Some(4));

    // Walls hold on to the ground and to each other.
    assert!(w.place_wall(&none, &mut inv, Some(WallId::Wood), placing(0, 10, 29), 7, &mut Vec::new()));
    assert_eq!(w.world.tile(10, 29).wall, WallId::Wood);
    assert!(w.world.tile(10, 29).state.wall_placed);
    assert!(!w.place_wall(&none, &mut inv, Some(WallId::Wood), placing(0, 10, 29), 7, &mut Vec::new()));
    assert!(!w.place_wall(&none, &mut inv, None, placing(0, 11, 29), 7, &mut Vec::new()));
}

#[test]
fn furniture_and_saplings_are_remembered() {
    let mut w = Live::new(floor_world());
    let mut chests = ChestStore::new();
    let none = Roster::new();
    let mut inv = vec![Some(InvSlot::new(ItemId::Other(1), 9)); INVENTORY_SLOTS];
    let chest = TileData { furniture: true, width: 2, height: 2, ..data(ToolKind::Any, 0) };
    let at = placing(0, 10, 28);
    assert!(w.place_tile(&none, &mut chests, &mut inv, Some(TileId::Chest), &chest, at, 7, &mut Vec::new()));
    assert_eq!(w.world.tile(11, 29).state, TileState::part(1, 1));
    assert!(chests.get((10, 28)).is_some());
    w.world.set_tile(20, 30, Tile::of(TileId::Grass));
    let sapling = data(ToolKind::Any, 0);
    let at = placing(0, 20, 29);
    assert!(w.place_tile(&none, &mut chests, &mut inv, Some(TileId::Sapling), &sapling, at, 7, &mut Vec::new()));
    assert_eq!(w.saplings.get((20, 29)), Some(500));
}

#[test]
fn doors_open_away_and_close() {
    let mut w = Live::new(floor_world());
    let mut h = FREE;
    let mut tick = 0;
    assert!(w.world.place_multitile(15, 27, TileId::Door, 1, 3));
    assert_eq!(w.world.tile(15, 28).is_solid(), true);
    assert!({ tick += 20; toggle_door(&mut w, &mut h, 15, 28, false, false, tick) }.is_none(), "out of reach");
    assert!({ tick += 20; toggle_door(&mut w, &mut h, 3, 3, true, false, tick) }.is_none(), "no door");
    let m = { tick += 20; toggle_door(&mut w, &mut h, 15, 28, true, false, tick) };
    assert!(matches!(m, Some(DoorMove::Opens { left: true })));
    for y in 27..30 {
        assert!(w.world.tile(15, y).state.door_open && !w.world.tile(15, y).is_solid());
    }
    let m = { tick += 20; toggle_door(&mut w, &mut h, 15, 29, true, true, tick) };
    assert!(matches!(m, Some(DoorMove::Stuck)), "somebody stands in it");
    let m = { tick += 20; toggle_door(&mut w, &mut h, 15, 29, true, false, tick) };
    assert!(matches!(m, Some(DoorMove::Closes)));
    assert!(w.world.tile(15, 27).is_solid());
    // With the one side blocked it opens to the other.
    for y in 27..30 {
        w.world.set_tile(14, y, Tile::of(TileId::Stone));
    }
    let m = { tick += 20; toggle_door(&mut w, &mut h, 15, 28, true, false, tick) };
    assert!(matches!(m, Some(DoorMove::Opens { left: false })));
}

#[test]
fn doors_rest_between_moves() {
    let mut w = Live::new(floor_world());
    let mut h = FREE;
    assert!(w.world.place_multitile(15, 27, TileId::Door, 1, 3));
    let m = toggle_door(&mut w, &mut h, 15, 28, true, false, 100);
    assert!(matches!(m, Some(DoorMove::Opens { left: true })));
    assert_eq!(h.last_door_toggle_tick, Some(100));
    // Within the cooldown nothing moves, and the cooldown is not drawn out.
    for tick in 100..110 {
        assert!(toggle_door(&mut w, &mut h, 15, 28, true, false, tick).is_none());
        assert!(w.world.tile(15, 28).state.door_open);
        assert_eq!(h.last_door_toggle_tick, Some(100));
    }
    // A door that is stuck does not count as moved.
    let m = toggle_door(&mut w, &mut h, 15, 28, true, true, 110);
    assert!(matches!(m, Some(DoorMove::Stuck)));
    assert_eq!(h.last_door_toggle_tick, Some(100));
    let m = toggle_door(&mut w, &mut h, 15, 28, true, false, 110);
    assert!(matches!(m, Some(DoorMove::Closes)));
    assert_eq!(h.last_door_toggle_tick, Some(110));
}

#[test]
fn first_frames_decide_on_a_session() {
    let hello = |v| FirstFrame::Hello { protocol_version: v, name: "moo".into(), token: Some(5) };
    assert!(matches!(
        handshake(hello(3), 3),
        Opening::Join { name, token: Some(5) } if name == "moo"
    ));
    assert!(matches!(handshake(hello(2), 3), Opening::Refuse(why) if why.contains('2') && why.contains('3')));
    assert!(matches!(
        handshake(FirstFrame::NoHello, 3),
        Opening::Refuse(why) if why == "expected a Hello frame"
    ));
    assert!(matches!(handshake(FirstFrame::Noise, 3), Opening::Wait));
    assert!(matches!(handshake(FirstFrame::Close, 3), Opening::Hangup));
    assert!(matches!(handshake(FirstFrame::Nothing, 3), Opening::Hangup));

    let a = admission(JoinReply::Accepted { player_id: 4, epoch: 9 });
    assert!(matches!(a, Admission::Playing { player_id: 4, epoch: 9 }));
    assert!(matches!(admission(JoinReply::Rejected("full".into())), Admission::Refuse(w) if w == "full"));
    assert!(matches!(admission(JoinReply::Gone), Admission::Hangup));

    assert!(matches!(pump(InFrame::Message(7)), PumpStep::Forward(7)));
    assert!(matches!(pump(InFrame::<u8>::Garbled), PumpStep::Skip));
    assert!(matches!(pump(InFrame::<u8>::Noise), PumpStep::Skip));
    assert!(matches!(pump(InFrame::<u8>::Close), PumpStep::Stop));
}
