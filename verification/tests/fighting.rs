use ferraria::grid::World;
use ferraria::item::{InvSlot, ItemId, ARMOR_START, INVENTORY_SLOTS};
use ferraria::sim::combat::{
    fire_bow, hurt_enemy, start_melee_swing, step_arrow, step_sickle,
    tick_enemy_contact, tick_swing, use_item, ArrowFate, Blow, Consumable, DamageSource, Graces,
    InTheWay, ItemUse, SickleFate, Toucher, UseAction, WeaponKind,
};
use ferraria::sim::enemies::{
    choose_spawn, choose_target, despawn_far_enemies, fighter_dir, kill_enemy, live_enemies,
    placement_for, set_mood, slime_passive, spawn_coin_drops, spawn_enemy,
    spawn_room, step_erratic, step_slime, step_swooper, tick_enemy_spawning, AiState, DropRoll, EnemyKind, Foe, Quarry,
    SlimeMove, SpawnEnvironment, SpawnTry, SwoopTimes,
};
use ferraria::sim::entities::{Body, Entity, EntityKind, EntityStore};
use ferraria::sim::pack::{tick_enemies, Turn};
use ferraria::sim::player::{Hands, Point};
use ferraria::tile::{Tile, TileId};

fn foe(kind: EnemyKind, hp: u16, env: SpawnEnvironment, is_day: bool) -> Foe {
    spawn_enemy(kind, hp, env, is_day, 0, true)
}

fn entity(kind: EntityKind) -> Entity {
    Entity {
        body: Body { pos: Point { x: 0, y: 0 }, vel: Point { x: 0, y: 0 }, chunk: (0, 0) },
        kind,
        spawn_tick: 0,
        awake: true,
    }
}

const GRACE: u64 = 10;

fn hit(source: DamageSource, dealt: u32, crit: bool) -> Blow {
    Blow { source, dealt, crit, burn_ticks: 0 }
}

#[test]
fn melee_swing_damages_with_defense_crit_and_knockback() {
    let mut graces = Graces::new();
    let mut f = foe(EnemyKind::BlueSlime, 30, SpawnEnvironment::SurfaceDay, true);
    assert!(f.ai.passive);
    let s = hurt_enemy(&mut graces, 9, f, hit(DamageSource::Player(1), 6, false), 0, GRACE);
    let s = s.expect("lands");
    assert_eq!((s.damage, s.killed), (6, false));
    f = s.foe;
    assert_eq!(f.hp, 24);
    assert!(!f.ai.passive && f.ai.aggroed, "damage aggros");
    let s = hurt_enemy(&mut graces, 9, f, hit(DamageSource::Player(2), 6, true), 0, GRACE);
    assert_eq!(s.expect("lands").damage, 12);
    // The last blow kills.
    let s = hurt_enemy(&mut graces, 9, f, hit(DamageSource::Player(3), 100, false), 0, GRACE);
    let s = s.expect("lands");
    assert!(s.killed);
    assert_eq!(s.foe.hp, 0);
}

#[test]
fn enemy_iframes_block_same_source_but_not_others() {
    let mut graces = Graces::new();
    let f = foe(EnemyKind::Zombie, 45, SpawnEnvironment::SurfaceNight, false);
    let one = hit(DamageSource::Player(1), 10, false);
    let f = hurt_enemy(&mut graces, 4, f, one, 100, GRACE).expect("first hit lands").foe;
    assert!(hurt_enemy(&mut graces, 4, f, one, 100, GRACE).is_none(), "blocked");
    let two = hit(DamageSource::Player(2), 10, false);
    let f = hurt_enemy(&mut graces, 4, f, two, 100, GRACE).expect("others land").foe;
    assert!(hurt_enemy(&mut graces, 4, f, one, 100 + GRACE - 1, GRACE).is_none());
    let f = hurt_enemy(&mut graces, 4, f, one, 100 + GRACE, GRACE).expect("elapsed").foe;
    assert_eq!(f.hp, 15);
    // Another enemy was never safe.
    assert!(!graces.safe(5, DamageSource::Player(1), 100));
    graces.purge(1000);
    assert!(graces.entries.is_empty());
}

#[test]
fn iframe_sources_distinguish_players_from_projectiles() {
    let mut graces = Graces::new();
    let f = foe(EnemyKind::Zombie, 45, SpawnEnvironment::SurfaceNight, false);
    let melee = hit(DamageSource::Player(5), 10, false);
    let f = hurt_enemy(&mut graces, 4, f, melee, 0, GRACE).expect("melee hit lands").foe;
    let arrow = hit(DamageSource::Projectile(5), 10, false);
    assert!(hurt_enemy(&mut graces, 4, f, arrow, 0, GRACE).is_some(), "no aliasing");
}

#[test]
fn bow_consumes_arrows_and_terrain_recovery_is_half() {
    let mut inv = vec![None; INVENTORY_SLOTS];
    inv[1] = Some(InvSlot::new(ItemId::WoodenArrow, 100));
    let arrows = vec![ItemId::WoodenArrow, ItemId::FlamingArrow];
    for _ in 0..60 {
        let shot = fire_bow(&mut inv, ItemId::WoodenBow, &arrows).expect("an arrow");
        assert_eq!((shot.slot, shot.fired), (1, ItemId::WoodenArrow));
    }
    assert_eq!(inv[1], Some(InvSlot::new(ItemId::WoodenArrow, 40)), "one arrow per shot");
    // The roll decides whether an arrow in the wall can be had again.
    let store = EntityStore::new();
    for recovered in [true, false] {
        let fate = step_arrow(&store, true, recovered, 1, 600, &Vec::new());
        assert_eq!(fate, ArrowFate::Stuck { recovered });
    }
    // The last arrow leaves an empty slot, and without one there is no shot.
    inv[1] = Some(InvSlot::new(ItemId::WoodenArrow, 1));
    assert!(fire_bow(&mut inv, ItemId::WoodenBow, &arrows).is_some());
    assert_eq!(inv[1], None);
    inv[ARMOR_START] = Some(InvSlot::new(ItemId::WoodenArrow, 9));
    assert!(fire_bow(&mut inv, ItemId::WoodenBow, &arrows).is_none());
}

#[test]
fn cinderbow_upgrades_wooden_arrows_to_flaming() {
    let mut inv = vec![None; INVENTORY_SLOTS];
    inv[1] = Some(InvSlot::new(ItemId::WoodenArrow, 10));
    let arrows = vec![ItemId::WoodenArrow, ItemId::FlamingArrow];
    let shot = fire_bow(&mut inv, ItemId::Cinderbow, &arrows).expect("an arrow");
    assert_eq!(shot.fired, ItemId::FlamingArrow);
}

#[test]
fn arrows_damage_enemies_with_bow_plus_arrow_attack() {
    let mut store = EntityStore::new();
    store.insert(entity(EntityKind::FallingSand));
    store.insert(entity(EntityKind::Enemy(EnemyKind::Zombie)));
    store.insert(entity(EntityKind::Enemy(EnemyKind::Zombie)));
    // The first enemy in the way; sand is none.
    let meets = vec![true, true, true];
    assert_eq!(step_arrow(&store, false, false, 5, 600, &meets), ArrowFate::Hits(1));
    let none = vec![true, false, false];
    assert_eq!(step_arrow(&store, false, false, 5, 600, &none), ArrowFate::Flies);
    assert_eq!(step_arrow(&store, false, false, 600, 600, &none), ArrowFate::Spent);
    let mut graces = Graces::new();
    let f = foe(EnemyKind::Zombie, 45, SpawnEnvironment::SurfaceNight, false);
    let s = hurt_enemy(&mut graces, 2, f, hit(DamageSource::Projectile(7), 6, false), 0, GRACE);
    assert_eq!(s.expect("lands").damage, 6);
}

#[test]
fn enemy_contact_damages_knocks_back_and_respects_iframes() {
    let zombie = Toucher { kind: EnemyKind::Zombie, passive: false, overlaps: true };
    let away = Toucher { overlaps: false, ..zombie };
    assert_eq!(tick_enemy_contact(&vec![away, zombie], false, false, 0, 10), Some(1));
    assert_eq!(tick_enemy_contact(&vec![away, zombie], false, false, 50, 49), None, "grace");
    assert_eq!(tick_enemy_contact(&vec![away, zombie], false, false, 50, 50), Some(1));
    assert_eq!(tick_enemy_contact(&vec![zombie], false, true, 0, 10), None, "dead");
}

#[test]
fn passive_slimes_do_no_contact_damage_until_hit() {
    let f = foe(EnemyKind::GreenSlime, 14, SpawnEnvironment::SurfaceDay, true);
    let touch = |f: Foe| Toucher { kind: f.kind, passive: f.ai.passive, overlaps: true };
    assert_eq!(tick_enemy_contact(&vec![touch(f)], false, false, 0, 1), None, "harmless");
    let mut graces = Graces::new();
    let s = hurt_enemy(&mut graces, 1, f, hit(DamageSource::Player(1), 1, false), 0, GRACE);
    let f = s.expect("lands").foe;
    assert_eq!(tick_enemy_contact(&vec![touch(f)], false, false, 0, 1), Some(0));
    // Slimes do no harm to their friends.
    assert_eq!(tick_enemy_contact(&vec![touch(f)], true, false, 0, 1), None);
}

#[test]
fn ash_demon_volley_fires_sickles_with_line_of_sight() {
    let f = foe(EnemyKind::AshDemon, 120, SpawnEnvironment::Underworld, false);
    let times = SwoopTimes { swoop: 30, period: 180, volley: 240 };
    let (blind, m) = step_swooper(f.ai, false, times);
    assert!(!m.volley);
    let (after, m) = step_swooper(blind, true, times);
    assert!(m.volley);
    assert_eq!(after.timer2, 240);
    assert!(!step_swooper(after, true, times).1.volley, "the next one waits");

    let there = InTheWay { dead: false, meets: true };
    let dead = InTheWay { dead: true, meets: true };
    assert_eq!(step_sickle(false, 1, 300, &vec![dead, there]), SickleFate::Meets(1));
    assert_eq!(step_sickle(false, 1, 300, &vec![dead]), SickleFate::Flies);
    assert_eq!(step_sickle(true, 1, 300, &vec![there]), SickleFate::Breaks);
    assert_eq!(step_sickle(false, 300, 300, &vec![there]), SickleFate::Breaks);
}

fn grounded(timer: u32) -> AiState {
    let mut a = foe(EnemyKind::GreenSlime, 14, SpawnEnvironment::SurfaceNight, false).ai;
    a.timer = timer;
    a
}

#[test]
fn slime_hop_cadence_and_third_high_hop() {
    let mut a = grounded(42);
    let mut hops = Vec::new();
    for tick in 0..1000u32 {
        let (next, m) = step_slime(a, false, Some(true), 60);
        a = next;
        if let SlimeMove::Hops { high, right } = m {
            assert!(right, "toward the target");
            hops.push((tick, high));
        }
    }
    assert!(hops.len() >= 6, "kept hopping");
    for (i, &(_, high)) in hops.iter().enumerate() {
        assert_eq!(high, (i + 1) % 3 == 0, "every third hop is high");
    }
    assert_eq!(hops[0].0, 42);
    for pair in hops.windows(2) {
        assert_eq!(pair[1].0 - pair[0].0, 61);
    }
    // A harmless slime turns at a ledge.
    let mut calm = grounded(5);
    calm.passive = true;
    assert_eq!(step_slime(calm, true, None, 60).0.dir, -1);
}

#[test]
fn slime_passivity_follows_damage_depth_and_daylight() {
    assert!(slime_passive(false, true, true), "day surface: passive");
    assert!(!slime_passive(false, true, false), "night: hostile");
    assert!(!slime_passive(false, false, true), "underground: hostile even by day");
    assert!(!slime_passive(true, true, true), "damaged: hostile");
}

#[test]
fn dusk_angers_passive_slimes_and_dawn_calms_only_the_undamaged() {
    let a = set_mood(foe(EnemyKind::GreenSlime, 14, SpawnEnvironment::SurfaceDay, true), true, true);
    let b = set_mood(foe(EnemyKind::BlueSlime, 25, SpawnEnvironment::SurfaceDay, true), true, true);
    assert!(a.ai.passive && b.ai.passive);
    // Dusk: both turn hostile without ever being touched.
    let (a, b) = (set_mood(a, true, false), set_mood(b, true, false));
    assert!(!a.ai.passive && !b.ai.passive);
    // Only damage lasts.
    let mut graces = Graces::new();
    let s = hurt_enemy(&mut graces, 1, a, hit(DamageSource::Player(1), 1, false), 0, GRACE);
    let (a, b) = (set_mood(s.expect("lands").foe, true, true), set_mood(b, true, true));
    assert!(!a.ai.passive, "damage aggro is permanent");
    assert!(b.ai.passive, "undamaged: docile by day");
    // At dawn zombies flee.
    let z = set_mood(foe(EnemyKind::Zombie, 45, SpawnEnvironment::SurfaceNight, false), true, true);
    assert!(z.ai.fleeing);
    assert_eq!(fighter_dir(z.ai, Some(true)), -1);
}

fn ascii_world(rows: &[&str]) -> World {
    let mut w = World::new(rows[0].len() as u32, rows.len() as u32);
    for (y, row) in rows.iter().enumerate() {
        for (x, c) in row.chars().enumerate() {
            if c == '#' {
                w.set_tile(x as u32, y as u32, Tile::of(TileId::Stone));
            }
        }
    }
    w
}

#[test]
fn placement_rules_ground_vs_air() {
    let world = ascii_world(&[
        "..........", // 0
        "..........", // 1
        "..........", // 2
        "....#.....", // 3  lone block at (4,3)
        "..........", // 4
        "##########", // 5 floor
    ]);
    // Grounded: floor tile with clear air above it.
    assert!(placement_for(&world, EnemyKind::GreenSlime, 7, 5));
    // Under the lone block there is no room.
    assert!(!placement_for(&world, EnemyKind::GreenSlime, 4, 5));
    // Not solid: refused.
    assert!(!placement_for(&world, EnemyKind::GreenSlime, 2, 2));
    // Flier: an air pocket anywhere works, but not over the lone block.
    assert!(placement_for(&world, EnemyKind::CaveBat, 1, 1));
    assert!(!placement_for(&world, EnemyKind::CaveBat, 3, 2));
    assert!(!placement_for(&world, EnemyKind::CaveBat, 4, 3));

    let at = |x, y, on_screen| SpawnTry { x, y, on_screen };
    let tries = vec![at(-4, 2, false), at(7, 5, true), at(2, 2, false), at(7, 5, false), at(1, 5, false)];
    assert_eq!(choose_spawn(&world, EnemyKind::GreenSlime, &tries), Some(3));
    assert_eq!(choose_spawn(&world, EnemyKind::GreenSlime, &vec![at(7, 5, true)]), None);
}

#[test]
fn crowding_at_cap_blocks_all_spawns() {
    let room = spawn_room(false, 5, 0, 0).expect("room");
    assert_eq!(spawn_room(false, 5, 0, room), None, "full");
    assert!(spawn_room(false, 5, 0, room - 1).is_some());
    assert_eq!(spawn_room(true, 5, 0, 0), None, "nothing spawns for the dead");
    let mut store = EntityStore::new();
    store.insert(entity(EntityKind::Enemy(EnemyKind::GreenSlime)));
    store.insert(entity(EntityKind::FallingSand));
    store.insert(entity(EntityKind::Enemy(EnemyKind::Zombie)));
    assert_eq!(live_enemies(&store), 2);
    // Of three more only as many come in as there may be.
    let zombie = Some(entity(EntityKind::Enemy(EnemyKind::Zombie)));
    let offers = vec![None, zombie, zombie, None, zombie];
    assert_eq!(tick_enemy_spawning(&mut store, &offers, 4), vec![4, 5]);
    assert_eq!(live_enemies(&store), 4);
    assert!(tick_enemy_spawning(&mut store, &offers, 4).is_empty());
    assert_eq!(store.entries.len(), 5);
}

#[test]
fn enemies_despawn_outside_all_player_rectangles() {
    let near = vec![(3, vec![false, true]), (4, vec![false, false]), (5, Vec::new())];
    assert_eq!(despawn_far_enemies(&near), vec![4, 5]);
}

#[test]
fn the_burning_die_and_the_fleeing_vanish_unseen() {
    let mut burning = foe(EnemyKind::Zombie, 1, SpawnEnvironment::SurfaceNight, false);
    burning.ai.burn_ticks = 60;
    let mut fleeing = foe(EnemyKind::Zombie, 45, SpawnEnvironment::SurfaceNight, false);
    fleeing.ai.fleeing = true;
    let mut store = EntityStore::new();
    let mut turns = Vec::new();
    for (foe, seen) in [(burning, true), (fleeing, true), (fleeing, false)] {
        store.insert(entity(EntityKind::Enemy(foe.kind)));
        turns.push(Some(turn(foe, true, vec![seen])));
    }
    store.insert(entity(EntityKind::FallingSand));
    turns.push(None);
    let hunt = tick_enemies(&mut store, &turns, false);
    assert_eq!(hunt.dead, vec![1]);
    assert_eq!(hunt.gone, vec![3]);
    let left: Vec<u32> = store.entries.iter().map(|e| e.0).collect();
    assert_eq!(left, vec![2, 4]);
    assert_eq!(hunt.foes.len(), 1);
    assert_eq!(hunt.foes[0].0, 2);
    assert!(store.entries[0].1.body.pos == Point { x: 5, y: 6 });
    assert!(store.entries[1].1.body.pos == Point { x: 0, y: 0 });
}

fn turn(foe: Foe, above_ground: bool, seen: Vec<bool>) -> Turn {
    Turn {
        foe,
        above_ground,
        quarry: vec![Quarry { distance: 9, slime_friend: false }],
        right: vec![true],
        sight: vec![true],
        lands: true,
        at_ledge: false,
        next_wait: 30,
        times: SwoopTimes { swoop: 50, period: 200, volley: 240 },
        body: Body { pos: Point { x: 5, y: 6 }, vel: Point { x: 0, y: 0 }, chunk: (0, 0) },
        seen,
    }
}

#[test]
fn a_tick_sets_moods_and_takes_aim() {
    let slime = foe(EnemyKind::GreenSlime, 14, SpawnEnvironment::SurfaceDay, true);
    let mut hurt = slime;
    hurt.ai.aggroed = true;
    let demon = foe(EnemyKind::AshDemon, 120, SpawnEnvironment::SurfaceNight, false);
    let mut store = EntityStore::new();
    let mut tick = |foes: &[Foe], is_day: bool, above: bool| {
        store = EntityStore::new();
        let mut turns = Vec::new();
        for f in foes {
            store.insert(entity(EntityKind::Enemy(f.kind)));
            turns.push(Some(turn(*f, above, vec![true])));
        }
        tick_enemies(&mut store, &turns, is_day)
    };
    let dusk = tick(&[slime, hurt], false, true);
    assert!(dusk.foes.iter().all(|f| !f.1.ai.passive), "dusk angers");
    let back: Vec<Foe> = dusk.foes.iter().map(|f| f.1).collect();
    let dawn = tick(&back, true, true);
    assert!(dawn.foes[0].1.ai.passive, "dawn calms");
    assert!(!dawn.foes[1].1.ai.passive, "but not the hurt");
    assert!(!tick(&back, true, false).foes[0].1.ai.passive, "nor underground");
    // A demon that sees its target shoots, and then waits.
    let mut ready = demon;
    ready.ai.timer2 = 0;
    let shot = tick(&[ready], false, true);
    assert_eq!(shot.volleys, vec![(1, 0)]);
    assert_eq!(shot.foes[0].1.ai.timer2, 240);
    assert!(tick(&[shot.foes[0].1], false, true).volleys.is_empty());
}

#[test]
fn slime_drops_gel_always_lava_slime_never() {
    let gel = DropRoll { item: ItemId::Gel, hit: true, count: 2 };
    let drops = kill_enemy(25, &vec![gel]);
    assert_eq!(drops, vec![(ItemId::CopperCoin, 25), (ItemId::Gel, 2)]);
    // A row that missed, or rolled nothing, gives nothing.
    let missed = DropRoll { hit: false, ..gel };
    let nothing = DropRoll { count: 0, ..gel };
    assert!(kill_enemy(0, &vec![missed, nothing]).is_empty());
}

#[test]
fn coins_come_in_the_largest_kinds() {
    assert_eq!(
        spawn_coin_drops(123_456),
        vec![(ItemId::GoldCoin, 12), (ItemId::SilverCoin, 34), (ItemId::CopperCoin, 56)]
    );
    assert_eq!(spawn_coin_drops(300), vec![(ItemId::SilverCoin, 3)]);
}

#[test]
fn slimes_do_not_see_their_friends() {
    let q = |distance, slime_friend| Quarry { distance, slime_friend };
    let all = vec![q(9, false), q(2, true), q(9, false)];
    assert_eq!(choose_target(EnemyKind::GreenSlime, &all), Some(0));
    assert_eq!(choose_target(EnemyKind::Zombie, &all), Some(1));
    assert_eq!(choose_target(EnemyKind::BlueSlime, &vec![q(1, true)]), None);
    let bat = AiState { timer: 0, ..grounded(0) };
    assert!(step_erratic(bat, 40).1);
    assert!(!step_erratic(AiState { timer: 3, ..bat }, 40).1);
}

const FREE: Hands = Hands {
    held_slot: 0,
    last_swing_tick: None,
    last_door_toggle_tick: None,
    last_held_broadcast_tick: None,
    held_broadcast_dirty: false,
};

#[test]
fn using_an_item_waits_for_the_last_use() {
    let sword = ItemUse { weapon: Some(WeaponKind::Melee), consumable: None, use_ticks: 20 };
    let stack = Some(InvSlot::new(ItemId::WoodSword, 1));
    let (a, hands) = use_item(0, false, stack, sword, FREE, 100).expect("swings");
    assert_eq!(a, UseAction::Swing);
    assert_eq!(use_item(0, false, stack, sword, hands, 118), None);
    assert!(use_item(0, false, stack, sword, hands, 119).is_some(), "one tick of slack");
    assert_eq!(use_item(10, false, stack, sword, FREE, 100), None, "not in the hotbar");
    assert_eq!(use_item(0, true, stack, sword, FREE, 100), None, "dead");
    assert_eq!(use_item(0, false, None, sword, FREE, 100), None, "empty");
    let potion = ItemUse { weapon: None, consumable: Some(Consumable::Heal(50)), use_ticks: 20 };
    assert_eq!(use_item(0, false, stack, potion, FREE, 0).map(|r| r.0), Some(UseAction::Heal(50)));
    let arrow = ItemUse { weapon: Some(WeaponKind::Arrow), consumable: None, use_ticks: 20 };
    assert_eq!(use_item(0, false, stack, arrow, FREE, 0), None);

    let swing = start_melee_swing(ItemId::EmberBlade, 30, false, 100, 20);
    assert_eq!((swing.until_tick, swing.facing, swing.burns), (120, -1, true));
    assert_eq!(tick_swing(Some(swing), false, 119), (Some(swing), true));
    assert_eq!(tick_swing(Some(swing), true, 119), (Some(swing), false));
    assert_eq!(tick_swing(Some(swing), false, 120), (None, false));
}
