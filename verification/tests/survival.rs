use ferraria::grid::World;
use ferraria::item::{InvSlot, ItemId, INVENTORY_SLOTS};
use ferraria::sim::combat::start_melee_swing;
use ferraria::sim::entities::EntityStore;
use ferraria::sim::fate::Place;
use ferraria::sim::live::Live;
use ferraria::sim::player::{Debuff, Fall, Player, Point, Vitals};
use ferraria::sim::roster::{respawn_hp, Fresh, Limits, Notice, Roster, Scene};
use ferraria::sim::survival::{
    add_debuff, bed_spawn_pos, has_debuff, hurt_player, kill_player, observe_movement,
    drink_healing, point_in_liquid, regen, regen_due, respawn_player, set_bed_spawn,
    tick_breath, tick_contact_hazards, tick_debuffs, touches_hellstone, touches_lava,
    use_life_crystal, Hurt, MoveReport, ReturnAt, Surroundings, LAVA_BURN_TICKS,
    PLAYER_IFRAME_TICKS, PLAYER_MAX_BREATH, RESPAWN_TICKS, RESPAWN_TICKS_BOSS_ALIVE,
};
use ferraria::sim::vitals::{tick_player_vitals, VitalsInput};
use ferraria::tile::{Liquid, LiquidKind, Tile, TileId};

const SCENE: Scene =
    Scene { width: 320, height: 320, spawn: (160, 100), time: 16200, day: 0, flags: 0 };

const FLOOR: u32 = 30;

fn player() -> Player {
    let mut r = Roster::new();
    let limits = Limits { max_players: 16, max_name_chars: 20, base_hp: 100, max_breath: 200 };
    let fresh = Fresh {
        token: 1,
        pos: Point { x: 0, y: 0 },
        inventory: vec![None; INVENTORY_SLOTS],
    };
    let mut live = Live::new(World::new(320, 320));
    let (none, mut out) = (EntityStore::new(), Vec::new());
    r.join("alice", None, fresh, limits, SCENE, &mut live, &none, (160, 98), 99, &mut out)
        .expect("joins");
    r.players.pop().expect("one player")
}

fn floor_world() -> World {
    let mut w = World::new(100, 60);
    for y in FLOOR..60 {
        for x in 0..100 {
            w.set_tile(x, y, Tile::of(TileId::Stone));
        }
    }
    w
}

#[test]
fn breath_drains_drowns_and_refills_on_the_design_timeline() {
    let mut v: Vitals = player().vitals;
    assert_eq!(v.breath, PLAYER_MAX_BREATH);
    // Drain: 1 unit per 7 ticks.
    let mut told = 0;
    for tick in 1..=70 {
        let b = tick_breath(v, true, tick);
        v.breath = b.breath;
        told += b.tell as u32;
        assert!(!b.drowning);
    }
    assert_eq!(v.breath, 190);
    assert!(told > 0);

    // On an empty meter damage falls due.
    v.breath = 0;
    assert!((1..=7).any(|tick| tick_breath(v, true, tick).drowning));

    // Climb out: refills 3 per tick.
    for tick in 71..=140 {
        v.breath = tick_breath(v, false, tick).breath;
    }
    assert_eq!(v.breath, PLAYER_MAX_BREATH);
    // The dead do not breathe.
    v.dead = true;
    v.breath = 5;
    assert_eq!(tick_breath(v, true, 7).breath, 5);
}

/// A report from the air, on the way down.
fn falling(fall: Fall, way: f32) -> MoveReport {
    MoveReport {
        grounded: false,
        air_jumped: false,
        has_air_jump: false,
        submerged: false,
        no_fall_damage: false,
        way: way.to_bits(),
        counted: (f32::from_bits(fall.height) + way).to_bits(),
    }
}

const AIRBORNE: Fall = Fall { height: 0, was_grounded: false };

#[test]
fn lucky_charm_negates_fall_damage() {
    let f = observe_movement(false, AIRBORNE, falling(AIRBORNE, 20.0)).fall;
    assert_eq!(f, Fall { height: 20.0f32.to_bits(), was_grounded: false });
    let landing = MoveReport { grounded: true, ..falling(f, 5.0) };
    let hard = observe_movement(false, f, landing);
    assert_eq!(hard.fell, Some(25.0f32.to_bits()));
    assert_eq!(hard.fall, Fall { height: 0, was_grounded: true }, "nothing of it is left");
    let charmed = MoveReport { no_fall_damage: true, ..landing };
    let soft = observe_movement(false, f, charmed);
    assert_eq!(soft.fell, None);
    assert_eq!(soft.fall, hard.fall);
    // Walking on hurts no more.
    let walk = MoveReport { grounded: true, ..falling(hard.fall, 1.0) };
    let on = observe_movement(false, hard.fall, walk);
    assert_eq!((on.fell, on.fall), (None, hard.fall));
}

#[test]
fn gust_jar_air_jump_resets_the_fall() {
    let f = Fall { height: 30.0f32.to_bits(), was_grounded: false };
    let jump = MoveReport { air_jumped: true, has_air_jump: true, ..falling(f, 2.0) };
    assert_eq!(observe_movement(false, f, jump).fall.height, 2.0f32.to_bits());
    // Without the jar the same flag is ignored.
    let lie = MoveReport { has_air_jump: false, ..jump };
    assert_eq!(observe_movement(false, f, lie).fall.height, 32.0f32.to_bits());
    // The dead do not fall.
    let dead = observe_movement(true, f, lie);
    assert_eq!(dead.fall, Fall { height: 0, was_grounded: false });
    assert_eq!(dead.fell, None);
}

#[test]
fn deep_water_landing_negates_fall_damage() {
    let f = Fall { height: 30.0f32.to_bits(), was_grounded: false };
    let splash = MoveReport { submerged: true, grounded: true, ..falling(f, 2.0) };
    let wet = observe_movement(false, f, splash);
    assert_eq!(wet.fell, Some(0), "from no height");
    assert_eq!(wet.fall, Fall { height: 0, was_grounded: true });
    // Walking does not count as falling.
    let ground = Fall { height: 0, was_grounded: true };
    let walk = MoveReport { grounded: true, ..falling(ground, 3.0) };
    assert_eq!(observe_movement(false, ground, walk).fall, ground);
}

/// One player, and a world with a floor.
fn joined() -> (Roster, Live) {
    let mut r = Roster::new();
    r.players.push(player());
    (r, Live::new(floor_world()))
}

#[test]
fn death_drops_half_coins_and_respawn_restores_design_hp() {
    let (mut r, mut live) = joined();
    let id = r.players[0].id;
    r.players[0].inventory[5] = Some(InvSlot::new(ItemId::CopperCoin, 75));
    r.players[0].inventory[6] = Some(InvSlot::new(ItemId::SilverCoin, 3));
    r.players[0].swing = Some(start_melee_swing(ItemId::WoodSword, 7, true, 45, 20));
    let mut out = Vec::new();
    let harm = r.harm(0, 1000, Hurt::Raw, None, 50, false, &mut out);
    assert!(harm.applied);
    assert!(r.players[0].vitals.dead);
    assert!(out.iter().any(|o| o.to == id && o.what == Notice::Died { id }));
    let health = Notice::Health { id, hp: 0, max_hp: 100 };
    assert!(out.iter().any(|o| o.to == id && o.what == health));
    assert!(r.players[0].swing.is_none(), "the dead do not swing on");
    // Half of each coin stack, rounded down, drops.
    let left = Some(InvSlot::new(ItemId::CopperCoin, 38));
    assert_eq!(r.players[0].inventory[5], left);
    assert!(out.iter().any(|o| o.what == Notice::Slot { idx: 5, stack: left }));
    assert_eq!(r.players[0].inventory[6], Some(InvSlot::new(ItemId::SilverCoin, 2)));
    assert!(harm.coins.contains(&(ItemId::CopperCoin, 37)));
    assert!(harm.coins.contains(&(ItemId::SilverCoin, 1)));

    // Too early: the timer gates the respawn.
    let none = EntityStore::new();
    let bed = Place { pos: Point { x: 1, y: 2 }, cell: (60, 28) };
    let spawn = Place { pos: Point { x: 3, y: 4 }, cell: (50, 28) };
    r.players[0].fall = Fall { height: 7, was_grounded: false };
    r.players[0].motion.vel = Point { x: 9, y: 9 };
    out.clear();
    assert_eq!(r.bring_back(0, &mut live, &none, bed, spawn, 51, 99, &mut out), None);
    assert!(r.players[0].vitals.dead, "timer not elapsed");
    assert!(out.is_empty());
    let later = 50 + RESPAWN_TICKS;
    assert_eq!(r.bring_back(0, &mut live, &none, bed, spawn, later, 99, &mut out), Some(false));
    let p = &r.players[0];
    assert!(!p.vitals.dead);
    assert_eq!(p.vitals.hp, 100, "max(100, 100/2) = 100");
    assert_eq!((p.motion.pos, p.motion.vel), (spawn.pos, Point { x: 0, y: 0 }));
    assert!(p.motion.moved);
    assert_eq!(p.fall, Fall { height: 0, was_grounded: true });
    let told: Vec<&Notice> = out.iter().filter(|o| o.to == id).map(|o| &o.what).collect();
    assert_eq!(*told[0], Notice::Respawned { id, pos: spawn.pos });
    // The own placement, so that the client snaps to it.
    assert!(matches!(told[1], Notice::Moved { id: who, motion }
        if *who == id && motion.pos == spawn.pos && motion.anim == 0));
    assert_eq!(*told[2], Notice::Health { id, hp: 100, max_hp: 100 });
    // The living stay where they are.
    assert!(!respawn_player(&mut r.players[0], &live.world, bed.pos, spawn.pos, 10_000));
    // While a boss lives the wait is longer.
    let mut q = player();
    kill_player(&mut q, 0, true);
    assert_eq!(q.vitals.respawn_ready_tick, RESPAWN_TICKS_BOSS_ALIVE);
}

#[test]
fn a_blow_pushes_whom_it_hits() {
    let (mut r, _) = joined();
    let id = r.players[0].id;
    let push = Point { x: 5, y: 6 };
    let mut out = Vec::new();
    assert!(r.harm(0, 30, Hurt::Hit, Some(push), 100, false, &mut out).applied);
    assert_eq!(out[0].what, Notice::Knockback { vel: push });
    assert_eq!(out[1].what, Notice::Health { id, hp: 70, max_hp: 100 });
    assert_eq!(out.len(), 2);
    // Nothing is told of a blow that comes too soon after it.
    out.clear();
    assert!(!r.harm(0, 30, Hurt::Hit, Some(push), 101, false, &mut out).applied);
    assert!(out.is_empty());
    assert_eq!(r.players[0].vitals.hp, 70);
}

#[test]
fn respawn_hp_is_max_of_100_and_half_max() {
    let mut p = player();
    p.vitals.max_hp = 400;
    p.vitals.hp = 400;
    let harm = hurt_player(p.vitals, 5000, Hurt::Raw, 0);
    assert!(harm.died);
    p.vitals = harm.vitals;
    kill_player(&mut p, 0, false);
    let here = Point { x: 0, y: 0 };
    assert!(respawn_player(&mut p, &floor_world(), here, here, RESPAWN_TICKS + 1));
    assert_eq!(p.vitals.hp, 200, "max(100, 400/2)");
    assert_eq!(respawn_hp(120, 100), 100);
}

#[test]
fn bed_spawn_used_when_bed_still_stands() {
    let mut w = floor_world();
    assert!(w.place_multitile(60, FLOOR - 2, TileId::Bed, 4, 2));
    assert_eq!(set_bed_spawn(&w, 61, FLOOR - 2, true), Some((60, FLOOR - 2)));
    assert_eq!(set_bed_spawn(&w, 61, FLOOR - 2, false), None);
    assert_eq!(set_bed_spawn(&w, 10, FLOOR - 2, true), None);
    let bed = Some((60, FLOOR - 2));
    assert!(matches!(bed_spawn_pos(&w, bed), ReturnAt::Bed(o) if o == (60, FLOOR - 2)));
    // Without the bed it is the world spawn again.
    w.set_tile(60, FLOOR - 2, Tile::of(TileId::Air));
    assert!(matches!(bed_spawn_pos(&w, bed), ReturnAt::WorldSpawn));
    assert!(matches!(bed_spawn_pos(&w, None), ReturnAt::WorldSpawn));
}

#[test]
fn burning_ticks_and_expires() {
    let mut p = player();
    assert!(add_debuff(&mut p.debuffs, false, false, Debuff::Burning, 120));
    assert!(has_debuff(&p.debuffs, Debuff::Burning));
    // A shorter fire does not shorten it.
    assert!(add_debuff(&mut p.debuffs, false, false, Debuff::Burning, 10));
    assert_eq!(p.debuffs[0].ticks, 120);
    let mut expired = 0;
    for _ in 0..122 {
        expired += tick_debuffs(&mut p.debuffs) as u32;
    }
    assert_eq!(expired, 1);
    assert!(!has_debuff(&p.debuffs, Debuff::Burning), "expired");
    // The dead and the immune do not catch fire.
    assert!(!add_debuff(&mut p.debuffs, true, false, Debuff::Burning, 10));
    assert!(!add_debuff(&mut p.debuffs, false, true, Debuff::Burning, 10));
    assert!(p.debuffs.is_empty());
}

#[test]
fn healing_potion_heals_and_sickness_blocks_the_second() {
    let mut p = player();
    p.inventory[0] = Some(InvSlot::new(ItemId::LesserHealingPotion, 5));
    p.vitals = hurt_player(p.vitals, 60, Hurt::Raw, 0).vitals;
    assert_eq!(p.vitals.hp, 40);
    assert!(drink_healing(&mut p, 0, 50, 3600));
    assert_eq!(p.vitals.hp, 90);
    assert!(has_debuff(&p.debuffs, Debuff::PotionSickness));
    assert_eq!(p.inventory[0].map(|s| s.count), Some(4));
    // The second sip is blocked.
    assert!(!drink_healing(&mut p, 0, 50, 3600));
    assert_eq!(p.vitals.hp, 90);
    assert_eq!(p.inventory[0].map(|s| s.count), Some(4));
}

#[test]
fn life_crystal_raises_max_hp_to_the_cap() {
    let mut p = player();
    p.inventory[0] = Some(InvSlot::new(ItemId::LifeCrystal, 20));
    let used = (0..16).filter(|_| use_life_crystal(&mut p, 0, 20)).count();
    assert_eq!(used, 15);
    assert_eq!(p.vitals.max_hp, 400);
    assert_eq!(p.vitals.hp, 400);
    assert_eq!(p.inventory[0].map(|s| s.count), Some(5));
}

#[test]
fn regen_starts_after_8s_and_band_of_vigor_stacks() {
    let v = hurt_player(player().vitals, 10, Hurt::Raw, 0).vitals;
    assert_eq!(v.hp, 90);
    assert!(!regen_due(v, 7 * 60), "inside the window");
    assert!(regen_due(v, 8 * 60));
    assert_eq!(regen(v, 2).hp, 92);
    assert_eq!(regen(v, 50).hp, 100, "never above the most");
    assert!(!regen_due(regen(v, 50), 8 * 60));
}

#[test]
fn lava_contact_damages_burns_and_obsidian_charm_halves() {
    let mut w = floor_world();
    let (x, y) = (50, FLOOR - 1);
    let mut t = Tile::of(TileId::Air);
    t.liquid = Liquid::new(LiquidKind::Lava, 8);
    w.set_tile(x, y, t);
    assert!(touches_lava(&w, 50, 27, 51, 29));
    assert!(!touches_lava(&w, 40, 27, 41, 29));

    let mut p = player();
    let lava = Surroundings { lava: true, hellstone: false, burn_immune: false, lava_damage: 50 };
    let c = tick_contact_hazards(&mut p, lava, 10, false);
    assert!(c.hurt && c.burns && c.died.is_none());
    assert_eq!(p.vitals.hp, 50);
    assert!(has_debuff(&p.debuffs, Debuff::Burning));
    assert_eq!(p.debuffs[0].ticks, LAVA_BURN_TICKS);

    // The charm halves the damage and keeps the fire off.
    let mut q = player();
    let charmed = Surroundings { burn_immune: true, lava_damage: 25, ..lava };
    let c = tick_contact_hazards(&mut q, charmed, 10, false);
    assert!(c.hurt && !c.burns);
    assert_eq!(q.vitals.hp, 75);
    assert!(!has_debuff(&q.debuffs, Debuff::Burning));

    // Deadly lava takes coins too.
    let mut r = player();
    r.inventory[0] = Some(InvSlot::new(ItemId::GoldCoin, 4));
    let deadly = Surroundings { lava_damage: 500, ..lava };
    let c = tick_contact_hazards(&mut r, deadly, 10, false);
    assert_eq!(c.died, Some(vec![(ItemId::GoldCoin, 2)]));
    assert!(r.vitals.dead);
}

#[test]
fn blows_leave_a_grace() {
    let v = player().vitals;
    let first = hurt_player(v, 30, Hurt::Hit, 100);
    assert_eq!(first.vitals.hp, 70);
    let second = hurt_player(first.vitals, 30, Hurt::Hit, 100 + PLAYER_IFRAME_TICKS - 1);
    assert!(!second.applied);
    let third = hurt_player(first.vitals, 30, Hurt::Hit, 100 + PLAYER_IFRAME_TICKS);
    assert_eq!(third.vitals.hp, 40);
    // Falls and fire do not wait.
    assert!(hurt_player(first.vitals, 5, Hurt::Raw, 101).applied);
}

#[test]
fn liquids_fill_cells_from_below() {
    let mut w = floor_world();
    let mut t = Tile::of(TileId::Air);
    t.liquid = Liquid::new(LiquidKind::Water, 2);
    w.set_tile(50, FLOOR - 1, t);
    assert_eq!(point_in_liquid(&w, 50, FLOOR as i32 - 1, 7), Some(LiquidKind::Water));
    assert_eq!(point_in_liquid(&w, 50, FLOOR as i32 - 1, 0), None);
    assert_eq!(point_in_liquid(&w, 51, FLOOR as i32 - 1, 7), None);
    w.set_tile(20, FLOOR, Tile::of(TileId::Hellstone));
    assert!(touches_hellstone(&w, 20, 29, 21, 30));
    assert!(!touches_hellstone(&w, 30, 29, 31, 30));
}

#[test]
fn a_tick_of_life_goes_in_order() {
    let calm = Surroundings { lava: false, hellstone: false, burn_immune: false, lava_damage: 0 };
    let quiet = VitalsInput {
        head_under: false,
        drown: 0,
        around: calm,
        burn: 0,
        regen: 0,
        boss_alive: false,
    };
    // Who drowns neither meets lava nor burns.
    let mut p = player();
    p.vitals.breath = 0;
    p.vitals.hp = 5;
    p.inventory[0] = Some(InvSlot::new(ItemId::GoldCoin, 4));
    let lava = Surroundings { lava: true, lava_damage: 50, ..calm };
    let n = tick_player_vitals(
        &mut p,
        VitalsInput { head_under: true, drown: 9, around: lava, burn: 3, ..quiet },
        7,
    );
    assert_eq!(n.drowned, Some(vec![(ItemId::GoldCoin, 2)]));
    assert!(!n.contact.hurt && n.burnt.is_none() && !n.healed);
    assert!(p.vitals.dead && p.debuffs.is_empty());

    // Lava sets on fire, and the fire burns in the same tick.
    let mut p = player();
    let n = tick_player_vitals(&mut p, VitalsInput { around: lava, burn: 3, ..quiet }, 10);
    assert!(n.contact.hurt && n.contact.burns);
    assert_eq!(p.vitals.hp, 47);
    assert_eq!(p.debuffs[0].ticks, LAVA_BURN_TICKS - 1);

    // The last tick of a fire still burns.
    p.debuffs[0].ticks = 1;
    let n = tick_player_vitals(&mut p, VitalsInput { burn: 1, ..quiet }, 20);
    assert!(n.expired && p.debuffs.is_empty());
    assert_eq!(p.vitals.hp, 46);

    // Long after the last damage, health comes back.
    let n = tick_player_vitals(&mut p, VitalsInput { regen: 2, ..quiet }, 499);
    assert!(!n.healed);
    let n = tick_player_vitals(&mut p, VitalsInput { regen: 2, ..quiet }, 500);
    assert!(n.healed);
    assert_eq!(p.vitals.hp, 48);
}
