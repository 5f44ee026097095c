use ferraria::grid::World;
use ferraria::item::{InvSlot, ItemId, INVENTORY_SLOTS};
use ferraria::sim::chunks::{
    batch_cells, cells_for, chunk_window, missing_chunks, player_chunk, subscribe,
    CHUNK_SUB_RADIUS_X, CHUNK_SUB_RADIUS_Y,
};
use ferraria::sim::clock::{Clock, DAY_TICKS, SNAPSHOT_INTERVAL_TICKS};
use ferraria::sim::dispatch::{ClientMessage, Deed, Manners, SlotOp};
use ferraria::sim::entities::{Body, Entity, EntityKind, EntityStore};
use ferraria::sim::inventory::starting_inventory;
use ferraria::sim::live::Live;
use ferraria::sim::plan::{tick, Stage};
use ferraria::sim::player::{Motion, Point};
use ferraria::sim::roster::{Fresh, Intent, JoinError, Joined, Limits, Notice, Outgoing, Roster, Scene};
use ferraria::sim::seed::{entropy_seed, fresh_seeds, fresh_token, salted, TOKEN_BYTES};
use ferraria::sim::session::{player_state, MoveIntent};
use ferraria::text::{sanitize_chat, sanitize_name};
use ferraria::tile::{Tile, TileId};

const MAX_PLAYERS: usize = 16;
const MAX_NAME_CHARS: usize = 20;
const CHAT_MAX_CHARS: usize = 200;

const LIMITS: Limits = Limits {
    max_players: MAX_PLAYERS,
    max_name_chars: MAX_NAME_CHARS,
    base_hp: 100,
    max_breath: 200,
};

/// Notices that the queue of a player takes.
const ROOM: usize = 256;

/// The cell in which players appear.
const SPAWN: (u32, u32) = (160, 98);

const SCENE: Scene =
    Scene { width: 320, height: 320, spawn: (160, 100), time: 16200, day: 0, flags: 0 };

fn at(x: f32, y: f32) -> Point {
    Point { x: x.to_bits(), y: y.to_bits() }
}

fn kit() -> Vec<Option<InvSlot>> {
    let kit = vec![
        InvSlot::new(ItemId::WoodSword, 1),
        InvSlot::new(ItemId::WoodPickaxe, 1),
        InvSlot::new(ItemId::Other(1), 1),
        InvSlot::new(ItemId::Torch, 5),
    ];
    starting_inventory(&kit, INVENTORY_SLOTS)
}

fn fresh(token: u128) -> Fresh {
    Fresh { token, pos: at(160.0, 97.0), inventory: kit() }
}

/// An empty world of 5 by 5 chunks.
fn empty_world() -> Live {
    let mut world = World::new(320, 320);
    world.spawn = (160, 100);
    Live::new(world)
}

fn try_join(
    r: &mut Roster,
    live: &mut Live,
    name: &str,
    token: Option<u128>,
    fresh: Fresh,
    out: &mut Vec<Outgoing>,
) -> Result<Joined, JoinError> {
    let none = EntityStore::new();
    r.join(name, token, fresh, LIMITS, SCENE, live, &none, SPAWN, ROOM, out)
}

fn join(r: &mut Roster, live: &mut Live, name: &str, token: u128) -> Joined {
    try_join(r, live, name, None, fresh(token), &mut Vec::new()).expect("joins")
}

fn to(id: u32, out: &[Outgoing]) -> Vec<&Notice> {
    out.iter().filter(|o| o.to == id).map(|o| &o.what).collect()
}

fn moved_to(notice: &Notice, player: u32, pos: Point) -> bool {
    matches!(notice, Notice::Moved { id, motion } if *id == player && motion.pos == pos)
}

#[test]
fn join_sends_welcome_inventory_time_and_chunks() {
    let mut r = Roster::new();
    let mut live = empty_world();
    let mut out = Vec::new();
    let j = try_join(&mut r, &mut live, "alice", None, fresh(7), &mut out).expect("joins");
    let mine = to(j.id, &out);
    assert_eq!(*mine[0], Notice::Welcome { player_id: j.id, token: 7, scene: SCENE });
    // The own placement comes directly after the welcome.
    assert!(moved_to(mine[1], j.id, r.players[0].motion.pos));
    let inv = mine
        .iter()
        .find_map(|n| match n {
            Notice::Inventory { slots } => Some(slots),
            _ => None,
        })
        .expect("inventory");
    assert!(mine.contains(&&Notice::Time { time: 16200, day: 0 }));
    assert!(mine.contains(&&Notice::Health { id: j.id, hp: 100, max_hp: 100 }));
    assert_eq!(inv.len(), INVENTORY_SLOTS);
    assert_eq!(inv[0], Some(InvSlot::new(ItemId::WoodSword, 1)));
    assert_eq!(inv[3], Some(InvSlot::new(ItemId::Torch, 5)));
    // A 5x3 window around chunk (2, 1) of a 5x5 chunk grid: x 0..5, y 0..3.
    let mut chunks: Vec<(u32, u32)> = mine
        .iter()
        .filter_map(|n| match n {
            Notice::Chunk { cx, cy, tiles } => {
                assert_eq!(tiles.len(), 64 * 64);
                Some((*cx, *cy))
            }
            _ => None,
        })
        .collect();
    assert_eq!(chunks.len(), 15);
    assert!(chunks.iter().all(|c| c.0 < 5 && c.1 < 3));
    chunks.sort();
    let mut received = r.players[0].chunks.clone();
    received.sort();
    assert_eq!(chunks, received);
    assert!(!j.lagging);
}

#[test]
fn a_short_queue_gets_what_it_takes() {
    let mut r = Roster::new();
    let mut live = empty_world();
    let mut out = Vec::new();
    let none = EntityStore::new();
    let j = r
        .join("alice", None, fresh(7), LIMITS, SCENE, &mut live, &none, SPAWN, 4, &mut out)
        .expect("joins");
    assert!(j.lagging, "to be dropped");
    assert_eq!(r.players[0].chunks.len(), 4);
    let sent = out.iter().filter(|o| matches!(o.what, Notice::Chunk { .. })).count();
    assert_eq!(sent, 4);
}

#[test]
fn what_lives_in_the_window_is_shown() {
    let mut r = Roster::new();
    let mut live = empty_world();
    let mut store = EntityStore::new();
    let lying = |chunk| Entity {
        body: Body { pos: at(0.0, 0.0), vel: at(0.0, 0.0), chunk },
        kind: EntityKind::ItemDrop { item: ItemId::Gel, count: 2 },
        spawn_tick: 0,
        awake: true,
    };
    let near = store.insert(lying((2, 2)));
    store.insert(lying((4, 4)));
    let mut out = Vec::new();
    let j = r
        .join("alice", None, fresh(7), LIMITS, SCENE, &mut live, &store, SPAWN, ROOM, &mut out)
        .expect("joins");
    let shown: Vec<u32> = to(j.id, &out)
        .iter()
        .filter_map(|n| match n {
            Notice::Spawned { id, .. } => Some(*id),
            _ => None,
        })
        .collect();
    assert_eq!(shown, vec![near]);
    assert!(matches!(out.last(), Some(Outgoing { what: Notice::Spawned { .. }, .. })));
}

#[test]
fn rejects_dupes_imposters_and_a_full_server() {
    let mut r = Roster::new();
    let mut live = empty_world();
    join(&mut r, &mut live, "alice", 1);
    let dupe = try_join(&mut r, &mut live, "alice", None, fresh(2), &mut Vec::new());
    assert_eq!(dupe, Err(JoinError::AlreadyOnline));
    let bad_name = try_join(&mut r, &mut live, "  \u{7} ", None, fresh(2), &mut Vec::new());
    assert_eq!(bad_name, Err(JoinError::InvalidName));

    for i in 1..MAX_PLAYERS {
        join(&mut r, &mut live, &format!("p{i}"), i as u128 + 10);
    }
    assert_eq!(r.players.len(), MAX_PLAYERS);
    let full = try_join(&mut r, &mut live, "late", None, fresh(3), &mut Vec::new());
    assert_eq!(full, Err(JoinError::Full));
}

#[test]
fn refusals_say_why() {
    assert_eq!(
        JoinError::InvalidName.reason("", LIMITS),
        "invalid name (1..=20 printable characters)"
    );
    assert_eq!(JoinError::Full.reason("late", LIMITS), "server is full (16 players)");
    assert_eq!(
        JoinError::AlreadyOnline.reason("alice", LIMITS),
        "a player named \"alice\" is already online"
    );
    assert!(!JoinError::NameTaken.reason("alice", LIMITS).is_empty());
}

#[test]
fn token_reclaims_identity_and_blocks_imposters() {
    let mut r = Roster::new();
    let mut live = empty_world();
    let j = join(&mut r, &mut live, "alice", 42);
    r.players[0].motion.pos = at(165.0, 95.0);
    assert!(r.disconnect(j.id, j.epoch, at(0.0, 0.0), 100, &mut Vec::new()));
    assert!(r.players.is_empty());

    // Wrong token: rejected. Right token: same id, position restored.
    let imposter = try_join(&mut r, &mut live, "alice", Some(0xee), fresh(9), &mut Vec::new());
    assert_eq!(imposter, Err(JoinError::NameTaken));
    let mut out = Vec::new();
    let re = try_join(&mut r, &mut live, "alice", Some(42), fresh(9), &mut out).expect("reclaims");
    assert_eq!(re.id, j.id, "identity reclaimed");
    assert_eq!(r.players[0].motion.pos, at(165.0, 95.0));
    let mine = to(re.id, &out);
    assert_eq!(*mine[0], Notice::Welcome { player_id: j.id, token: 42, scene: SCENE });
    assert!(moved_to(mine[1], re.id, at(165.0, 95.0)));
    assert!(re.epoch > j.epoch);
}

#[test]
fn stale_session_commands_cannot_touch_a_reclaimed_session() {
    let mut r = Roster::new();
    let mut live = empty_world();
    let old = join(&mut r, &mut live, "alice", 42);
    assert!(r.disconnect(old.id, old.epoch, at(0.0, 0.0), 100, &mut Vec::new()));
    let new = try_join(&mut r, &mut live, "alice", Some(42), fresh(9), &mut Vec::new()).expect("reclaims");
    assert_eq!(new.id, old.id, "same id reused");
    assert_ne!(old.epoch, new.epoch);

    // The stale disconnect leaves the live session alone.
    assert!(!r.disconnect(old.id, old.epoch, at(0.0, 0.0), 100, &mut Vec::new()));
    assert_eq!(r.players.len(), 1);
    // Stale messages are ignored too.
    assert_eq!(r.actor(old.id, old.epoch, Intent::Chat), None);
    assert_eq!(r.actor(new.id, new.epoch, Intent::Chat), Some(0));
    // The live epoch still works normally.
    assert!(r.disconnect(new.id, new.epoch, at(0.0, 0.0), 100, &mut Vec::new()));
    assert!(r.players.is_empty());
}

#[test]
fn movement_is_clamped_and_rebroadcast_every_three_ticks() {
    let mut r = Roster::new();
    let mut live = empty_world();
    let a = join(&mut r, &mut live, "alice", 1);
    let b = join(&mut r, &mut live, "bob", 2);
    let target = at(163.0, 96.0);
    let report = MoveIntent {
        pos: target,
        vel: at(1.0, 0.0),
        facing: 1,
        anim: 0,
        finite: true,
        within_budget: true,
    };
    let mut out = Vec::new();
    assert!(r.report(1, report, &mut out));
    assert!(out.is_empty());
    assert_eq!(r.players[1].motion.pos, target);
    let none = EntityStore::new();
    for i in 0..2 {
        assert!(!r.share_move(i, &mut live, &none, (163, 97), ROOM, &mut out));
    }
    let seen = to(a.id, &out);
    assert_eq!(seen.len(), 1);
    assert!(moved_to(seen[0], b.id, target));
    // The mover does not get their own snapshot.
    assert!(to(b.id, &out).is_empty());
    // Everyone is told once.
    out.clear();
    r.share_move(1, &mut live, &none, (163, 97), ROOM, &mut out);
    assert!(out.is_empty());

    // The snapshots go out every third tick.
    let mut clock = Clock { tick: 0, time: 0, day: 0 };
    for n in 1..=6u32 {
        let plan = tick(&mut clock, 600);
        let due = n % SNAPSHOT_INTERVAL_TICKS == 0;
        assert_eq!(plan.contains(&Stage::Movement), due);
        assert_eq!(plan.contains(&Stage::EntityUpdates), due);
        assert_eq!(plan.last(), Some(&Stage::Kicks));
    }

    // Teleporting far is refused, and so are states that are no numbers.
    // They leave the player where they were, and tell them alone so.
    let far = MoveIntent { pos: at(300.0, 300.0), within_budget: false, ..report };
    let broken = MoveIntent { finite: false, ..report };
    for refused in [far, broken] {
        out.clear();
        assert_eq!(player_state(r.players[1].motion, refused), None);
        assert!(!r.report(1, refused, &mut out));
        assert_eq!(r.players[1].motion.pos, target);
        let kept = r.players[1].motion;
        let back = Motion { vel: Point { x: 0, y: 0 }, ..kept };
        let correction = Notice::Moved { id: b.id, motion: back };
        assert_eq!(out, vec![Outgoing { to: b.id, what: correction }]);
    }
    let left = MoveIntent { facing: -5, ..report };
    let m: Motion = player_state(r.players[1].motion, left).expect("accepted");
    assert_eq!(m.facing, -1);
}

#[test]
fn select_slot_broadcasts_held_item() {
    let mut r = Roster::new();
    let mut live = empty_world();
    let b = join(&mut r, &mut live, "bob", 1);
    let a = join(&mut r, &mut live, "alice", 2);
    let mut out = Vec::new();
    r.select_slot(0, 1, 100, 6, &mut out);
    let held = Notice::Held { id: b.id, slot: 1, item: Some(ItemId::WoodPickaxe) };
    assert_eq!(to(a.id, &out), vec![&held]);
    assert!(to(b.id, &out).is_empty());
    assert_eq!(r.players[0].hands.held_slot, 1);
    assert_eq!(r.players[0].held_item(), Some(ItemId::WoodPickaxe));
    // Slots beyond the hotbar are ignored.
    r.select_slot(0, 10, 200, 6, &mut out);
    assert_eq!(r.players[0].hands.held_slot, 1);
}

#[test]
fn select_slot_floods_coalesce_to_rate_capped_broadcasts() {
    let mut r = Roster::new();
    let mut live = empty_world();
    let b = join(&mut r, &mut live, "bob", 1);
    let a = join(&mut r, &mut live, "alice", 2);
    let mut out = Vec::new();
    for slot in [1u8, 2, 3, 4, 5, 4, 3, 2] {
        r.select_slot(0, slot, 100, 6, &mut out);
    }
    let first = Notice::Held { id: b.id, slot: 1, item: Some(ItemId::WoodPickaxe) };
    assert_eq!(to(a.id, &out), vec![&first], "only the first at once");
    assert_eq!(r.players[0].hands.held_slot, 2, "the final selection is kept");
    // The trailing selection goes out once the window elapses.
    out.clear();
    for now in 101..=106 {
        r.flush_held_item_broadcasts(now, 6, &mut out);
    }
    let last = Notice::Held { id: b.id, slot: 2, item: Some(ItemId::Other(1)) };
    assert_eq!(to(a.id, &out), vec![&last], "flushed exactly once");
}

const MANNERS: Manners = Manners { held_ticks: 6, chat_chars: CHAT_MAX_CHARS };

#[test]
fn chat_is_sanitized_and_relayed() {
    let mut r = Roster::new();
    let mut live = empty_world();
    let a = join(&mut r, &mut live, "alice", 1);
    let b = join(&mut r, &mut live, "bob", 2);
    let mut out = Vec::new();
    let text = format!("  \u{1}hi\u{7} {}", "x".repeat(300));
    assert!(r.attend(a.id, a.epoch, ClientMessage::Chat { text }, 7, MANNERS, &mut out).is_none());
    for id in [a.id, b.id] {
        match to(id, &out)[..] {
            [Notice::Chat { from, text }] => {
                assert_eq!(from, "alice");
                assert!(text.starts_with("hi x"));
                assert_eq!(text.chars().count(), CHAT_MAX_CHARS);
            }
            ref other => panic!("{other:?}"),
        }
    }
    // Whitespace-only chat is dropped, and so is that of nobody.
    out.clear();
    let blank = ClientMessage::Chat { text: "  \n ".into() };
    r.attend(a.id, a.epoch, blank, 7, MANNERS, &mut out);
    r.attend(99, a.epoch, ClientMessage::Chat { text: "hi".into() }, 7, MANNERS, &mut out);
    assert!(out.is_empty());
}

#[test]
fn ping_pong_and_time_advance() {
    let mut r = Roster::new();
    let mut live = empty_world();
    let a = join(&mut r, &mut live, "alice", 1);
    assert_eq!(r.actor(a.id, a.epoch, Intent::Ping), Some(0));
    let mut out = Vec::new();
    let ping = ClientMessage::Ping { nonce: 99 };
    assert!(r.attend(a.id, a.epoch, ping, 7, MANNERS, &mut out).is_none());
    assert_eq!(out, vec![Outgoing { to: a.id, what: Notice::Pong { nonce: 99 } }]);
    out.clear();
    let mut clock = Clock { tick: 0, time: 21_600, day: 0 };
    for _ in 0..600 {
        if tick(&mut clock, 600).contains(&Stage::TimeSync) {
            r.sync_time(clock.time, clock.day, &mut out);
        }
    }
    assert_eq!(clock.time, 21_600 + 600);
    let now = Notice::Time { time: clock.time, day: 0 };
    assert_eq!(out, vec![Outgoing { to: a.id, what: now }]);
}

#[test]
fn what_touches_the_world_is_handed_back() {
    let mut r = Roster::new();
    let mut live = empty_world();
    let a = join(&mut r, &mut live, "alice", 1);
    let b = join(&mut r, &mut live, "bob", 2);
    let mut out = Vec::new();
    let pick = ClientMessage::SelectSlot { slot: 1 };
    assert!(r.attend(a.id, a.epoch, pick, 100, MANNERS, &mut out).is_none());
    let held = Notice::Held { id: a.id, slot: 1, item: Some(ItemId::WoodPickaxe) };
    assert_eq!(to(b.id, &out), vec![&held]);
    r.players[0].open_chest = Some((3, 3));
    r.attend(a.id, a.epoch, ClientMessage::CloseChest, 101, MANNERS, &mut out);
    assert_eq!(r.players[0].open_chest, None);
    let hit = ClientMessage::HitTile { x: 3, y: 4 };
    let rest = r.attend(b.id, b.epoch, hit, 101, MANNERS, &mut out).expect("not here");
    assert_eq!(rest.player, 1);
    assert!(matches!(rest.deed, Deed::Swing { x: 3, y: 4, wall: false }));
    let stale = ClientMessage::HitTile { x: 3, y: 4 };
    assert!(r.attend(b.id, a.epoch, stale, 101, MANNERS, &mut out).is_none());
}

#[test]
fn day_wraps_and_increments() {
    let mut clock = Clock { tick: 0, time: DAY_TICKS - 1, day: 0 };
    clock.advance();
    assert_eq!(clock.time, 0);
    assert_eq!(clock.day, 1);
}

#[test]
fn change_tile_invalidates_cache_and_notifies_subscribers() {
    let mut r = Roster::new();
    let mut live = empty_world();
    let a = join(&mut r, &mut live, "alice", 1);
    // Chunk (2, 1) is received.
    let (x, y) = (160, 100);
    let before = live.chunk_frame((2, 1));
    let held = |live: &Live, c| live.cache.chunks.iter().any(|e| e.0 == c);
    assert!(held(&live, (2, 1)));
    let mut out = Vec::new();
    let stone = Tile::of(TileId::Stone);
    live.change_tile(&r, x, y, stone, 7, &mut out);
    assert_eq!(out, vec![Outgoing { to: a.id, what: Notice::Tile { x, y, tile: stone } }]);
    assert!(!held(&live, (2, 1)), "the kept chunk is dropped");
    assert!(held(&live, (2, 2)), "and no other");
    let after = live.chunk_frame((2, 1));
    assert_ne!(before, after);
    assert_eq!(after[36 * 64 + 32].id, TileId::Stone);
    // A chunk that is not received: nobody is told.
    out.clear();
    live.change_tile(&r, 0, 319, stone, 7, &mut out);
    assert!(out.is_empty());
    assert_eq!(live.world.tile(0, 319).id, TileId::Stone);
    // Outside of the world nothing happens.
    live.change_tile(&r, 400, 1, stone, 7, &mut out);
    assert!(out.is_empty());
    assert_eq!(r.subscribers((160 / 64, 100 / 64)), vec![a.id]);
    assert!(r.subscribers((0, 319 / 64)).is_empty());
    let world = World::new(320, 320);

    // A batch goes out sorted, once per cell, and only inside of the world.
    let cells = batch_cells(&world, vec![(160, 100), (0, 319), (160, 100), (400, 1), (159, 100)]);
    assert_eq!(cells, vec![(0, 319), (159, 100), (160, 100)]);
    assert_eq!(cells_for(&cells, &r.players[0].chunks), vec![(159, 100), (160, 100)]);

    // At the end of a tick each player is told of their part of it.
    live.staged = vec![(160, 100), (0, 319), (160, 100)];
    live.flush_tile_batch(&r, &mut out);
    let changes = vec![(160, 100, stone)];
    assert_eq!(out, vec![Outgoing { to: a.id, what: Notice::Tiles { changes } }]);
    assert!(live.staged.is_empty());
}

#[test]
fn chunk_hysteresis_avoids_resubscribe_thrash() {
    let mut r = Roster::new();
    let mut live = Live::new(World::new(640, 320));
    join(&mut r, &mut live, "alice", 1);
    let none = EntityStore::new();
    let mut step = |r: &mut Roster, x: u32| {
        let mut out = Vec::new();
        assert!(!r.update_player_chunks(0, &mut live, &none, (x, 100), ROOM, &mut out));
        out.iter().filter(|o| matches!(o.what, Notice::Chunk { .. })).count()
    };
    let base = r.players[0].chunks.clone();
    assert_eq!(base.len(), 15);
    // Just over the chunk border the window shifts right, and the old left
    // edge stays.
    assert_eq!(step(&mut r, 193), 3);
    let after = r.players[0].chunks.clone();
    assert!(base.iter().all(|c| after.contains(c)), "{base:?} -> {after:?}");
    // Walking back sends nothing again.
    assert_eq!(step(&mut r, 160), 0);
    // Far away the old chunks go.
    step(&mut r, 600);
    assert!(!r.players[0].chunks.contains(&(0, 0)));
    let world = World::new(640, 320);
    assert_eq!(player_chunk(&world, 193, 100), (3, 1));
    // What could not be delivered is not subscribed.
    let want = chunk_window(&world, (2, 1), CHUNK_SUB_RADIUS_X, CHUNK_SUB_RADIUS_Y);
    let missing = missing_chunks(want, &Vec::new());
    assert_eq!(subscribe(&Vec::new(), &missing, 4, want).len(), 4);
}

#[test]
fn full_outbound_queue_kicks_the_session() {
    let mut r = Roster::new();
    let mut live = empty_world();
    let slow = join(&mut r, &mut live, "slowpoke", 1);
    let other = join(&mut r, &mut live, "alice", 2);
    let mut out = Vec::new();
    r.flush_kicks(&vec![(slow.id, at(0.0, 0.0)), (77, at(0.0, 0.0))], 100, &mut out);
    assert_eq!(r.players.len(), 1);
    assert_eq!(r.players[0].id, other.id);
    assert_eq!(r.offline.len(), 1);
    assert_eq!(to(other.id, &out), vec![&Notice::Left { id: slow.id }]);
}

#[test]
fn sanitizers() {
    let chat = |s: &str| sanitize_chat(s, CHAT_MAX_CHARS);
    let name = |s: &str| sanitize_name(s, MAX_NAME_CHARS);
    assert_eq!(chat("  hi  "), Some("hi".into()));
    assert_eq!(chat("a\u{0}b\nc"), Some("abc".into()));
    assert_eq!(chat(" \u{1b} \t "), None);
    assert_eq!(chat(&"y".repeat(500)).map(|s| s.chars().count()), Some(CHAT_MAX_CHARS));
    assert_eq!(name(" moo "), Some("moo".into()));
    assert_eq!(name(""), None);
    assert_eq!(name(&"n".repeat(MAX_NAME_CHARS + 1)), None);
    assert!(name(&"n".repeat(MAX_NAME_CHARS)).is_some());
}

#[test]
fn fresh_tokens_differ() {
    let a = fresh_token(None, entropy_seed(), entropy_seed());
    let b = fresh_token(None, entropy_seed(), entropy_seed());
    assert_ne!(a, b);
    assert_ne!(a, vec![0u8; TOKEN_BYTES]);
    // The bytes come lowest first; what the system drew is taken as it is.
    let known = fresh_token(None, 0x0102, 0xff00_0000_0000_0003);
    assert_eq!(known, vec![2, 1, 0, 0, 0, 0, 0, 0, 3, 0, 0, 0, 0, 0, 0, 255]);
    assert_eq!(fresh_token(Some(vec![9; 16]), 1, 2), vec![9; 16]);
}

#[test]
fn seeds_part_their_streams() {
    let s = salted(5, 5, 5);
    assert_eq!(s.token, 5);
    assert_ne!(s.token, s.loot);
    assert_ne!(s.loot, s.spawn);
    assert_ne!(fresh_seeds(), fresh_seeds());
}

#[test]
fn dead_players_cannot_act_on_the_world() {
    let mut r = Roster::new();
    let mut live = empty_world();
    let a = join(&mut r, &mut live, "alice", 1);
    r.players[0].vitals.dead = true;
    for closed in [Intent::HitTile, Intent::PlaceTile, Intent::UseItem, Intent::DropItem] {
        assert_eq!(r.actor(a.id, a.epoch, closed), None);
    }
    for open in [Intent::Ping, Intent::Chat, Intent::Respawn, Intent::SelectSlot, Intent::MoveSlot] {
        assert_eq!(r.actor(a.id, a.epoch, open), Some(0));
    }
    // Who leaves while dead comes back alive at the respawn point.
    r.players[0].vitals.max_hp = 400;
    assert!(r.disconnect(a.id, a.epoch, at(5.0, 6.0), 100, &mut Vec::new()));
    assert_eq!(r.offline[0].hp, 200);
    assert_eq!(r.offline[0].pos, at(5.0, 6.0));
}

#[test]
fn messages_lead_to_their_rules() {
    let mut r = Roster::new();
    let mut live = empty_world();
    let a = join(&mut r, &mut live, "alice", 1);
    let b = join(&mut r, &mut live, "bob", 2);
    let hit = || ClientMessage::HitWall { x: 3, y: 4 };
    let done = r.handle_message(b.id, b.epoch, hit()).expect("acts");
    assert_eq!(done.player, 1);
    assert!(matches!(done.deed, Deed::Swing { x: 3, y: 4, wall: true }));
    // Not in another session, and not without a rule.
    assert!(r.handle_message(b.id, a.epoch, hit()).is_none());
    assert!(r.handle_message(77, b.epoch, hit()).is_none());
    assert!(r.handle_message(b.id, b.epoch, ClientMessage::Hello).is_none());
    assert!(r.handle_message(b.id, b.epoch, ClientMessage::Other).is_none());
    let split = r.handle_message(a.id, a.epoch, ClientMessage::SplitSlot { from: 1, to: 2 });
    let split = split.expect("acts").deed;
    assert!(matches!(split, Deed::Rearrange { from: 1, to: 2, op: SlotOp::SplitHalf }));
    // The dead talk and sort, but do not act.
    r.players[1].vitals.dead = true;
    assert!(r.handle_message(b.id, b.epoch, hit()).is_none());
    let say = r.handle_message(b.id, b.epoch, ClientMessage::Chat { text: "oh".into() });
    assert!(matches!(say.expect("talks").deed, Deed::Say { text } if text == "oh"));
    assert!(r.handle_message(b.id, b.epoch, ClientMessage::Respawn).is_some());
}
