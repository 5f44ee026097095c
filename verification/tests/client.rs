use ferraria::client::app::{
    connecting_frame, facing_after, greets, menu_joins, movement_input, next_screen, AppEvent,
    Connecting, PlayerInput, Reply, Screen,
};
use ferraria::client::chat::{text_input, Chat, ChatKeys};
use ferraria::client::crafting::{
    ingredient_line, recipe_label, station_line, station_name, CraftingUi, PanelInput,
};
use ferraria::client::dialogue::{
    curable_count, heal_button, shop_cell_rect, shop_window_rect, DialogueClicks, DialogueUi,
    NpcKind, ShopEntry, Wrap,
};
use ferraria::client::hotbar::{selection_input, Wheel};
use ferraria::client::hud::{format_clock, players_text, Hud};
use ferraria::client::interact::{crack_stage, frame, Hand, Interact, Places};
use ferraria::client::inventory::{
    carried_count, push_slot_op, quick_move, slot_at, slot_rect, slot_role, Carried, Carry,
    ChestMirror, Clicks, Destinations, InventoryUi, Mouse, SlotRole, UiAddr,
};
use ferraria::client::message::ClientMessage;
use ferraria::client::mirror::{
    nearest_in_reach, Entities, EntityState, MirrorKind, NpcInfo, Npcs, Pose, Remotes,
};
use ferraria::client::net::{ConnectError, PageUrl, WsClient, WsStatus};
use ferraria::client::render::{
    brightness, draw_cell, gait, item_color, orb_at, star_hash, tile_color, visible_span,
    wall_color, Gait,
};
use ferraria::client::session::{Effect, ServerMessage, Session};
use ferraria::client::snapshots::{Sample, Snapshots};
use ferraria::client::tooltip::{accessory_text, tooltip, AccessoryEffect, ItemFacts, SetBonus};
use ferraria::client::world_view::{WorldView, CHUNK_CELLS};
use ferraria::grid::World;
use ferraria::item::{count_item, InvSlot, ItemId, ARMOR_START, INVENTORY_SLOTS, TRASH};
use ferraria::sim::combat::{Consumable, WeaponKind};
use ferraria::sim::interact::ToolKind;
use ferraria::sim::inventory::{Recipe, Station, StationSet};
use ferraria::sim::player::{ActiveDebuff, Debuff, Point};
use ferraria::tile::{Liquid, LiquidKind, Tile, TileId, WallId};

const STILL: PlayerInput = PlayerInput { left: false, right: false, jump: false, down: false };

const QUIET: ChatKeys = ChatKeys { enter: false, escape: false, backspace: false };

fn pose(x: u32) -> Pose {
    Pose { pos: Point { x, y: 0 }, vel: Point { x: 0, y: 0 }, facing: 1, anim: 0 }
}

#[test]
fn the_socket_follows_its_code() {
    let err = |page| WsClient::connect_to_page_server(page).err();
    assert_eq!(err(PageUrl::Missing), Some(ConnectError::NoUrl));
    assert_eq!(err(PageUrl::Garbled), Some(ConnectError::BadUrl));
    assert_ne!(ConnectError::NoUrl.text(), ConnectError::BadUrl.text());
    let page = PageUrl::Url("ws://host/ws".into());
    let (mut ws, url) = WsClient::connect_to_page_server(page).expect("connects");
    assert_eq!(url, "ws://host/ws");
    assert_eq!(ws.status(), WsStatus::Connecting);
    assert_eq!(ws.send(vec![1]), None, "not open yet");
    ws.poll(1);
    assert!(ws.is_open() && !ws.is_closed());
    assert_eq!(ws.send(vec![1]), Some(vec![1]));
    assert_eq!(ws.drain(vec![Some(1), None, Some(3)]), vec![1, 3]);
    assert_eq!(ws.bad_frames, 1);
    ws.poll(-1);
    assert!(ws.is_closed());
}

#[test]
fn screens_lead_from_the_menu_into_the_game() {
    assert!(greets(WsStatus::Open, false));
    assert!(!greets(WsStatus::Open, true));
    assert!(!greets(WsStatus::Connecting, false));
    assert_eq!(menu_joins("  moo ", false, true), Some("moo".into()));
    assert_eq!(menu_joins("   ", true, true), None);
    assert_eq!(menu_joins("moo", false, false), None);

    let replies = || vec![Reply::Other, Reply::Welcome, Reply::Other];
    let c = connecting_frame(WsStatus::Open, replies(), false);
    assert!(matches!(c, Connecting::Enters { rest: 2 }));
    // What the server said counts even where it closed right after.
    let c = connecting_frame(WsStatus::Closed, vec![Reply::Reject("full".into())], false);
    assert!(matches!(c, Connecting::Fails(why) if why == "full"));
    assert!(matches!(connecting_frame(WsStatus::Closed, Vec::new(), false), Connecting::Fails(_)));
    assert!(matches!(connecting_frame(WsStatus::Open, Vec::new(), true), Connecting::Fails(_)));
    assert!(matches!(connecting_frame(WsStatus::Open, Vec::new(), false), Connecting::Waits));

    assert_eq!(next_screen(Screen::Menu, AppEvent::SocketReady), Screen::Connecting);
    assert_eq!(next_screen(Screen::Connecting, AppEvent::Welcomed), Screen::Playing);
    assert_eq!(next_screen(Screen::Menu, AppEvent::Welcomed), Screen::Menu);
    assert_eq!(next_screen(Screen::Playing, AppEvent::Lost), Screen::Disconnected);
    assert_eq!(next_screen(Screen::Disconnected, AppEvent::BackToMenu), Screen::Menu);

    let right = PlayerInput { right: true, ..STILL };
    assert_eq!(movement_input(true, right), STILL);
    assert_eq!(movement_input(false, right), right);
    assert_eq!(facing_after(-1, right), 1);
    assert_eq!(facing_after(-1, PlayerInput { left: true, ..right }), -1);
}

#[test]
fn clocks_and_counts_read_well() {
    assert_eq!(format_clock(2, 8 * 3600 + 15 * 60), "Day 3 - 8:15 AM");
    assert_eq!(format_clock(0, 0), "Day 1 - 12:00 AM");
    assert_eq!(format_clock(0, 12 * 3600), "Day 1 - 12:00 PM");
    assert_eq!(format_clock(0, 23 * 3600 + 59 * 60 + 59), "Day 1 - 11:59 PM");
    assert!(players_text(3).contains('3'));
    let mut hud = Hud::new();
    hud.refresh(2, 0, 3600);
    hud.refresh(2, 0, 3601);
    assert!(!hud.debug);
}

#[test]
fn chat_opens_sends_and_drops() {
    let mut chat = Chat::new();
    let typed: Vec<char> = " hi there".chars().collect();
    let enter = ChatKeys { enter: true, ..QUIET };
    assert_eq!(chat.handle_input(&typed, QUIET, 200), None);
    assert!(!chat.open && chat.input.is_empty(), "closed: keys are not for the chat");
    assert_eq!(chat.handle_input(&Vec::new(), enter, 200), None);
    assert!(chat.open);
    assert_eq!(chat.handle_input(&typed, QUIET, 200), None);
    assert_eq!(chat.handle_input(&Vec::new(), enter, 200), Some("hi there".into()));
    assert!(!chat.open && chat.input.is_empty());
    // A blank line sends nothing, escape drops the line.
    chat.handle_input(&Vec::new(), enter, 200);
    assert_eq!(chat.handle_input(&vec![' '], enter, 200), None);
    chat.handle_input(&Vec::new(), enter, 200);
    chat.handle_input(&typed, QUIET, 200);
    assert_eq!(chat.handle_input(&Vec::new(), ChatKeys { escape: true, ..QUIET }, 200), None);
    assert!(!chat.open && chat.input.is_empty());

    let mut line: Vec<char> = Vec::new();
    text_input(&mut line, &vec!['a', '\u{7}', 'b', 'c'], false, 2);
    assert_eq!(line, vec!['a', 'b'], "control keys are no text, and the line is full");
    text_input(&mut line, &Vec::new(), true, 2);
    assert_eq!(line, vec!['a']);
    for n in 0..200 {
        chat.push_line(format!("{n}"), n);
    }
    let newest = chat.recent()[0];
    assert_eq!(chat.lines[newest].text, "199");
    chat.push_message("bob", "hello", 300);
    assert_eq!(chat.lines.back().map(|l| l.text.as_str()), Some("bob: hello"));
}

#[test]
fn the_wheel_turns_around_the_ends() {
    let none = vec![false; 10];
    let mut slot = 0u8;
    assert!(selection_input(&mut slot, &none, Wheel::Up));
    assert_eq!(slot, 9);
    assert!(selection_input(&mut slot, &none, Wheel::Down));
    assert_eq!(slot, 0);
    assert!(!selection_input(&mut slot, &none, Wheel::Still));
    let mut keys = none.clone();
    keys[4] = true;
    assert!(selection_input(&mut slot, &keys, Wheel::Still));
    assert_eq!(slot, 4);
}

#[test]
fn snapshots_bracket_the_time() {
    let mut s = Snapshots::new(10, 'a');
    s.push(20, 'b');
    s.push(30, 'c');
    assert_eq!(s.last(), (30, 'c'));
    match s.sample(25) {
        Sample::Between(a, b) => assert_eq!((a, b), ((20, 'b'), (30, 'c'))),
        other => panic!("{other:?}"),
    }
    assert!(matches!(s.sample(40), Sample::After((30, 'c'))));
    s.reset(50, 'z');
    assert_eq!(s.last(), (50, 'z'));
}

#[test]
fn mirrors_follow_what_is_told() {
    let mut e = Entities::new();
    e.spawn(7, MirrorKind::Item { item: ItemId::Gel, count: 2 }, pose(1), 5);
    let batch = vec![EntityState { id: 7, pose: pose(2) }, EntityState { id: 8, pose: pose(9) }];
    e.update(&batch, 6);
    assert_eq!(e.map.len(), 1, "unknown ones are skipped");
    e.remove(7);
    assert!(e.map.is_empty());

    let mut r = Remotes::new();
    r.join(3, "bob".into(), Point { x: 1, y: 2 }, 0, 5);
    r.moved(3, pose(4), 6);
    r.moved(9, pose(4), 6);
    r.holds(3, Some(ItemId::Torch));
    assert_eq!(r.leave(3), Some("bob".into()));
    assert_eq!(r.leave(3), None);

    let info = |id, name: &str| NpcInfo {
        id,
        kind: NpcKind::Nurse,
        name: name.into(),
        housed: true,
        pos: Point { x: 1, y: 1 },
        astray: false,
    };
    let mut n = Npcs::new();
    n.apply_list(vec![info(1, "Ann"), info(2, "Ben")], 0, 5);
    n.apply_list(vec![info(2, "Ben")], 0, 6);
    assert_eq!(n.map.len(), 1, "those no longer listed are gone");
    assert_eq!(n.map[&2].snaps.snaps[0].0, 5, "their way is still known");
    // A second entry for the same one starts anew.
    n.apply_list(vec![info(2, "Ben"), info(2, "Bea")], 0, 7);
    assert_eq!(n.map.len(), 1);
    assert_eq!(n.map[&2].name, "Bea");
    assert_eq!(n.map[&2].snaps.snaps[0].0, 7);
    assert_eq!(nearest_in_reach(&vec![Some(5), None, Some(3)]), Some(2));
    assert_eq!(nearest_in_reach(&vec![None, None]), None);
}

fn session() -> Session {
    Session::new(WorldView::new(128, 128, (5, 5)), 1, 100, 0)
}

#[test]
fn a_session_takes_in_messages_in_order() {
    let mut s = session();
    let mut chunk = vec![Tile::of(TileId::Stone); CHUNK_CELLS];
    chunk[0] = Tile::of(TileId::Dirt);
    let h = s.listen(
        vec![
            ServerMessage::Chunk { cx: 1, cy: 0, tiles: Some(chunk) },
            ServerMessage::Chunk { cx: 0, cy: 0, tiles: None },
            ServerMessage::TileChanged { x: 64, y: 1, tile: Tile::of(TileId::Air) },
            ServerMessage::BlockCrack { x: 65, y: 1, frac: 200 },
            ServerMessage::PlayerJoined { id: 2, name: "bob".into(), pos: Point { x: 0, y: 0 }, anim: 0 },
            ServerMessage::PlayerLeft { id: 2 },
            ServerMessage::PlayerMoved { id: 1, pose: pose(3), far: true },
            ServerMessage::PlayerMoved { id: 1, pose: pose(3), far: false },
            ServerMessage::SlotChanged { idx: 4, stack: Some(InvSlot::new(ItemId::Gel, 9)) },
            ServerMessage::TimeSync { time: 7, day: 3 },
        ],
        true,
        50,
    );
    assert_eq!(h.effects[1], Effect::BadChunk);
    assert_eq!(h.effects[6], Effect::Snap(pose(3)));
    assert!(h.effects.iter().enumerate().all(|(i, e)| i == 1 || i == 6 || *e == Effect::Nothing));
    assert_eq!(h.lost.as_deref(), Some("connection to the server was lost"));
    assert_eq!(s.view.world.tile(64, 0).id, TileId::Dirt);
    assert_eq!(s.view.world.tile(64, 1).id, TileId::Air);
    assert!(s.view.chunk_loaded_at(64, 0) && !s.view.chunk_loaded_at(0, 0));
    assert_eq!(s.view.loaded_chunks(), 1);
    let lines: Vec<&str> = s.chat.lines.iter().map(|l| l.text.as_str()).collect();
    assert_eq!(lines, vec!["bob joined", "bob left"]);
    assert_eq!(s.inventory[4], Some(InvSlot::new(ItemId::Gel, 9)));
    assert_eq!((s.time, s.day), (7, 3));
    assert!(s.listen(Vec::new(), false, 51).lost.is_none());
}

const BARE: Hand = Hand {
    hammer: false,
    places: Places::Nothing,
    slot: 0,
    may_swing: true,
    may_place: true,
    left_down: false,
    right_pressed: false,
    right_down: false,
};

#[test]
fn a_frame_sends_what_hand_and_hotbar_do() {
    let mut s = session();
    s.view.world.set_tile(10, 10, Tile::of(TileId::Stone));
    let mut keys = vec![false; 10];
    keys[2] = true;
    let hand = Hand { left_down: true, ..BARE };
    let sent = s.act(&keys, Wheel::Still, Some((10, 10)), true, hand);
    assert_eq!(
        sent,
        vec![ClientMessage::SelectSlot { slot: 2 }, ClientMessage::HitTile { x: 10, y: 10 }]
    );
    // While the chat is open nothing of this happens.
    let walk = PlayerInput { left: true, ..STILL };
    let st = s.steer(&Vec::new(), ChatKeys { enter: true, ..QUIET }, 200, walk);
    assert_eq!(st.input, STILL);
    assert!(s.act(&keys, Wheel::Down, Some((10, 10)), true, hand).is_empty());
    assert_eq!(s.selected, 2);
    let st = s.steer(&vec!['y', 'o'], ChatKeys { enter: true, ..QUIET }, 200, walk);
    assert_eq!(st.said.as_deref(), Some("yo"));
    assert_eq!(st.input, walk);
}

#[test]
fn the_mouse_mines_opens_and_places() {
    let mut w = World::new(20, 20);
    w.set_tile(1, 1, Tile::of(TileId::Stone));
    w.set_tile(2, 1, Tile::of(TileId::Door));
    assert!(w.place_multitile(5, 5, TileId::Chest, 2, 2));
    let mut walled = Tile::of(TileId::Air);
    walled.wall = WallId::Stone;
    w.set_tile(3, 1, walled);

    let left = Hand { left_down: true, ..BARE };
    let hit = |x, y, h| frame(&w, Some((x, y)), true, h);
    assert_eq!(hit(1, 1, left).swing, Some(ClientMessage::HitTile { x: 1, y: 1 }));
    assert_eq!(hit(3, 1, left).swing, None);
    let hammer = Hand { hammer: true, ..left };
    assert_eq!(hit(3, 1, hammer).swing, Some(ClientMessage::HitWall { x: 3, y: 1 }));
    assert_eq!(frame(&w, Some((1, 1)), false, left).swing, None, "out of reach");
    assert_eq!(frame(&w, None, true, left).swing, None);
    assert_eq!(hit(1, 1, Hand { may_swing: false, ..left }).swing, None);

    let click = Hand { right_pressed: true, right_down: true, places: Places::Tile, ..BARE };
    assert_eq!(hit(2, 1, click).touch, Some(ClientMessage::ToggleDoor { x: 2, y: 1 }));
    assert_eq!(hit(6, 6, click).touch, Some(ClientMessage::OpenChest { x: 5, y: 5 }));
    assert_eq!(hit(6, 6, click).place, None);
    let place = ClientMessage::PlaceTile { x: 9, y: 9, hotbar_slot: 0 };
    assert_eq!(hit(9, 9, click).place, Some(place));
    let wall = Hand { places: Places::Wall, ..click };
    assert_eq!(hit(3, 1, wall).place, None);
    let place = ClientMessage::PlaceWall { x: 9, y: 9, hotbar_slot: 0 };
    assert_eq!(hit(9, 9, wall).place, Some(place));

    let mut i = Interact::new();
    i.on_block_crack(1, 1, 128, 10);
    i.on_block_crack(2, 2, 10, 50);
    i.prune(20);
    assert!(i.cracks.get((1, 1)).is_none() && i.cracks.get((2, 2)).is_some());
    i.on_tile_changed(2, 2);
    assert!(i.cracks.get((2, 2)).is_none());
    assert!(crack_stage(0) <= crack_stage(128) && crack_stage(128) <= crack_stage(255));
    assert_eq!((crack_stage(0), crack_stage(255)), (1, 3));
}

const NO_CLICK: Clicks = Clicks { left: false, right: false, shift: false, drop: false };

const NOWHERE: Destinations =
    Destinations { chest: None, hotbar: None, backpack: None, carried: None };

#[test]
fn stacks_are_carried_split_and_put_down() {
    let mut inv = vec![None; INVENTORY_SLOTS];
    inv[0] = Some(InvSlot::new(ItemId::Wood, 9));
    inv[1] = Some(InvSlot::new(ItemId::Gel, 1));
    let mut ui = InventoryUi::new();
    ui.open = true;
    let left = Clicks { left: true, ..NO_CLICK };
    let right = Clicks { right: true, ..NO_CLICK };
    let at = |i| Some(UiAddr::Inv(i));
    assert_eq!(ui.handle_clicks(&inv, None, at(0), left, NOWHERE), None);
    assert_eq!(
        ui.handle_clicks(&inv, None, at(5), left, NOWHERE),
        Some(ClientMessage::MoveSlot { from: 0, to: 5 })
    );
    assert!(ui.carried.is_none());
    // The right button takes half; put back where it was asks nothing.
    ui.handle_clicks(&inv, None, at(0), right, NOWHERE);
    assert_eq!(ui.carried, Some(Carried { from: UiAddr::Inv(0), amount: Carry::Half }));
    assert_eq!(ui.handle_clicks(&inv, None, at(0), left, NOWHERE), None);
    assert!(ui.carried.is_none());
    assert_eq!(carried_count(9, Carry::Half), 5);
    let gel = |count| Some(InvSlot { item: ItemId::Gel, count });
    assert_eq!(count_item(&vec![gel(3), None, gel(999)], ItemId::Gel), 1002);
    assert_eq!(count_item(&vec![gel(3)], ItemId::Torch), 0);
    // Beside all slots the stack is let go.
    ui.handle_clicks(&inv, None, at(0), left, NOWHERE);
    assert_eq!(ui.handle_clicks(&inv, None, None, left, NOWHERE), None);
    assert!(ui.carried.is_none());
    // The drop key drops the whole stack.
    let drop = Clicks { drop: true, ..NO_CLICK };
    assert_eq!(
        ui.handle_clicks(&inv, None, at(0), drop, NOWHERE),
        Some(ClientMessage::DropItem { slot: 0, count: 9 })
    );
    // With shift it goes where it belongs.
    let shift = Clicks { shift: true, ..left };
    let to = Destinations { backpack: Some(12), ..NOWHERE };
    assert_eq!(
        ui.handle_clicks(&inv, None, at(0), shift, to),
        Some(ClientMessage::MoveSlot { from: 0, to: 12 })
    );
    // A stack that is gone cannot be carried on.
    ui.handle_clicks(&inv, None, at(1), left, NOWHERE);
    inv[1] = None;
    ui.settle(&inv, None);
    assert!(ui.carried.is_none());

    let chest = ChestMirror::new((3, 3), vec![Some(InvSlot::new(ItemId::Torch, 2))]);
    assert_eq!(slot_at(&inv, Some(&chest), UiAddr::Chest(0)), Some(InvSlot::new(ItemId::Torch, 2)));
    assert_eq!(slot_at(&inv, None, UiAddr::Chest(0)), None);
    let whole = Carried { from: UiAddr::Chest(0), amount: Carry::All };
    assert_eq!(
        push_slot_op(whole, UiAddr::Inv(7)),
        Some(ClientMessage::ChestMoveSlot { chest_slot: 0, inv_slot: 7, to_chest: false })
    );
    assert_eq!(push_slot_op(whole, UiAddr::Chest(1)), None);
    let d = Destinations { chest: Some(4), ..NOWHERE };
    assert_eq!(
        quick_move(UiAddr::Inv(0), true, d),
        Some(ClientMessage::ChestMoveSlot { chest_slot: 4, inv_slot: 0, to_chest: true })
    );

    assert_eq!(slot_role(UiAddr::Inv(0)), SlotRole::Plain);
    assert_eq!(slot_role(UiAddr::Inv(ARMOR_START)), SlotRole::Armor);
    assert_eq!(slot_role(UiAddr::Inv(TRASH)), SlotRole::Trash);
    let r = slot_rect(UiAddr::Inv(11));
    let inside = Mouse { x_floor: r.x + 1, x_ceil: r.x + 2, y_floor: r.y + 1, y_ceil: r.y + 2 };
    assert!(r.contains(inside));
    assert!(!slot_rect(UiAddr::Inv(12)).contains(inside));
}

fn recipe(id: u16, station: Station, item: ItemId, n: u16, output: ItemId) -> Recipe {
    Recipe { id, station, inputs: vec![(item, n)], output, count: 1 }
}

#[test]
fn recipes_are_listed_and_crafted() {
    let mut inv = vec![None; INVENTORY_SLOTS];
    inv[0] = Some(InvSlot::new(ItemId::Wood, 10));
    let recipes = vec![
        recipe(1, Station::Hands, ItemId::Wood, 10, ItemId::Workbench),
        recipe(4, Station::Workbench, ItemId::Wood, 1, ItemId::Platform),
    ];
    let near = StationSet {
        workbench: false,
        furnace: false,
        anvil: false,
        infernal_forge: false,
        ritual_altar: false,
        bottle: false,
    };
    let idle = PanelInput { tab: None, wheel: Wheel::Still, row: None, flash_over: false, now: 5 };
    let mut ui = CraftingUi::new();
    let p = ui.frame(&recipes, &inv, near, PanelInput { row: Some(0), ..idle });
    assert_eq!(p.craft, Some(ClientMessage::Craft { recipe_id: 1 }));
    assert_eq!(ui.flash, Some((1, 5)));
    ui.reconcile();
    assert_eq!(ui.flash, None);
    // What the hands cannot make is not made.
    let at_bench = PanelInput { tab: Some(Some(Station::Workbench)), row: Some(0), ..idle };
    assert_eq!(ui.frame(&recipes, &inv, near, at_bench).craft, None);
    let there = StationSet { workbench: true, ..near };
    let p = ui.frame(&recipes, &inv, there, at_bench);
    assert_eq!(p.craft, Some(ClientMessage::Craft { recipe_id: 4 }));

    assert_eq!(station_line(Station::Anvil, true), station_name(Station::Anvil));
    assert!(station_line(Station::Anvil, false).ends_with(" (not nearby)"));
    assert_eq!(ingredient_line("Wood", 3, 10), "Wood 3/10");
    assert_eq!(recipe_label("Torch", 3), "Torch x3");
    assert_eq!(recipe_label("Anvil", 1), "Anvil");
}

const NO_TALK: DialogueClicks = DialogueClicks {
    button: false,
    panel: false,
    cell: None,
    spent: false,
    flash_over: false,
    now: 1,
};

#[test]
fn merchants_sell_and_nurses_heal() {
    let mut d = DialogueUi::new();
    assert!(!d.is_open());
    d.open_line(7, NpcKind::Merchant, "Mo".into(), "Hello".into());
    d.set_shop(7, vec![ShopEntry { item: ItemId::Torch, price: 50 }]);
    assert_eq!(d.npc_id(), Some(7));
    assert!(d.sell_target().is_none());
    // A click that something else took does nothing.
    let press = DialogueClicks { button: true, panel: true, ..NO_TALK };
    let spent = DialogueClicks { spent: true, ..press };
    assert!(!d.frame(spent).shop_opened);
    assert!(d.frame(press).shop_opened);
    assert!(d.sell_target().is_some());
    let deeds = d.frame(DialogueClicks { cell: Some(0), ..NO_TALK });
    assert_eq!(
        deeds.buy,
        Some(ClientMessage::BuyItem { npc_id: 7, item: ItemId::Torch, count: 1 })
    );
    d.close();
    assert!(!d.is_open());
    d.open_line(8, NpcKind::Nurse, "Nell".into(), "Hurt?".into());
    assert!(d.frame(press).heal);

    assert_eq!(heal_button(100, 100, 5, 50).label, "Heal (healthy)");
    let b = heal_button(40, 100, 250, 249);
    assert_eq!((b.label.as_str(), b.enabled), ("Heal (2s 50c)", false));
    assert!(heal_button(40, 100, 250, 250).enabled);
    let list = vec![
        ActiveDebuff { debuff: Debuff::Burning, ticks: 5 },
        ActiveDebuff { debuff: Debuff::PotionSickness, ticks: 5 },
    ];
    assert!(curable_count(&list) <= 2);
    let (a, b) = (shop_cell_rect(0), shop_cell_rect(5));
    assert_eq!((b.x - a.x, b.y - a.y), (104, 66));
    assert!(shop_window_rect(9).h > shop_window_rect(1).h);

    let mut wrap = Wrap::new();
    wrap.place("one", false);
    assert_eq!(wrap.candidate("two"), "one two");
    wrap.place("two", false);
    wrap.place("three", true);
    assert_eq!(wrap.finish(), vec!["one two".to_string(), "three".to_string()]);
}

#[test]
fn cells_are_drawn_from_back_to_front() {
    let mut w = World::new(10, 10);
    assert!(draw_cell(&w, 3, 3, false, 1).is_empty(), "open air shows the sky");
    w.set_tile(3, 3, Tile::of(TileId::Stone));
    assert!(!draw_cell(&w, 3, 3, false, 1).is_empty());
    let mut t = Tile::of(TileId::Air);
    t.liquid = Liquid::new(LiquidKind::Water, 4);
    w.set_tile(4, 3, t);
    assert!(!draw_cell(&w, 4, 3, false, 1).is_empty());
    assert_ne!(tile_color(TileId::Dirt), tile_color(TileId::Stone));
    assert_ne!(wall_color(WallId::Dirt), wall_color(WallId::Stone));
    assert_eq!(star_hash(3), star_hash(3));
    assert_ne!(star_hash(3), star_hash(4));
    assert_eq!(brightness(2, 9), brightness(2, 9));
    assert_ne!(item_color(1), item_color(2));
    let s = visible_span(-5, 40, 30);
    assert_eq!((s.first, s.last), (0, 29));
    let s = visible_span(10, 20, 30);
    assert_eq!((s.first, s.last), (9, 21));
    let day = orb_at(30_000, 20_000, 70_000);
    assert!(day.sun && day.done == 10_000 && day.whole == 50_000);
    let night = orb_at(80_000, 20_000, 70_000);
    assert!(!night.sun && night.done == 10_000);
    assert!(matches!(gait(true, true, 4), Gait::Walks { first: true }));
    assert!(matches!(gait(false, true, 4), Gait::Floats));
    assert!(matches!(gait(true, false, 4), Gait::Stands));
}

#[test]
fn tooltips_say_what_an_item_is_good_for() {
    let plain = || ItemFacts {
        name: "Stone".into(),
        weapon: None,
        tool: None,
        armor: None,
        accessory: None,
        consumable: None,
        placeable: false,
        value: 0,
    };
    assert_eq!(tooltip(&plain()), vec!["Stone"]);
    let sword = ItemFacts {
        weapon: Some((WeaponKind::Melee, 7, Some("0.33".into()))),
        value: 150,
        ..plain()
    };
    assert_eq!(tooltip(&sword), vec!["Stone", "7 damage (melee, 0.33s use)", "Value: 1s 50c"]);
    let arrow = ItemFacts { weapon: Some((WeaponKind::Arrow, 5, None)), ..plain() };
    assert_eq!(tooltip(&arrow)[1], "5 damage (arrow)");
    let pick = ItemFacts { tool: Some((ToolKind::Pick, 35, "0.25".into())), ..plain() };
    assert_eq!(tooltip(&pick)[1], "35% pick power (0.25s use)");
    let helmet = ItemFacts { armor: Some((4, Some(SetBonus::Defense(2)))), ..plain() };
    assert_eq!(tooltip(&helmet)[1..], ["4 defense", "Set bonus: +2 defense"]);
    let ember = ItemFacts { armor: Some((9, Some(SetBonus::EmberFury))), ..plain() };
    assert_eq!(tooltip(&ember)[2], "Set bonus: +10% melee damage, immune to Burning");
    let charm = ItemFacts {
        accessory: Some(AccessoryEffect::NoFallDamage),
        consumable: Some(Consumable::Heal(50)),
        placeable: true,
        ..plain()
    };
    assert_eq!(
        tooltip(&charm)[1..],
        ["Negates fall damage", "Restores 50 HP", "Can be placed"]
    );
    let crystal = ItemFacts { consumable: Some(Consumable::MaxHpUp(20)), ..plain() };
    assert_eq!(tooltip(&crystal)[1], "+20 max HP (permanent)");
    assert_eq!(accessory_text(AccessoryEffect::RunSpeed), "+25% max run speed");
}
