//! A game in progress as the client sees it: what each message of the server
//! changes.

use vstd::prelude::*;
use vstd::string::*;

use crate::client::app::{movement_input, PlayerInput};
use crate::client::chat::{line_typed, Chat, ChatKeys, ChatLine, CHAT_KEEP_LINES};
use crate::client::hotbar::{keyed, selection_input, turned, Wheel};
use crate::client::interact::{frame, place_at, swing_at, touch_at, Crack, Hand, Interact};
use crate::client::message::ClientMessage;
use crate::client::mirror::{
    reported, still, Entities, EntityState, MirrorKind, PlayerView, Pose, Remotes,
};
use crate::client::snapshots::pushed;
use crate::client::world_view::{chunk_applied, WorldView, CHUNK_CELLS};
use crate::grid::Grid;
use crate::item::{InvSlot, ItemId, HOTBAR, INVENTORY_SLOTS};
use crate::sim::player::Point;
use crate::sim::world_tick::with_cell;
use crate::tile::Tile;

verus! {

/// What the server says.
#[derive(Debug)]
pub enum ServerMessage {
    /// A chunk; no tiles where it could not be read.
    Chunk { cx: u32, cy: u32, tiles: Option<Vec<Tile>> },
    TileChanged { x: u32, y: u32, tile: Tile },
    TilesChanged(Vec<(u32, u32, Tile)>),
    BlockCrack { x: u32, y: u32, frac: u8 },
    InventorySync(Vec<Option<InvSlot>>),
    SlotChanged { idx: u8, stack: Option<InvSlot> },
    ItemDropSpawn { id: u32, item: ItemId, count: u16, pose: Pose },
    EntitySpawn { id: u32, kind: u8, pose: Pose },
    EntityUpdate(Vec<EntityState>),
    EntityDespawn { id: u32 },
    ItemPickedUp { id: u32 },
    PlayerJoined { id: u32, name: String, pos: Point, anim: u8 },
    PlayerLeft { id: u32 },
    /// A position; `far` where it is the player's own and far from where the
    /// client has them.
    PlayerMoved { id: u32, pose: Pose, far: bool },
    PlayerHeldItem { id: u32, item: Option<ItemId> },
    Chat { from: String, text: String },
    Toast(String),
    TimeSync { time: u32, day: u32 },
    Other,
}

/// What is left to do after a message.
#[derive(Debug, Clone, Copy, PartialEq, Eq, Structural)]
pub enum Effect {
    Nothing,
    /// A chunk could not be read.
    BadChunk,
    /// The own player is put here, and the view with them.
    Snap(Pose),
}

/// The client's state of a game.
pub struct Session {
    pub view: WorldView,
    pub own_id: u32,
    pub remotes: Remotes,
    pub entities: Entities,
    /// Time of day in ticks, and the day.
    pub time: u32,
    pub day: u32,
    pub chat: Chat,
    pub inventory: Vec<Option<InvSlot>>,
    pub selected: u8,
    pub interact: Interact,
}

/// A session as it is seen.
#[verifier::ext_equal]
pub struct SessionView {
    pub grid: Grid,
    pub loaded: Seq<(u32, u32)>,
    pub remotes: Map<u32, PlayerView>,
    pub entities: Map<u32, (MirrorKind, Seq<(u64, Pose)>)>,
    pub time: u32,
    pub day: u32,
    pub chat: Seq<(Seq<char>, u64)>,
    pub inventory: Seq<Option<InvSlot>>,
    pub cracks: Map<(u32, u32), Crack>,
}

/// The lines of a chat as they are seen.
pub open spec fn chat_view(lines: Seq<ChatLine>) -> Seq<(Seq<char>, u64)> {
    Seq::new(lines.len(), |i: int| (lines[i].text@, lines[i].at))
}

/// One more line; the oldest goes when there are too many.
pub open spec fn said(chat: Seq<(Seq<char>, u64)>, text: Seq<char>, at: u64) -> Seq<
    (Seq<char>, u64),
> {
    (if chat.len() >= CHAT_KEEP_LINES {
        chat.remove(0)
    } else {
        chat
    }).push((text, at))
}

/// A grid and cracks after the first `n` changes; those outside of the world
/// change no tile.
pub open spec fn changed(
    g: Grid,
    cracks: Map<(u32, u32), Crack>,
    changes: Seq<(u32, u32, Tile)>,
    n: nat,
) -> (Grid, Map<(u32, u32), Crack>)
    decreases n,
{
    if n == 0 {
        (g, cracks)
    } else {
        let (g1, c1) = changed(g, cracks, changes, (n - 1) as nat);
        let (x, y, t) = changes[n - 1];
        (
            if g1.inside(x as int, y as int) {
                g1.put(x as int, y as int, t)
            } else {
                g1
            },
            c1.remove((x, y)),
        )
    }
}

/// Slots filled up, or cut, to as many as a player has.
pub open spec fn as_inventory(slots: Seq<Option<InvSlot>>) -> Seq<Option<InvSlot>> {
    Seq::new(
        INVENTORY_SLOTS as nat,
        |i: int|
            if i < slots.len() {
                slots[i]
            } else {
                None
            },
    )
}

/// What a message changes.
pub open spec fn heard(
    v: SessionView,
    after: SessionView,
    own_id: u32,
    msg: ServerMessage,
    now: u64,
) -> bool {
    match msg {
        ServerMessage::Chunk { cx, cy, tiles } => match tiles {
            Some(ts) => {
                &&& chunk_applied(v.grid, after.grid, cx, cy, ts@)
                &&& after == (SessionView {
                    grid: after.grid,
                    loaded: with_cell(v.loaded, (cx, cy)),
                    ..v
                })
            },
            None => after == v,
        },
        ServerMessage::TileChanged { x, y, tile } => {
            let (g, c) = changed(v.grid, v.cracks, seq![(x, y, tile)], 1);
            after == (SessionView { grid: g, cracks: c, ..v })
        },
        ServerMessage::TilesChanged(changes) => {
            let (g, c) = changed(v.grid, v.cracks, changes@, changes@.len());
            after == (SessionView { grid: g, cracks: c, ..v })
        },
        ServerMessage::BlockCrack { x, y, frac } => after == (SessionView {
            cracks: v.cracks.insert((x, y), Crack { frac, at: now }),
            ..v
        }),
        ServerMessage::InventorySync(slots) => after == (SessionView {
            inventory: as_inventory(slots@),
            ..v
        }),
        ServerMessage::SlotChanged { idx, stack } => after == (SessionView {
            inventory: if idx < v.inventory.len() {
                v.inventory.update(idx as int, stack)
            } else {
                v.inventory
            },
            ..v
        }),
        ServerMessage::ItemDropSpawn { id, item, count, pose } => after == (SessionView {
            entities: v.entities.insert(
                id,
                (MirrorKind::Item { item, count }, seq![(now, pose)]),
            ),
            ..v
        }),
        ServerMessage::EntitySpawn { id, kind, pose } => after == (SessionView {
            entities: v.entities.insert(id, (MirrorKind::Other(kind), seq![(now, pose)])),
            ..v
        }),
        ServerMessage::EntityUpdate(batch) => after == (SessionView {
            entities: reported(v.entities, batch@, now, batch@.len()),
            ..v
        }),
        ServerMessage::EntityDespawn { id } => after == (SessionView {
            entities: v.entities.remove(id),
            ..v
        }),
        ServerMessage::ItemPickedUp { id } => after == (SessionView {
            entities: v.entities.remove(id),
            ..v
        }),
        ServerMessage::PlayerJoined { id, name, pos, anim } => if id == own_id {
            after == v
        } else {
            after == (SessionView {
                remotes: v.remotes.insert(
                    id,
                    PlayerView {
                        name: name@,
                        held_item: None,
                        snaps: seq![(now, still(pos, 1, anim))],
                    },
                ),
                chat: said(v.chat, name@ + " joined"@, now),
                ..v
            })
        },
        ServerMessage::PlayerLeft { id } => if v.remotes.dom().contains(id) {
            after == (SessionView {
                remotes: v.remotes.remove(id),
                chat: said(v.chat, v.remotes[id].name + " left"@, now),
                ..v
            })
        } else {
            after == v
        },
        ServerMessage::PlayerMoved { id, pose, far } => if id != own_id
            && v.remotes.dom().contains(id) {
            after == (SessionView {
                remotes: v.remotes.insert(
                    id,
                    PlayerView {
                        snaps: pushed(v.remotes[id].snaps, now, pose),
                        ..v.remotes[id]
                    },
                ),
                ..v
            })
        } else {
            after == v
        },
        ServerMessage::PlayerHeldItem { id, item } => if v.remotes.dom().contains(id) {
            after == (SessionView {
                remotes: v.remotes.insert(
                    id,
                    PlayerView { held_item: item, ..v.remotes[id] },
                ),
                ..v
            })
        } else {
            after == v
        },
        ServerMessage::Chat { from, text } => after == (SessionView {
            chat: said(v.chat, from@ + ": "@ + text@, now),
            ..v
        }),
        ServerMessage::Toast(text) => after == (SessionView {
            chat: said(v.chat, text@, now),
            ..v
        }),
        ServerMessage::TimeSync { time, day } => after == (SessionView { time, day, ..v }),
        ServerMessage::Other => after == v,
    }
}

/// The tiles of a message are tiles there can be.
pub open spec fn sane(msg: ServerMessage) -> bool {
    match msg {
        ServerMessage::Chunk { cx, cy, tiles } => {
            &&& cx < 0x400_0000
            &&& cy < 0x400_0000
            &&& match tiles {
                Some(ts) => ts@.len() == CHUNK_CELLS && forall|i: int|
                    0 <= i < ts@.len() ==> (#[trigger] ts@[i]).wf(),
                None => true,
            }
        },
        ServerMessage::TileChanged { x, y, tile } => tile.wf(),
        ServerMessage::TilesChanged(changes) => forall|i: int|
            0 <= i < changes@.len() ==> (#[trigger] changes@[i]).2.wf(),
        _ => true,
    }
}

/// What is left to do after a message.
pub open spec fn effect_of(msg: ServerMessage, own_id: u32) -> Effect {
    match msg {
        ServerMessage::Chunk { cx, cy, tiles } => if tiles is None {
            Effect::BadChunk
        } else {
            Effect::Nothing
        },
        ServerMessage::PlayerMoved { id, pose, far } => if id == own_id && far {
            Effect::Snap(pose)
        } else {
            Effect::Nothing
        },
        _ => Effect::Nothing,
    }
}

/// The views of a session before each of the messages and after the last.
pub open spec fn listened(
    trail: Seq<SessionView>,
    own_id: u32,
    msgs: Seq<ServerMessage>,
    now: u64,
) -> bool {
    &&& trail.len() == msgs.len() + 1
    &&& forall|i: int|
        0 <= i < msgs.len() ==> heard(trail[i], trail[i + 1], own_id, #[trigger] msgs[i], now)
}

/// A message, if there is one.
pub open spec fn maybe(m: Option<ClientMessage>) -> Seq<ClientMessage> {
    match m {
        Some(x) => seq![x],
        None => Seq::empty(),
    }
}

/// A newly selected slot is told.
pub open spec fn selection_sent(before: u8, after: u8) -> Seq<ClientMessage> {
    if after != before {
        seq![ClientMessage::SelectSlot { slot: after }]
    } else {
        Seq::empty()
    }
}

/// What the mouse does to the cell it is on.
pub open spec fn deeds_sent(
    g: Grid,
    aim: Option<(u32, u32)>,
    in_reach: bool,
    h: Hand,
) -> Seq<ClientMessage> {
    match aim {
        Some((x, y)) if in_reach => maybe(swing_at(g, x, y, h)) + maybe(touch_at(g, x, y, h))
            + maybe(place_at(g, x, y, h)),
        _ => Seq::empty(),
    }
}

/// What a frame's messages leave to do.
#[derive(Debug)]
pub struct Heard {
    pub effects: Vec<Effect>,
    /// Why the game is over, if it is.
    pub lost: Option<String>,
}

/// What a frame sends and how the player walks.
#[derive(Debug)]
pub struct Steering {
    pub said: Option<String>,
    pub input: PlayerInput,
}

impl Session {
    pub open spec fn wf(&self) -> bool {
        &&& self.view.wf()
        &&& self.remotes.wf()
        &&& self.entities.wf()
        &&& self.chat.wf()
        &&& self.inventory@.len() == INVENTORY_SLOTS
    }

    pub open spec fn seen(&self) -> SessionView {
        SessionView {
            grid: self.view.world@,
            loaded: self.view.loaded@,
            remotes: self.remotes.seen(),
            entities: self.entities.seen(),
            time: self.time,
            day: self.day,
            chat: chat_view(self.chat.lines@),
            inventory: self.inventory@,
            cracks: self.interact.cracks@,
        }
    }

    /// A game that just began.
    pub fn new(view: WorldView, own_id: u32, time: u32, day: u32) -> (s: Session)
        requires
            view.wf(),
        ensures
            s.wf(),
            s.view == view,
            s.own_id == own_id,
            s.time == time,
            s.day == day,
            s.selected == 0,
            s.remotes.seen() == Map::<u32, PlayerView>::empty(),
            s.entities.seen() == Map::<u32, (MirrorKind, Seq<(u64, Pose)>)>::empty(),
            s.chat.lines@.len() == 0,
            s.interact.cracks@ == Map::<(u32, u32), Crack>::empty(),
            forall|i: int| 0 <= i < INVENTORY_SLOTS ==> #[trigger] s.inventory@[i] is None,
    {
        let mut inventory: Vec<Option<InvSlot>> = Vec::new();
        while inventory.len() < INVENTORY_SLOTS
            invariant
                inventory@.len() <= INVENTORY_SLOTS,
                forall|i: int| 0 <= i < inventory@.len() ==> #[trigger] inventory@[i] is None,
            decreases INVENTORY_SLOTS - inventory.len(),
        {
            inventory.push(None);
        }
        Session {
            view,
            own_id,
            remotes: Remotes::new(),
            entities: Entities::new(),
            time,
            day,
            chat: Chat::new(),
            inventory,
            selected: 0,
            interact: Interact::new(),
        }
    }

    fn say(&mut self, text: String, now: u64)
        requires
            old(self).wf(),
        ensures
            final(self).wf(),
            final(self).own_id == old(self).own_id,
            final(self).selected == old(self).selected,
            final(self).chat.open == old(self).chat.open,
            final(self).chat.input == old(self).chat.input,
            final(self).seen() == (SessionView {
                chat: said(old(self).seen().chat, text@, now),
                ..old(self).seen()
            }),
    {
        let ghost t = text@;
        self.chat.push_line(text, now);
        assert(chat_view(self.chat.lines@) =~= said(chat_view(old(self).chat.lines@), t, now));
    }

    fn change(&mut self, x: u32, y: u32, tile: Tile)
        requires
            old(self).wf(),
            tile.wf(),
        ensures
            final(self).wf(),
            final(self).own_id == old(self).own_id,
            final(self).selected == old(self).selected,
            final(self).chat == old(self).chat,
            final(self).seen() == (SessionView {
                grid: if old(self).seen().grid.inside(x as int, y as int) {
                    old(self).seen().grid.put(x as int, y as int, tile)
                } else {
                    old(self).seen().grid
                },
                cracks: old(self).seen().cracks.remove((x, y)),
                ..old(self).seen()
            }),
    {
        self.view.apply_tile(x, y, tile);
        self.interact.on_tile_changed(x, y);
    }

    /// Takes in what the server said in a frame, in order. A closed connection
    /// ends the game, once everything said before is taken in.
    pub fn listen(&mut self, msgs: Vec<ServerMessage>, closed: bool, now: u64) -> (h: Heard)
        requires
            old(self).wf(),
            forall|i: int| 0 <= i < msgs.len() ==> sane(#[trigger] msgs@[i]),
        ensures
            final(self).wf(),
            final(self).own_id == old(self).own_id,
            final(self).selected == old(self).selected,
            final(self).chat.open == old(self).chat.open,
            final(self).chat.input == old(self).chat.input,
            exists|trail: Seq<SessionView>|
                {
                    &&& #[trigger] listened(trail, old(self).own_id, msgs@, now)
                    &&& trail[0] == old(self).seen()
                    &&& trail[msgs@.len() as int] == final(self).seen()
                },
            h.effects@ == msgs@.map_values(|m: ServerMessage| effect_of(m, old(self).own_id)),
            match h.lost {
                Some(why) => closed && why@ == "connection to the server was lost"@,
                None => !closed,
            },
    {
        let ghost all = msgs@;
        let ghost mut trail: Seq<SessionView> = seq![self.seen()];
        let mut effects: Vec<Effect> = Vec::new();
        for msg in it: msgs
            invariant
                it.seq() == all,
                self.wf(),
                self.own_id == old(self).own_id,
                self.selected == old(self).selected,
                self.chat.open == old(self).chat.open,
                self.chat.input == old(self).chat.input,
                forall|i: int| 0 <= i < all.len() ==> sane(#[trigger] all[i]),
                trail.len() == it.index() + 1,
                trail[0] == old(self).seen(),
                trail[it.index() as int] == self.seen(),
                forall|i: int|
                    0 <= i < it.index() ==> heard(
                        trail[i],
                        trail[i + 1],
                        old(self).own_id,
                        #[trigger] all[i],
                        now,
                    ),
                effects@.len() == it.index(),
                forall|i: int|
                    0 <= i < it.index() ==> #[trigger] effects@[i] == effect_of(
                        all[i],
                        old(self).own_id,
                    ),
        {
            assert(sane(all[it.index() as int]));
            let e = self.apply(msg, now);
            effects.push(e);
            proof {
                trail = trail.push(self.seen());
            }
        }
        assert(listened(trail, old(self).own_id, all, now));
        assert(effects@ =~= all.map_values(|m: ServerMessage| effect_of(m, old(self).own_id)));
        let lost: Option<String> = if closed {
            Some(String::from_str("connection to the server was lost"))
        } else {
            None
        };
        Heard { effects, lost }
    }

    /// Takes in the keys of a frame: the chat first, which keeps the player in
    /// place while it is open.
    pub fn steer(
        &mut self,
        typed: &Vec<char>,
        keys: ChatKeys,
        max: usize,
        walk: PlayerInput,
    ) -> (s: Steering)
        requires
            old(self).wf(),
        ensures
            final(self).wf(),
            final(self).seen() == old(self).seen(),
            final(self).own_id == old(self).own_id,
            final(self).selected == old(self).selected,
            final(self).chat.lines == old(self).chat.lines,
            line_typed(
                old(self).chat.open,
                old(self).chat.input@,
                final(self).chat.open,
                final(self).chat.input@,
                typed@,
                keys,
                max as nat,
                s.said,
            ),
            s.input == (if final(self).chat.open {
                PlayerInput { left: false, right: false, jump: false, down: false }
            } else {
                walk
            }),
    {
        let said = self.chat.handle_input(typed, keys, max);
        let input = movement_input(self.chat.open, walk);
        Steering { said, input }
    }

    /// What the hotbar keys and the mouse of a frame send: the slot that was
    /// selected, then a swing, a touch and a placement. Nothing while the chat
    /// is open.
    pub fn act(
        &mut self,
        keys: &Vec<bool>,
        wheel: Wheel,
        aim: Option<(u32, u32)>,
        in_reach: bool,
        hand: Hand,
    ) -> (sent: Vec<ClientMessage>)
        requires
            old(self).wf(),
            old(self).selected < HOTBAR,
            keys.len() == HOTBAR,
            aim is Some ==> old(self).seen().grid.inside(
                aim->Some_0.0 as int,
                aim->Some_0.1 as int,
            ),
        ensures
            final(self).wf(),
            final(self).seen() == old(self).seen(),
            final(self).own_id == old(self).own_id,
            final(self).chat == old(self).chat,
            final(self).selected == (if old(self).chat.open {
                old(self).selected
            } else {
                turned(keyed(old(self).selected, keys@, 10), wheel)
            }),
            final(self).selected < HOTBAR,
            sent@ == (if old(self).chat.open {
                Seq::empty()
            } else {
                selection_sent(old(self).selected, final(self).selected) + deeds_sent(
                    old(self).seen().grid,
                    aim,
                    in_reach,
                    Hand { slot: final(self).selected, ..hand },
                )
            }),
    {
        let mut sent: Vec<ClientMessage> = Vec::new();
        if self.chat.open {
            return sent;
        }
        if selection_input(&mut self.selected, keys, wheel) {
            sent.push(ClientMessage::SelectSlot { slot: self.selected });
        }
        let mut h = hand;
        h.slot = self.selected;
        let d = frame(&self.view.world, aim, in_reach, h);
        if let Some(m) = d.swing {
            sent.push(m);
        }
        if let Some(m) = d.touch {
            sent.push(m);
        }
        if let Some(m) = d.place {
            sent.push(m);
        }
        assert(sent@ =~= selection_sent(old(self).selected, self.selected) + deeds_sent(
            old(self).seen().grid,
            aim,
            in_reach,
            h,
        ));
        sent
    }

    /// Takes a message in.
    pub fn apply(&mut self, msg: ServerMessage, now: u64) -> (e: Effect)
        requires
            old(self).wf(),
            sane(msg),
        ensures
            final(self).wf(),
            final(self).own_id == old(self).own_id,
            final(self).selected == old(self).selected,
            heard(old(self).seen(), final(self).seen(), old(self).own_id, msg, now),
            final(self).chat.open == old(self).chat.open,
            final(self).chat.input == old(self).chat.input,
            e == effect_of(msg, old(self).own_id),
    {
        let ghost v = self.seen();
        match msg {
            ServerMessage::Chunk { cx, cy, tiles } => {
                match tiles {
                    Some(ts) => {
                        self.view.apply_chunk(cx, cy, &ts);
                    },
                    None => {
                        return Effect::BadChunk;
                    },
                }
            },
            ServerMessage::TileChanged { x, y, tile } => {
                self.change(x, y, tile);
                proof {
                    reveal_with_fuel(changed, 2);
                }
            },
            ServerMessage::TilesChanged(changes) => {
                let mut i: usize = 0;
                while i < changes.len()
                    invariant
                        i <= changes.len(),
                        self.wf(),
                        self.own_id == old(self).own_id,
                        self.selected == old(self).selected,
                        self.chat == old(self).chat,
                        forall|k: int| 0 <= k < changes@.len() ==> (#[trigger] changes@[k]).2.wf(),
                        self.seen() == (SessionView {
                            grid: changed(v.grid, v.cracks, changes@, i as nat).0,
                            cracks: changed(v.grid, v.cracks, changes@, i as nat).1,
                            ..v
                        }),
                    decreases changes.len() - i,
                {
                    let (x, y, tile): (u32, u32, Tile) = changes[i];
                    self.change(x, y, tile);
                    i = i + 1;
                }
            },
            ServerMessage::BlockCrack { x, y, frac } => {
                self.interact.on_block_crack(x, y, frac, now);
            },
            ServerMessage::InventorySync(slots) => {
                let mut inventory: Vec<Option<InvSlot>> = Vec::new();
                let mut i: usize = 0;
                while i < INVENTORY_SLOTS
                    invariant
                        i <= INVENTORY_SLOTS,
                        inventory@ == as_inventory(slots@).take(i as int),
                    decreases INVENTORY_SLOTS - i,
                {
                    if i < slots.len() {
                        inventory.push(slots[i]);
                    } else {
                        inventory.push(None);
                    }
                    i = i + 1;
                    assert(inventory@ =~= as_inventory(slots@).take(i as int));
                }
                self.inventory = inventory;
                assert(self.inventory@ =~= as_inventory(slots@));
            },
            ServerMessage::SlotChanged { idx, stack } => {
                if (idx as usize) < self.inventory.len() {
                    self.inventory.set(idx as usize, stack);
                }
            },
            ServerMessage::ItemDropSpawn { id, item, count, pose } => {
                self.entities.spawn(id, MirrorKind::Item { item, count }, pose, now);
            },
            ServerMessage::EntitySpawn { id, kind, pose } => {
                self.entities.spawn(id, MirrorKind::Other(kind), pose, now);
            },
            ServerMessage::EntityUpdate(batch) => {
                self.entities.update(&batch, now);
            },
            ServerMessage::EntityDespawn { id } => {
                self.entities.remove(id);
            },
            ServerMessage::ItemPickedUp { id } => {
                self.entities.remove(id);
            },
            ServerMessage::PlayerJoined { id, name, pos, anim } => {
                if id != self.own_id {
                    let mut line = String::from_str(name.as_str());
                    line.append(" joined");
                    self.say(line, now);
                    self.remotes.join(id, name, pos, anim, now);
                }
            },
            ServerMessage::PlayerLeft { id } => {
                match self.remotes.leave(id) {
                    Some(name) => {
                        let mut line = String::from_str(name.as_str());
                        line.append(" left");
                        self.say(line, now);
                    },
                    None => {
                        assert(self.remotes.seen() =~= v.remotes);
                    },
                }
            },
            ServerMessage::PlayerMoved { id, pose, far } => {
                if id == self.own_id {
                    if far {
                        return Effect::Snap(pose);
                    }
                } else {
                    self.remotes.moved(id, pose, now);
                }
            },
            ServerMessage::PlayerHeldItem { id, item } => {
                self.remotes.holds(id, item);
            },
            ServerMessage::Chat { from, text } => {
                let mut line = String::from_str(from.as_str());
                line.append(": ");
                line.append(text.as_str());
                self.say(line, now);
            },
            ServerMessage::Toast(text) => {
                self.say(text, now);
            },
            ServerMessage::TimeSync { time, day } => {
                self.time = time;
                self.day = day;
            },
            ServerMessage::Other => {},
        }
        Effect::Nothing
    }
}

/// After somebody joined and left, the same others are there as before.
pub proof fn law_leaving_undoes_joining(
    v: SessionView,
    mid: SessionView,
    after: SessionView,
    own_id: u32,
    id: u32,
    name: String,
    pos: Point,
    anim: u8,
    t1: u64,
    t2: u64,
)
    requires
        id != own_id,
        !v.remotes.dom().contains(id),
        heard(v, mid, own_id, ServerMessage::PlayerJoined { id, name, pos, anim }, t1),
        heard(mid, after, own_id, ServerMessage::PlayerLeft { id }, t2),
    ensures
        after.remotes == v.remotes,
{
    assert(after.remotes =~= v.remotes);
}

/// A change puts its tile where it says, if that is in the world, and mends the crack there; other
/// cells keep their tiles and cracks.
pub proof fn law_changes_mend_cracks(
    g: Grid,
    cracks: Map<(u32, u32), Crack>,
    x: u32,
    y: u32,
    t: Tile,
    c: (u32, u32),
)
    requires
        g.wf(),
    ensures
        ({
            let (after, left) = changed(g, cracks, seq![(x, y, t)], 1);
            &&& g.inside(x as int, y as int) ==> after.at(x as int, y as int) == t
            &&& c != (x, y) && g.inside(c.0 as int, c.1 as int) ==> after.at(
                c.0 as int,
                c.1 as int,
            ) == g.at(c.0 as int, c.1 as int)
            &&& !g.inside(x as int, y as int) ==> after == g
            &&& !left.dom().contains((x, y))
            &&& c != (x, y) ==> (left.dom().contains(c) <==> cracks.dom().contains(c))
            &&& c != (x, y) && cracks.dom().contains(c) ==> left[c] == cracks[c]
        }),
{
    broadcast use crate::grid::group_grid;

    reveal_with_fuel(changed, 2);
}

/// A sync fills all slots of the inventory, those that it leaves out with nothing.
pub proof fn law_syncs_fill_the_inventory(slots: Seq<Option<InvSlot>>, i: int)
    requires
        0 <= i < 57,
    ensures
        as_inventory(slots).len() == 57,
        i < slots.len() ==> as_inventory(slots)[i] == slots[i],
        i >= slots.len() ==> as_inventory(slots)[i] is None,
{
}

/// What is said comes last, and of thirty-two lines the first makes room.
pub proof fn law_what_is_said_comes_last(chat: Seq<(Seq<char>, u64)>, text: Seq<char>, at: u64)
    requires
        chat.len() <= 32,
    ensures
        said(chat, text, at).last() == (text, at),
        chat.len() < 32 ==> said(chat, text, at).drop_last() == chat,
        chat.len() == 32 ==> said(chat, text, at).drop_last() == chat.skip(1),
{
    assert(said(chat, text, at).drop_last() =~= (if chat.len() == 32 {
        chat.skip(1)
    } else {
        chat
    }));
}

/// Players come with their name, move, hold things and go, each told of by a message of its own,
/// and a player's own messages change none of that.
pub proof fn law_messages_keep_track_of_players(
    v: SessionView,
    after: SessionView,
    own_id: u32,
    msg: ServerMessage,
    now: u64,
    other: u32,
)
    requires
        heard(v, after, own_id, msg, now),
    ensures
        msg matches ServerMessage::PlayerJoined { id, name, pos, anim } ==> {
            &&& id == own_id ==> after == v
            &&& id != own_id ==> after.remotes.dom().contains(id) && after.remotes[id].name == name@
                && after.remotes[id].held_item is None && after.remotes[id].snaps.len() == 1
                && after.remotes[id].snaps[0].1.pos == pos && after.chat.last() == (
                name@ + " joined"@,
                now,
            )
            &&& other != id ==> (after.remotes.dom().contains(other) <==> v.remotes.dom().contains(
                other,
            ))
        },
        msg matches ServerMessage::PlayerLeft { id } ==> {
            &&& !after.remotes.dom().contains(id)
            &&& v.remotes.dom().contains(id) ==> after.chat.last() == (
                v.remotes[id].name + " left"@,
                now,
            )
            &&& !v.remotes.dom().contains(id) ==> after.chat == v.chat
            &&& other != id ==> (after.remotes.dom().contains(other) <==> v.remotes.dom().contains(
                other,
            ))
        },
        msg matches ServerMessage::PlayerMoved { id, pose, far } ==> {
            &&& after.remotes.dom() == v.remotes.dom()
            &&& id != own_id && v.remotes.dom().contains(id) ==> after.remotes[id].snaps.last() == (
                now,
                pose,
            ) && after.remotes[id].name == v.remotes[id].name && after.remotes[id].held_item
                == v.remotes[id].held_item
            &&& id == own_id ==> after == v
            &&& other != id && v.remotes.dom().contains(other) ==> after.remotes[other]
                == v.remotes[other]
        },
        msg matches ServerMessage::PlayerHeldItem { id, item } ==> {
            &&& after.remotes.dom() == v.remotes.dom()
            &&& v.remotes.dom().contains(id) ==> after.remotes[id].held_item == item
                && after.remotes[id].snaps == v.remotes[id].snaps && after.remotes[id].name
                == v.remotes[id].name
        },
{
    assert(after.remotes.dom() =~= v.remotes.dom() || msg is PlayerJoined || msg is PlayerLeft);
}

/// Things appear as what they are, stay where they were told to be, and vanish when they are
/// picked up or gone.
pub proof fn law_messages_keep_track_of_things(
    v: SessionView,
    after: SessionView,
    own_id: u32,
    msg: ServerMessage,
    now: u64,
    other: u32,
)
    requires
        heard(v, after, own_id, msg, now),
    ensures
        msg matches ServerMessage::ItemDropSpawn { id, item, count, pose } ==> {
            &&& after.entities.dom().contains(id)
            &&& after.entities[id].0 == (MirrorKind::Item { item, count })
            &&& after.entities[id].1 == seq![(now, pose)]
        },
        msg matches ServerMessage::EntitySpawn { id, kind, pose } ==> {
            &&& after.entities.dom().contains(id)
            &&& after.entities[id].0 == MirrorKind::Other(kind)
            &&& after.entities[id].1 == seq![(now, pose)]
        },
        msg matches ServerMessage::EntityDespawn { id } ==> {
            &&& !after.entities.dom().contains(id)
            &&& other != id && v.entities.dom().contains(other) ==> after.entities.dom().contains(
                other,
            ) && after.entities[other] == v.entities[other]
        },
        msg matches ServerMessage::ItemPickedUp { id } ==> {
            &&& !after.entities.dom().contains(id)
            &&& other != id && v.entities.dom().contains(other) ==> after.entities.dom().contains(
                other,
            ) && after.entities[other] == v.entities[other]
        },
        msg matches ServerMessage::SlotChanged { idx, stack } ==> {
            &&& after.inventory.len() == v.inventory.len()
            &&& idx < v.inventory.len() ==> after.inventory[idx as int] == stack
            &&& other != idx && other < v.inventory.len() ==> after.inventory[other as int]
                == v.inventory[other as int]
        },
        msg matches ServerMessage::BlockCrack { x, y, frac } ==> {
            &&& after.cracks.dom().contains((x, y))
            &&& after.cracks[(x, y)].frac == frac && after.cracks[(x, y)].at == now
            &&& after.grid == v.grid
        },
        msg matches ServerMessage::TimeSync { time, day } ==> after.time == time && after.day
            == day && after.chat == v.chat && after.grid == v.grid,
        msg matches ServerMessage::Chat { from, text } ==> after.chat.last() == (
            from@ + ": "@ + text@,
            now,
        ),
        msg matches ServerMessage::Toast(text) ==> after.chat.last() == (text@, now),
        msg is Other ==> after == v,
{
}

/// A chunk that cannot be read is reported, and a far move of the player's own is a jump; nothing
/// else needs doing.
pub proof fn law_few_messages_need_doing(msg: ServerMessage, own_id: u32)
    ensures
        effect_of(msg, own_id) is BadChunk <==> msg is Chunk && msg->Chunk_tiles is None,
        effect_of(msg, own_id) is Snap <==> msg is PlayerMoved && msg->PlayerMoved_far
            && msg->PlayerMoved_id == own_id,
        effect_of(msg, own_id) is Snap ==> effect_of(msg, own_id)->Snap_0
            == msg->PlayerMoved_pose,
{
}

/// The server hears of a newly chosen slot, and then of what was hit, worked and placed.
pub proof fn law_deeds_are_sent(
    g: Grid,
    x: u32,
    y: u32,
    h: Hand,
    before: u8,
    after: u8,
    m: ClientMessage,
)
    ensures
        before == after ==> selection_sent(before, after).len() == 0,
        before != after ==> selection_sent(before, after) == seq![
            ClientMessage::SelectSlot { slot: after },
        ],
        deeds_sent(g, None, true, h).len() == 0,
        deeds_sent(g, Some((x, y)), false, h).len() == 0,
        deeds_sent(g, Some((x, y)), true, h).contains(m) <==> swing_at(g, x, y, h) == Some(m)
            || touch_at(g, x, y, h) == Some(m) || place_at(g, x, y, h) == Some(m),
{
    let a = maybe(swing_at(g, x, y, h));
    let b = maybe(touch_at(g, x, y, h));
    let c = maybe(place_at(g, x, y, h));
    let all = deeds_sent(g, Some((x, y)), true, h);
    if swing_at(g, x, y, h) == Some(m) {
        assert(all[0] == m);
    } else if touch_at(g, x, y, h) == Some(m) {
        assert(all[a.len() as int] == m);
    } else if place_at(g, x, y, h) == Some(m) {
        assert(all[(a + b).len() as int] == m);
    }
}

} // verus!
