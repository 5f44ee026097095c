//! Which rule answers which message of a client.

use vstd::prelude::*;

use crate::item::HOTBAR;
use crate::sim::inventory::one_opener;
use crate::sim::player::{Player, Point};
use crate::sim::roster::{held_of, said, to_all, Intent, Message, Outgoing, Roster, Said};
use crate::text::chat_text;

verus! {

/// What a client asks for.
#[derive(Debug)]
pub enum ClientMessage {
    Hello,
    Ping { nonce: u64 },
    PlayerState { pos: Point, vel: Point, facing: i8, anim: u8 },
    SelectSlot { slot: u8 },
    Chat { text: String },
    HitTile { x: u32, y: u32 },
    HitWall { x: u32, y: u32 },
    PlaceTile { x: u32, y: u32, hotbar_slot: u8 },
    PlaceWall { x: u32, y: u32, hotbar_slot: u8 },
    ToggleDoor { x: u32, y: u32 },
    MoveSlot { from: u8, to: u8 },
    SplitSlot { from: u8, to: u8 },
    DropItem { slot: u8, count: u16 },
    Craft { recipe_id: u16 },
    OpenChest { x: u32, y: u32 },
    CloseChest,
    ChestMoveSlot { chest_slot: u8, inv_slot: u8, to_chest: bool },
    UseItem { slot: u8, aim: Point },
    Respawn,
    SetBedSpawn { x: u32, y: u32 },
    /// Something that has no rule.
    Other,
}

/// How slots are rearranged.
#[derive(Debug, Clone, Copy, PartialEq, Eq, Structural)]
pub enum SlotOp {
    Move,
    SplitHalf,
}

/// What is to be done.
#[derive(Debug)]
pub enum Deed {
    Answer { nonce: u64 },
    Report { pos: Point, vel: Point, facing: i8, anim: u8 },
    Select { slot: u8 },
    Say { text: String },
    Swing { x: u32, y: u32, wall: bool },
    Place { x: u32, y: u32, hotbar_slot: u8, wall: bool },
    ToggleDoor { x: u32, y: u32 },
    Rearrange { from: u8, to: u8, op: SlotOp },
    Drop { slot: u8, count: u16 },
    Craft { recipe_id: u16 },
    OpenChest { x: u32, y: u32 },
    CloseChest,
    ChestMove { chest_slot: u8, inv_slot: u8, to_chest: bool },
    Use { slot: u8, aim: Point },
    Respawn,
    ClaimBed { x: u32, y: u32 },
}

/// A deed of the player at this index.
#[derive(Debug)]
pub struct Action {
    pub player: usize,
    pub deed: Deed,
}

/// The kind of a message.
pub open spec fn intent_of(msg: ClientMessage) -> Intent {
    match msg {
        ClientMessage::Hello => Intent::Hello,
        ClientMessage::Ping { .. } => Intent::Ping,
        ClientMessage::PlayerState { .. } => Intent::PlayerState,
        ClientMessage::SelectSlot { .. } => Intent::SelectSlot,
        ClientMessage::Chat { .. } => Intent::Chat,
        ClientMessage::HitTile { .. } => Intent::HitTile,
        ClientMessage::HitWall { .. } => Intent::HitWall,
        ClientMessage::PlaceTile { .. } => Intent::PlaceTile,
        ClientMessage::PlaceWall { .. } => Intent::PlaceWall,
        ClientMessage::ToggleDoor { .. } => Intent::ToggleDoor,
        ClientMessage::MoveSlot { .. } => Intent::MoveSlot,
        ClientMessage::SplitSlot { .. } => Intent::SplitSlot,
        ClientMessage::DropItem { .. } => Intent::DropItem,
        ClientMessage::Craft { .. } => Intent::Craft,
        ClientMessage::OpenChest { .. } => Intent::OpenChest,
        ClientMessage::CloseChest => Intent::CloseChest,
        ClientMessage::ChestMoveSlot { .. } => Intent::ChestMoveSlot,
        ClientMessage::UseItem { .. } => Intent::UseItem,
        ClientMessage::Respawn => Intent::Respawn,
        ClientMessage::SetBedSpawn { .. } => Intent::SetBedSpawn,
        ClientMessage::Other => Intent::Other,
    }
}

/// The deed that answers a message: none for a second hello, and none for what
/// has no rule.
pub open spec fn deed_of(msg: ClientMessage) -> Option<Deed> {
    match msg {
        ClientMessage::Hello => None,
        ClientMessage::Ping { nonce } => Some(Deed::Answer { nonce }),
        ClientMessage::PlayerState { pos, vel, facing, anim } => Some(
            Deed::Report { pos, vel, facing, anim },
        ),
        ClientMessage::SelectSlot { slot } => Some(Deed::Select { slot }),
        ClientMessage::Chat { text } => Some(Deed::Say { text }),
        ClientMessage::HitTile { x, y } => Some(Deed::Swing { x, y, wall: false }),
        ClientMessage::HitWall { x, y } => Some(Deed::Swing { x, y, wall: true }),
        ClientMessage::PlaceTile { x, y, hotbar_slot } => Some(
            Deed::Place { x, y, hotbar_slot, wall: false },
        ),
        ClientMessage::PlaceWall { x, y, hotbar_slot } => Some(
            Deed::Place { x, y, hotbar_slot, wall: true },
        ),
        ClientMessage::ToggleDoor { x, y } => Some(Deed::ToggleDoor { x, y }),
        ClientMessage::MoveSlot { from, to } => Some(
            Deed::Rearrange { from, to, op: SlotOp::Move },
        ),
        ClientMessage::SplitSlot { from, to } => Some(
            Deed::Rearrange { from, to, op: SlotOp::SplitHalf },
        ),
        ClientMessage::DropItem { slot, count } => Some(Deed::Drop { slot, count }),
        ClientMessage::Craft { recipe_id } => Some(Deed::Craft { recipe_id }),
        ClientMessage::OpenChest { x, y } => Some(Deed::OpenChest { x, y }),
        ClientMessage::CloseChest => Some(Deed::CloseChest),
        ClientMessage::ChestMoveSlot { chest_slot, inv_slot, to_chest } => Some(
            Deed::ChestMove { chest_slot, inv_slot, to_chest },
        ),
        ClientMessage::UseItem { slot, aim } => Some(Deed::Use { slot, aim }),
        ClientMessage::Respawn => Some(Deed::Respawn),
        ClientMessage::SetBedSpawn { x, y } => Some(Deed::ClaimBed { x, y }),
        ClientMessage::Other => None,
    }
}

impl ClientMessage {
    /// The kind of the message.
    pub fn intent(&self) -> (i: Intent)
        ensures
            i == intent_of(*self),
    {
        match self {
            ClientMessage::Hello => Intent::Hello,
            ClientMessage::Ping { .. } => Intent::Ping,
            ClientMessage::PlayerState { .. } => Intent::PlayerState,
            ClientMessage::SelectSlot { .. } => Intent::SelectSlot,
            ClientMessage::Chat { .. } => Intent::Chat,
            ClientMessage::HitTile { .. } => Intent::HitTile,
            ClientMessage::HitWall { .. } => Intent::HitWall,
            ClientMessage::PlaceTile { .. } => Intent::PlaceTile,
            ClientMessage::PlaceWall { .. } => Intent::PlaceWall,
            ClientMessage::ToggleDoor { .. } => Intent::ToggleDoor,
            ClientMessage::MoveSlot { .. } => Intent::MoveSlot,
            ClientMessage::SplitSlot { .. } => Intent::SplitSlot,
            ClientMessage::DropItem { .. } => Intent::DropItem,
            ClientMessage::Craft { .. } => Intent::Craft,
            ClientMessage::OpenChest { .. } => Intent::OpenChest,
            ClientMessage::CloseChest => Intent::CloseChest,
            ClientMessage::ChestMoveSlot { .. } => Intent::ChestMoveSlot,
            ClientMessage::UseItem { .. } => Intent::UseItem,
            ClientMessage::Respawn => Intent::Respawn,
            ClientMessage::SetBedSpawn { .. } => Intent::SetBedSpawn,
            ClientMessage::Other => Intent::Other,
        }
    }

    fn deed(self) -> (d: Option<Deed>)
        ensures
            d == deed_of(self),
    {
        match self {
            ClientMessage::Hello => None,
            ClientMessage::Ping { nonce } => Some(Deed::Answer { nonce }),
            ClientMessage::PlayerState { pos, vel, facing, anim } => Some(
                Deed::Report { pos, vel, facing, anim },
            ),
            ClientMessage::SelectSlot { slot } => Some(Deed::Select { slot }),
            ClientMessage::Chat { text } => Some(Deed::Say { text }),
            ClientMessage::HitTile { x, y } => Some(Deed::Swing { x, y, wall: false }),
            ClientMessage::HitWall { x, y } => Some(Deed::Swing { x, y, wall: true }),
            ClientMessage::PlaceTile { x, y, hotbar_slot } => Some(
                Deed::Place { x, y, hotbar_slot, wall: false },
            ),
            ClientMessage::PlaceWall { x, y, hotbar_slot } => Some(
                Deed::Place { x, y, hotbar_slot, wall: true },
            ),
            ClientMessage::ToggleDoor { x, y } => Some(Deed::ToggleDoor { x, y }),
            ClientMessage::MoveSlot { from, to } => Some(
                Deed::Rearrange { from, to, op: SlotOp::Move },
            ),
            ClientMessage::SplitSlot { from, to } => Some(
                Deed::Rearrange { from, to, op: SlotOp::SplitHalf },
            ),
            ClientMessage::DropItem { slot, count } => Some(Deed::Drop { slot, count }),
            ClientMessage::Craft { recipe_id } => Some(Deed::Craft { recipe_id }),
            ClientMessage::OpenChest { x, y } => Some(Deed::OpenChest { x, y }),
            ClientMessage::CloseChest => Some(Deed::CloseChest),
            ClientMessage::ChestMoveSlot { chest_slot, inv_slot, to_chest } => Some(
                Deed::ChestMove { chest_slot, inv_slot, to_chest },
            ),
            ClientMessage::UseItem { slot, aim } => Some(Deed::Use { slot, aim }),
            ClientMessage::Respawn => Some(Deed::Respawn),
            ClientMessage::SetBedSpawn { x, y } => Some(Deed::ClaimBed { x, y }),
            ClientMessage::Other => None,
        }
    }
}

impl Roster {
    /// What a message of the player `id` in session `epoch` leads to: nothing
    /// in a session that is not theirs, nothing that is closed to the dead
    /// while they are dead, and else the deed that answers it.
    pub fn handle_message(&self, id: u32, epoch: u64, msg: ClientMessage) -> (r: Option<Action>)
        requires
            self.wf(),
        ensures
            match r {
                Some(a) => {
                    &&& a.player < self.players.len()
                    &&& self.players@[a.player as int].id == id
                    &&& self.may_act(a.player as int, epoch, intent_of(msg))
                    &&& deed_of(msg) == Some(a.deed)
                },
                None => deed_of(msg) is None || forall|k: int|
                    0 <= k < self.players.len() && (#[trigger] self.players@[k]).id == id
                        ==> !self.may_act(k, epoch, intent_of(msg)),
            },
    {
        let intent: Intent = msg.intent();
        match self.actor(id, epoch, intent) {
            Some(player) => match msg.deed() {
                Some(deed) => Some(Action { player, deed }),
                None => None,
            },
            None => None,
        }
    }
}

/// How often and how much a player may say.
#[derive(Debug, Clone, Copy, PartialEq, Eq, Structural)]
pub struct Manners {
    /// Ticks between two announcements of a held item.
    pub held_ticks: u64,
    pub chat_chars: usize,
}

/// The deed is done by the roster alone; all others touch the world, and what
/// they come to depends on where the player stands.
pub open spec fn among_players(d: Deed) -> bool {
    d is Answer || d is Select || d is Say || d is CloseChest
}

/// What a deed among players comes to.
pub open spec fn done_among(
    before: Roster,
    after: Roster,
    k: int,
    d: Deed,
    tick: u64,
    manners: Manners,
    told: Seq<Message>,
    now: Seq<Message>,
) -> bool {
    let p = before.players@[k];
    match d {
        Deed::Answer { nonce } => {
            &&& after == before
            &&& now == told.push(Message { to: p.id, what: Said::Pong { nonce } })
        },
        Deed::Select { slot } => {
            let hands = p.hands.spec_select(slot, tick, manners.held_ticks);
            let due = slot < HOTBAR && p.hands.may_announce(tick, manners.held_ticks);
            &&& after.players@ == before.players@.update(k, (Player { hands, ..p }))
            &&& now == (if due {
                told + before.news(
                    held_of(after.players@[k]),
                    Some(p.id),
                    before.players@.len(),
                )
            } else {
                told
            })
        },
        Deed::Say { text } => {
            let line = chat_text(text@, manners.chat_chars as nat);
            &&& after == before
            &&& now == (if line.len() > 0 {
                told + to_all(before.players@, Said::Chat { from: p.name@, text: line })
            } else {
                told
            })
        },
        Deed::CloseChest => {
            &&& after.players@ == before.players@.update(k, (Player { open_chest: None, ..p }))
            &&& now == told
        },
        _ => false,
    }
}

impl Roster {
    /// Handles a message, and does what is a matter among the players: it
    /// answers pings, selects slots, relays chat and closes chests. What
    /// touches the world is handed back.
    pub fn attend(
        &mut self,
        id: u32,
        epoch: u64,
        msg: ClientMessage,
        tick: u64,
        manners: Manners,
        out: &mut Vec<Outgoing>,
    ) -> (rest: Option<Action>)
        requires
            old(self).wf(),
            one_opener(old(self).players@),
        ensures
            final(self).wf(),
            one_opener(final(self).players@),
            final(self).offline == old(self).offline,
            final(self).next_player_id == old(self).next_player_id,
            final(self).next_epoch == old(self).next_epoch,
            match deed_of(msg) {
                Some(d) if among_players(d) => {
                    &&& rest is None
                    &&& forall|k: int|
                        0 <= k < old(self).players@.len() && (#[trigger] old(self).players@[k]).id
                            == id && old(self).may_act(k, epoch, intent_of(msg)) ==> done_among(
                            *old(self),
                            *final(self),
                            k,
                            d,
                            tick,
                            manners,
                            said(old(out)@),
                            said(final(out)@),
                        )
                    &&& (forall|k: int|
                        0 <= k < old(self).players@.len() && (#[trigger] old(self).players@[k]).id
                            == id ==> !old(self).may_act(k, epoch, intent_of(msg))) ==> {
                        &&& *final(self) == *old(self)
                        &&& final(out)@ == old(out)@
                    }
                },
                _ => {
                    &&& *final(self) == *old(self)
                    &&& final(out)@ == old(out)@
                    &&& match rest {
                        Some(a) => {
                            &&& a.player < old(self).players.len()
                            &&& old(self).players@[a.player as int].id == id
                            &&& old(self).may_act(a.player as int, epoch, intent_of(msg))
                            &&& deed_of(msg) == Some(a.deed)
                        },
                        None => deed_of(msg) is None || forall|k: int|
                            0 <= k < old(self).players.len() && (#[trigger] old(
                                self,
                            ).players@[k]).id == id ==> !old(self).may_act(
                                k,
                                epoch,
                                intent_of(msg),
                            ),
                    }
                },
            },
    {
        let ghost players = self.players@;
        let a: Action = match self.handle_message(id, epoch, msg) {
            Some(a) => a,
            None => {
                return None;
            },
        };
        let k: usize = a.player;
        proof {
            assert forall|i: int|
                0 <= i < players.len() && (#[trigger] players[i]).id == id implies i == k by {
                if i < k {
                    assert(players[i].id != players[k as int].id);
                } else if k < i {
                    assert(players[k as int].id != players[i].id);
                }
            }
        }
        match a.deed {
            Deed::Answer { nonce } => {
                self.answer(k, nonce, out);
                None
            },
            Deed::Select { slot } => {
                self.select_slot(k, slot, tick, manners.held_ticks, out);
                None
            },
            Deed::Say { text } => {
                let heard = self.chat(k, text.as_str(), manners.chat_chars, out);
                None
            },
            Deed::CloseChest => {
                self.release_chest(k);
                None
            },
            other => Some(Action { player: k, deed: other }),
        }
    }
}

/// The dead cannot act on the world: whatever they ask for, it comes to an
/// answer, a word, a selection, sorting their things, or their return.
pub proof fn law_the_dead_do_not_act(r: Roster, k: int, epoch: u64, msg: ClientMessage)
    requires
        0 <= k < r.players@.len(),
        r.players@[k].vitals.dead,
        r.may_act(k, epoch, intent_of(msg)),
    ensures
        deed_of(msg) matches Some(d) && (d is Answer || d is Say || d is Select || d is Rearrange
            || d is Respawn),
{
}

/// Each message leads to what it asks for, with what it says: at its place, of
/// its slot, on tile or wall.
pub proof fn law_messages_mean_what_they_say(msg: ClientMessage)
    ensures
        match msg {
            ClientMessage::Ping { nonce } => deed_of(msg) matches Some(d) && d is Answer
                && d->nonce == nonce,
            ClientMessage::HitTile { x, y } => deed_of(msg) matches Some(
                Deed::Swing { x: a, y: b, wall },
            ) && a == x && b == y && !wall,
            ClientMessage::HitWall { x, y } => deed_of(msg) matches Some(
                Deed::Swing { x: a, y: b, wall },
            ) && a == x && b == y && wall,
            ClientMessage::PlaceTile { x, y, hotbar_slot } => deed_of(msg) matches Some(
                Deed::Place { x: a, y: b, hotbar_slot: s, wall },
            ) && a == x && b == y && s == hotbar_slot && !wall,
            ClientMessage::PlaceWall { x, y, hotbar_slot } => deed_of(msg) matches Some(
                Deed::Place { x: a, y: b, hotbar_slot: s, wall },
            ) && a == x && b == y && s == hotbar_slot && wall,
            ClientMessage::ToggleDoor { x, y } => deed_of(msg) matches Some(
                Deed::ToggleDoor { x: a, y: b },
            ) && a == x && b == y,
            ClientMessage::MoveSlot { from, to } => deed_of(msg) matches Some(
                Deed::Rearrange { from: a, to: b, op },
            ) && a == from && b == to && op is Move,
            ClientMessage::SplitSlot { from, to } => deed_of(msg) matches Some(
                Deed::Rearrange { from: a, to: b, op },
            ) && a == from && b == to && op is SplitHalf,
            ClientMessage::DropItem { slot, count } => deed_of(msg) matches Some(
                Deed::Drop { slot: s, count: n },
            ) && s == slot && n == count,
            ClientMessage::Craft { recipe_id } => deed_of(msg) matches Some(
                Deed::Craft { recipe_id: r },
            ) && r == recipe_id,
            ClientMessage::OpenChest { x, y } => deed_of(msg) matches Some(
                Deed::OpenChest { x: a, y: b },
            ) && a == x && b == y,
            ClientMessage::CloseChest => deed_of(msg) matches Some(d) && d is CloseChest,
            ClientMessage::ChestMoveSlot { chest_slot, inv_slot, to_chest } => deed_of(
                msg,
            ) matches Some(Deed::ChestMove { chest_slot: c, inv_slot: i, to_chest: t }) && c
                == chest_slot && i == inv_slot && t == to_chest,
            ClientMessage::UseItem { slot, aim } => deed_of(msg) matches Some(
                Deed::Use { slot: s, aim: a },
            ) && s == slot && a == aim,
            ClientMessage::Respawn => deed_of(msg) matches Some(d) && d is Respawn,
            ClientMessage::SetBedSpawn { x, y } => deed_of(msg) matches Some(
                Deed::ClaimBed { x: a, y: b },
            ) && a == x && b == y,
            ClientMessage::SelectSlot { slot } => deed_of(msg) matches Some(
                Deed::Select { slot: s },
            ) && s == slot,
            ClientMessage::Chat { text } => deed_of(msg) matches Some(Deed::Say { text: t }) && t
                == text,
            ClientMessage::PlayerState { pos, vel, facing, anim } => deed_of(msg) matches Some(
                Deed::Report { pos: p, vel: v, facing: f, anim: a },
            ) && p == pos && v == vel && f == facing && a == anim,
            ClientMessage::Hello | ClientMessage::Other => deed_of(msg) is None,
        },
{
}

/// Of the dead these messages alone are heard: pings, talk, the wish to
/// return, the choice of a slot, and tidying up.
pub proof fn law_the_dead_are_heard(msg: ClientMessage)
    ensures
        intent_of(msg).spec_open_to_dead() <==> msg is Ping || msg is Chat || msg is Respawn
            || msg is SelectSlot || msg is MoveSlot || msg is SplitSlot,
        deed_of(msg) is Some ==> (among_players(deed_of(msg)->Some_0) <==> msg is Ping
            || msg is SelectSlot || msg is Chat || msg is CloseChest),
{
}

/// A question is answered to the one who asked; a selection is shown to the others when it may be;
/// what is said goes to everyone, unless nothing of it is left; a chest is shut. Nobody else
/// changes.
pub proof fn law_deeds_have_their_effect(
    before: Roster,
    after: Roster,
    k: int,
    d: Deed,
    tick: u64,
    manners: Manners,
    told: Seq<Message>,
    now: Seq<Message>,
    other: int,
)
    requires
        done_among(before, after, k, d, tick, manners, told, now),
        0 <= k < before.players@.len(),
        0 <= other < before.players@.len(),
    ensures
        other != k ==> after.players@[other] == before.players@[other],
        after.players@.len() == before.players@.len(),
        d matches Deed::Answer { nonce } ==> after.players@[k] == before.players@[k] && now.len()
            == told.len() + 1 && now.last() == (Message {
            to: before.players@[k].id,
            what: Said::Pong { nonce },
        }),
        d matches Deed::Select { slot } ==> {
            &&& slot < 10 ==> after.players@[k].hands.held_slot == slot
            &&& slot >= 10 ==> after.players@[k] == before.players@[k] && now == told
            &&& after.players@[k].inventory == before.players@[k].inventory
        },
        d matches Deed::Say { text } ==> {
            let line = chat_text(text@, manners.chat_chars as nat);
            &&& after.players@ == before.players@
            &&& line.len() == 0 ==> now == told
            &&& line.len() > 0 ==> now.len() == told.len() + before.players@.len()
                && now[told.len() + other].to == before.players@[other].id && now[told.len()
                + other].what == (Said::Chat { from: before.players@[k].name@, text: line })
        },
        d is CloseChest ==> after.players@[k].open_chest is None && now == told
            && after.players@[k].hands == before.players@[k].hands,
        d is Answer || d is Select || d is Say || d is CloseChest,
{
}

} // verus!
