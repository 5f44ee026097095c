//! Joining, leaving and coming back.

use vstd::prelude::*;
use vstd::string::*;

use crate::item::{InvSlot, ItemId};
use crate::sim::entities::{Entity, EntityStore};
use crate::sim::live::Live;
use crate::sim::player::{
    ActiveDebuff, Fall, Hands, Motion, OfflinePlayer, Player, Point, Vitals,
};
use crate::sim::stream::copy_tiles;
use crate::sim::window::{
    center_chunk, law_the_window_is_received, stream, streams, wanted, Streamed,
};
use crate::stacks::copy_slots;
use crate::text::{decimal, name_text, push_decimal, sanitize_name};
use crate::tile::Tile;

verus! {

/// What a newcomer is told of the world.
#[derive(Debug, Clone, Copy, PartialEq, Eq)]
pub struct Scene {
    pub width: u32,
    pub height: u32,
    pub spawn: (u32, u32),
    pub time: u32,
    pub day: u32,
    pub flags: u32,
}

/// What is told to a player.
#[derive(Debug, PartialEq, Eq)]
pub enum Notice {
    Welcome { player_id: u32, token: u128, scene: Scene },
    Moved { id: u32, motion: Motion },
    Inventory { slots: Vec<Option<InvSlot>> },
    Time { time: u32, day: u32 },
    Joined { id: u32, name: String, pos: Point },
    Held { id: u32, slot: u8, item: Option<ItemId> },
    Health { id: u32, hp: u16, max_hp: u16 },
    Left { id: u32 },
    /// All tiles of a chunk.
    Chunk { cx: u32, cy: u32, tiles: Vec<Tile> },
    /// One changed cell.
    Tile { x: u32, y: u32, tile: Tile },
    /// The changed cells of a tick.
    Tiles { changes: Vec<(u32, u32, Tile)> },
    /// Something that comes into view.
    Spawned { id: u32, entity: Entity },
    /// The answer to a ping.
    Pong { nonce: u64 },
    /// What a slot of the own inventory holds now.
    Slot { idx: u8, stack: Option<InvSlot> },
    /// What a slot of the chest that is open holds now.
    ChestSlot { idx: u8, stack: Option<InvSlot> },
    /// What somebody says.
    Chat { from: String, text: String },
    /// A push, to the one who gets it.
    Knockback { vel: Point },
    /// What ails a player.
    Debuffs { id: u32, debuffs: Vec<ActiveDebuff> },
    Died { id: u32 },
    Respawned { id: u32, pos: Point },
}

/// A notice and its addressee.
#[derive(Debug, PartialEq, Eq)]
pub struct Outgoing {
    pub to: u32,
    pub what: Notice,
}

/// What a notice says.
pub enum Said {
    Welcome { player_id: u32, token: u128, scene: Scene },
    Moved { id: u32, motion: Motion },
    Inventory { slots: Seq<Option<InvSlot>> },
    Time { time: u32, day: u32 },
    Joined { id: u32, name: Seq<char>, pos: Point },
    Held { id: u32, slot: u8, item: Option<ItemId> },
    Health { id: u32, hp: u16, max_hp: u16 },
    Left { id: u32 },
    Chunk { cx: u32, cy: u32, tiles: Seq<Tile> },
    Tile { x: u32, y: u32, tile: Tile },
    Tiles { changes: Seq<(u32, u32, Tile)> },
    Spawned { id: u32, entity: Entity },
    Pong { nonce: u64 },
    Slot { idx: u8, stack: Option<InvSlot> },
    ChestSlot { idx: u8, stack: Option<InvSlot> },
    Chat { from: Seq<char>, text: Seq<char> },
    Knockback { vel: Point },
    Debuffs { id: u32, debuffs: Seq<ActiveDebuff> },
    Died { id: u32 },
    Respawned { id: u32, pos: Point },
}

/// What is said to whom.
pub struct Message {
    pub to: u32,
    pub what: Said,
}

impl View for Notice {
    type V = Said;

    open spec fn view(&self) -> Said {
        match *self {
            Notice::Welcome { player_id, token, scene } => Said::Welcome {
                player_id,
                token,
                scene,
            },
            Notice::Moved { id, motion } => Said::Moved { id, motion },
            Notice::Inventory { slots } => Said::Inventory { slots: slots@ },
            Notice::Time { time, day } => Said::Time { time, day },
            Notice::Joined { id, name, pos } => Said::Joined { id, name: name@, pos },
            Notice::Held { id, slot, item } => Said::Held { id, slot, item },
            Notice::Health { id, hp, max_hp } => Said::Health { id, hp, max_hp },
            Notice::Left { id } => Said::Left { id },
            Notice::Chunk { cx, cy, tiles } => Said::Chunk { cx, cy, tiles: tiles@ },
            Notice::Tile { x, y, tile } => Said::Tile { x, y, tile },
            Notice::Tiles { changes } => Said::Tiles { changes: changes@ },
            Notice::Spawned { id, entity } => Said::Spawned { id, entity },
            Notice::Pong { nonce } => Said::Pong { nonce },
            Notice::Slot { idx, stack } => Said::Slot { idx, stack },
            Notice::ChestSlot { idx, stack } => Said::ChestSlot { idx, stack },
            Notice::Chat { from, text } => Said::Chat { from: from@, text: text@ },
            Notice::Knockback { vel } => Said::Knockback { vel },
            Notice::Debuffs { id, debuffs } => Said::Debuffs { id, debuffs: debuffs@ },
            Notice::Died { id } => Said::Died { id },
            Notice::Respawned { id, pos } => Said::Respawned { id, pos },
        }
    }
}

impl Notice {
    /// The same notice once more.
    fn again(&self) -> (n: Notice)
        ensures
            n@ == self@,
    {
        match self {
            Notice::Welcome { player_id, token, scene } => Notice::Welcome {
                player_id: *player_id,
                token: *token,
                scene: *scene,
            },
            Notice::Moved { id, motion } => Notice::Moved { id: *id, motion: *motion },
            Notice::Inventory { slots } => Notice::Inventory { slots: copy_slots(slots) },
            Notice::Time { time, day } => Notice::Time { time: *time, day: *day },
            Notice::Joined { id, name, pos } => Notice::Joined {
                id: *id,
                name: name.clone(),
                pos: *pos,
            },
            Notice::Held { id, slot, item } => Notice::Held { id: *id, slot: *slot, item: *item },
            Notice::Health { id, hp, max_hp } => Notice::Health {
                id: *id,
                hp: *hp,
                max_hp: *max_hp,
            },
            Notice::Left { id } => Notice::Left { id: *id },
            Notice::Chunk { cx, cy, tiles } => Notice::Chunk {
                cx: *cx,
                cy: *cy,
                tiles: copy_tiles(tiles),
            },
            Notice::Tile { x, y, tile } => Notice::Tile { x: *x, y: *y, tile: *tile },
            Notice::Tiles { changes } => Notice::Tiles { changes: copy_changes(changes) },
            Notice::Spawned { id, entity } => Notice::Spawned { id: *id, entity: *entity },
            Notice::Pong { nonce } => Notice::Pong { nonce: *nonce },
            Notice::Slot { idx, stack } => Notice::Slot { idx: *idx, stack: *stack },
            Notice::ChestSlot { idx, stack } => Notice::ChestSlot { idx: *idx, stack: *stack },
            Notice::Chat { from, text } => Notice::Chat { from: from.clone(), text: text.clone() },
            Notice::Knockback { vel } => Notice::Knockback { vel: *vel },
            Notice::Debuffs { id, debuffs } => Notice::Debuffs {
                id: *id,
                debuffs: copy_debuffs(debuffs),
            },
            Notice::Died { id } => Notice::Died { id: *id },
            Notice::Respawned { id, pos } => Notice::Respawned { id: *id, pos: *pos },
        }
    }
}

/// A copy of afflictions.
pub(crate) fn copy_debuffs(debuffs: &Vec<ActiveDebuff>) -> (copy: Vec<ActiveDebuff>)
    ensures
        copy@ == debuffs@,
{
    let mut copy: Vec<ActiveDebuff> = Vec::new();
    let mut i: usize = 0;
    while i < debuffs.len()
        invariant
            i <= debuffs.len(),
            copy@ == debuffs@.take(i as int),
        decreases debuffs.len() - i,
    {
        copy.push(debuffs[i]);
        i = i + 1;
        assert(debuffs@.take(i as int) =~= debuffs@.take(i - 1).push(debuffs@[i - 1]));
    }
    assert(debuffs@.take(debuffs@.len() as int) =~= debuffs@);
    copy
}

/// A copy of changed cells.
fn copy_changes(changes: &Vec<(u32, u32, Tile)>) -> (copy: Vec<(u32, u32, Tile)>)
    ensures
        copy@ == changes@,
{
    let mut copy: Vec<(u32, u32, Tile)> = Vec::new();
    let mut i: usize = 0;
    while i < changes.len()
        invariant
            i <= changes.len(),
            copy@ == changes@.take(i as int),
        decreases changes.len() - i,
    {
        copy.push(changes[i]);
        i = i + 1;
        assert(changes@.take(i as int) =~= changes@.take(i - 1).push(changes@[i - 1]));
    }
    assert(changes@.take(changes@.len() as int) =~= changes@);
    copy
}

impl View for Outgoing {
    type V = Message;

    open spec fn view(&self) -> Message {
        Message { to: self.to, what: self.what@ }
    }
}

/// What the notices of `out` say, in order.
pub open spec fn said(out: Seq<Outgoing>) -> Seq<Message> {
    Seq::new(out.len(), |i: int| out[i]@)
}

/// Adds a notice.
pub(crate) fn tell(out: &mut Vec<Outgoing>, to: u32, what: Notice)
    ensures
        said(final(out)@) == said(old(out)@).push(Message { to, what: what@ }),
{
    let ghost before = out@;
    out.push(Outgoing { to, what });
    assert(said(out@) =~= said(before).push(Message { to, what: what@ }));
}

/// Why a player may not join.
#[derive(Debug, Clone, Copy, PartialEq, Eq, Structural)]
pub enum JoinError {
    InvalidName,
    Full,
    AlreadyOnline,
    NameTaken,
}

/// A granted session.
#[derive(Debug, Clone, Copy, PartialEq, Eq, Structural)]
pub struct Joined {
    pub id: u32,
    pub epoch: u64,
    /// The queue of the player did not take all of it; they are to be dropped.
    pub lagging: bool,
}

/// Limits of the server.
#[derive(Debug, Clone, Copy, PartialEq, Eq, Structural)]
pub struct Limits {
    pub max_players: usize,
    pub max_name_chars: usize,
    /// Hit points of a new player.
    pub base_hp: u16,
    pub max_breath: u16,
}

/// What a new player starts with.
pub struct Fresh {
    pub token: u128,
    pub pos: Point,
    pub inventory: Vec<Option<InvSlot>>,
}

/// Everyone the server knows.
pub struct Roster {
    pub players: Vec<Player>,
    pub offline: Vec<OfflinePlayer>,
    pub next_player_id: u32,
    pub next_epoch: u64,
}

/// How a request to join ends.
pub enum Outcome {
    Refused(JoinError),
    /// The state of the offline player at this index is taken up again.
    Reclaimed(int),
    Created,
}

/// The players who are online have `name`.
pub open spec fn online(players: Seq<Player>, name: Seq<char>) -> bool {
    exists|i: int| 0 <= i < players.len() && #[trigger] players[i].name@ == name
}

/// Nobody in `offline` before index `k` has `name`, and the one at `k` has.
pub open spec fn parked_at(offline: Seq<OfflinePlayer>, name: Seq<char>, k: int) -> bool {
    &&& 0 <= k < offline.len()
    &&& offline[k].name@ == name
}

pub open spec fn parked(offline: Seq<OfflinePlayer>, name: Seq<char>) -> bool {
    exists|k: int| #[trigger] parked_at(offline, name, k)
}

pub open spec fn distinct_ids(players: Seq<Player>) -> bool {
    forall|i: int, j: int|
        0 <= i < j < players.len() ==> (#[trigger] players[i]).id != (#[trigger] players[j]).id
}

/// What a player keeps over sessions.
pub struct Kept {
    pub id: u32,
    pub token: u128,
    pub pos: Point,
    pub held_slot: u8,
    pub inventory: Seq<Option<InvSlot>>,
    pub hp: u16,
    pub max_hp: u16,
    pub bed_spawn: Option<(u32, u32)>,
}

pub open spec fn kept_of(p: OfflinePlayer) -> Kept {
    Kept {
        id: p.id,
        token: p.token,
        pos: p.pos,
        held_slot: p.held_slot,
        inventory: p.inventory@,
        hp: p.hp,
        max_hp: p.max_hp,
        bed_spawn: p.bed_spawn,
    }
}

pub open spec fn kept_fresh(fresh: Fresh, id: u32, base_hp: u16) -> Kept {
    Kept {
        id,
        token: fresh.token,
        pos: fresh.pos,
        held_slot: 0,
        inventory: fresh.inventory@,
        hp: base_hp,
        max_hp: base_hp,
        bed_spawn: None,
    }
}

/// `p` has just joined: alive, at rest, out of chests, with full breath.
pub open spec fn entered(
    p: Player,
    name: Seq<char>,
    epoch: u64,
    kept: Kept,
    max_breath: u16,
) -> bool {
    &&& p.id == kept.id
    &&& p.name@ == name
    &&& p.token == kept.token
    &&& p.epoch == epoch
    &&& p.motion == (Motion {
        pos: kept.pos,
        vel: (Point { x: 0, y: 0 }),
        facing: 1,
        anim: 0,
        moved: false,
    })
    &&& p.hands == (Hands {
        held_slot: kept.held_slot,
        last_swing_tick: None,
        last_door_toggle_tick: None,
        last_held_broadcast_tick: None,
        held_broadcast_dirty: false,
    })
    &&& p.inventory@ == kept.inventory
    &&& p.open_chest is None
    &&& p.vitals == (Vitals {
        hp: kept.hp,
        max_hp: kept.max_hp,
        dead: false,
        respawn_ready_tick: 0,
        iframe_until: 0,
        last_damage_tick: 0,
        breath: max_breath,
    })
    &&& p.debuffs@.len() == 0
    &&& p.bed_spawn == kept.bed_spawn
    &&& p.fall == (Fall { height: 0, was_grounded: true })
    &&& p.swing is None
}

/// The notice `what` to everyone in `players`.
pub open spec fn to_all(players: Seq<Player>, what: Said) -> Seq<Message> {
    Seq::new(players.len(), |i: int| Message { to: players[i].id, what })
}

/// Who `p` is and where.
pub open spec fn joined_of(p: Player) -> Said {
    Said::Joined { id: p.id, name: p.name@, pos: p.motion.pos }
}

/// What `p` holds.
pub open spec fn held_of(p: Player) -> Said {
    Said::Held { id: p.id, slot: p.hands.held_slot, item: p.spec_held_item() }
}

/// How `p` fares.
pub open spec fn health_of(p: Player) -> Said {
    Said::Health { id: p.id, hp: p.vitals.hp, max_hp: p.vitals.max_hp }
}

/// What the newcomer `id` learns of the first `n` players.
pub open spec fn introductions(players: Seq<Player>, id: u32, n: nat) -> Seq<Message>
    decreases n,
{
    if n == 0 {
        seq![]
    } else {
        let p = players[n - 1];
        introductions(players, id, (n - 1) as nat) + seq![
            Message { to: id, what: joined_of(p) },
            Message { to: id, what: held_of(p) },
            Message { to: id, what: health_of(p) },
        ]
    }
}

/// All notices of the join of `p`, in order: the newcomer is announced to
/// everyone; then they are welcomed, placed, given their inventory, the time
/// and their health, and told of everyone.
pub open spec fn join_notices(players: Seq<Player>, p: Player, scene: Scene) -> Seq<Message> {
    to_all(players, joined_of(p)) + to_all(players, held_of(p)) + to_all(players, health_of(p))
        + seq![
        Message {
            to: p.id,
            what: Said::Welcome { player_id: p.id, token: p.token, scene },
        },
        Message { to: p.id, what: Said::Moved { id: p.id, motion: p.motion } },
        Message { to: p.id, what: Said::Inventory { slots: p.inventory@ } },
        Message { to: p.id, what: Said::Time { time: scene.time, day: scene.day } },
        Message { to: p.id, what: health_of(p) },
    ] + introductions(players, p.id, players.len())
}

/// Everyone has an own id and an own name, and both were handed out before
/// `next_id` and `next_epoch`.
pub open spec fn apart(
    players: Seq<Player>,
    offline: Seq<OfflinePlayer>,
    next_id: int,
    next_epoch: int,
) -> bool {
    &&& distinct_ids(players)
    &&& forall|i: int, j: int|
        0 <= i < j < players.len() ==> (#[trigger] players[i]).name@ != (
        #[trigger] players[j]).name@
    &&& forall|i: int, j: int|
        0 <= i < j < offline.len() ==> (#[trigger] offline[i]).name@ != (
        #[trigger] offline[j]).name@ && offline[i].id != offline[j].id
    &&& forall|i: int, j: int|
        0 <= i < players.len() && 0 <= j < offline.len() ==> (#[trigger] players[i]).name@ != (
        #[trigger] offline[j]).name@ && players[i].id != offline[j].id
    &&& forall|i: int|
        0 <= i < players.len() ==> (#[trigger] players[i]).id < next_id && players[i].epoch
            < next_epoch
    &&& forall|i: int| 0 <= i < offline.len() ==> (#[trigger] offline[i]).id < next_id
}

impl Roster {
    /// Every player has an own id and an own name; a name is either online or
    /// parked, never both; ids and sessions were all handed out before.
    pub open spec fn wf(&self) -> bool {
        apart(self.players@, self.offline@, self.next_player_id as int, self.next_epoch as int)
    }

    pub fn new() -> (r: Roster)
        ensures
            r.wf(),
            r.players@.len() == 0,
            r.offline@.len() == 0,
            r.next_player_id == 1,
            r.next_epoch == 1,
    {
        Roster { players: Vec::new(), offline: Vec::new(), next_player_id: 1, next_epoch: 1 }
    }

    /// How a request by `raw` with `token` ends.
    pub open spec fn outcome(
        &self,
        raw: Seq<char>,
        token: Option<u128>,
        limits: Limits,
        r: Outcome,
    ) -> bool {
        let name = name_text(raw);
        if !(1 <= name.len() <= limits.max_name_chars) {
            r == Outcome::Refused(JoinError::InvalidName)
        } else if self.players@.len() >= limits.max_players {
            r == Outcome::Refused(JoinError::Full)
        } else if online(self.players@, name) {
            r == Outcome::Refused(JoinError::AlreadyOnline)
        } else if parked(self.offline@, name) {
            exists|k: int|
                {
                    &&& #[trigger] parked_at(self.offline@, name, k)
                    &&& r == (if token == Some(self.offline@[k].token) {
                        Outcome::Reclaimed(k)
                    } else {
                        Outcome::Refused(JoinError::NameTaken)
                    })
                }
        } else {
            r == Outcome::Created
        }
    }

    /// The index of the player `id`.
    pub fn find(&self, id: u32) -> (i: Option<usize>)
        requires
            self.wf(),
        ensures
            match i {
                Some(k) => k < self.players.len() && self.players@[k as int].id == id,
                None => forall|k: int|
                    0 <= k < self.players.len() ==> (#[trigger] self.players@[k]).id != id,
            },
    {
        let mut i: usize = 0;
        while i < self.players.len()
            invariant
                i <= self.players.len(),
                forall|k: int| 0 <= k < i ==> (#[trigger] self.players@[k]).id != id,
            decreases self.players.len() - i,
        {
            if self.players[i].id == id {
                return Some(i);
            }
            i = i + 1;
        }
        None
    }

    fn find_online(&self, name: &String) -> (b: bool)
        ensures
            b == online(self.players@, name@),
    {
        let mut i: usize = 0;
        while i < self.players.len()
            invariant
                i <= self.players.len(),
                forall|k: int| 0 <= k < i ==> (#[trigger] self.players@[k]).name@ != name@,
            decreases self.players.len() - i,
        {
            if self.players[i].name == *name {
                assert(self.players@[i as int].name@ == name@);
                return true;
            }
            i = i + 1;
        }
        false
    }

    fn find_parked(&self, name: &String) -> (r: Option<usize>)
        ensures
            match r {
                Some(k) => parked_at(self.offline@, name@, k as int),
                None => !parked(self.offline@, name@),
            },
    {
        let mut i: usize = 0;
        while i < self.offline.len()
            invariant
                i <= self.offline.len(),
                forall|k: int| 0 <= k < i ==> (#[trigger] self.offline@[k]).name@ != name@,
            decreases self.offline.len() - i,
        {
            if self.offline[i].name == *name {
                return Some(i);
            }
            i = i + 1;
        }
        assert forall|k: int| !#[trigger] parked_at(self.offline@, name@, k) by {}
        None
    }

    /// The notice `what` to everyone but `except`, among the first `n`.
    pub open spec fn news(&self, what: Said, except: Option<u32>, n: nat) -> Seq<Message>
        decreases n,
    {
        if n == 0 {
            seq![]
        } else {
            let before = self.news(what, except, (n - 1) as nat);
            let id = self.players@[n - 1].id;
            if except == Some(id) {
                before
            } else {
                before.push(Message { to: id, what })
            }
        }
    }

    /// Tells everyone but `except`.
    pub fn broadcast(&self, what: &Notice, except: Option<u32>, out: &mut Vec<Outgoing>)
        ensures
            said(final(out)@) == said(old(out)@) + self.news(what@, except, self.players@.len()),
    {
        let mut i: usize = 0;
        assert(said(out@) =~= said(old(out)@) + self.news(what@, except, 0));
        while i < self.players.len()
            invariant
                i <= self.players.len(),
                said(out@) == said(old(out)@) + self.news(what@, except, i as nat),
            decreases self.players.len() - i,
        {
            let id: u32 = self.players[i].id;
            let skip: bool = match except {
                Some(e) => e == id,
                None => false,
            };
            if !skip {
                tell(out, id, what.again());
            }
            assert(said(out@) =~= said(old(out)@) + self.news(what@, except, (i + 1) as nat));
            i = i + 1;
        }
    }

    /// Tells everyone.
    pub fn tell_all(&self, what: &Notice, out: &mut Vec<Outgoing>)
        ensures
            said(final(out)@) == said(old(out)@) + to_all(self.players@, what@),
    {
        proof {
            self.lemma_news_all(what@, self.players@.len());
            assert(self.players@.take(self.players@.len() as int) =~= self.players@);
        }
        self.broadcast(what, None, out);
    }

    proof fn lemma_news_all(&self, what: Said, n: nat)
        requires
            n <= self.players@.len(),
        ensures
            self.news(what, None, n) == to_all(self.players@.take(n as int), what),
        decreases n,
    {
        if n > 0 {
            self.lemma_news_all(what, (n - 1) as nat);
        }
        assert(self.news(what, None, n) =~= to_all(self.players@.take(n as int), what));
    }

    /// Lets a player in: checks the name, takes up what was kept under it if
    /// the token fits, or creates a new player. They are announced, welcomed,
    /// told of everyone, and sent the chunks around `cell`, where they stand,
    /// as far as their queue has `room`.
    #[verifier::rlimit(60)]
    #[verifier::spinoff_prover]
    pub fn join(
        &mut self,
        raw: &str,
        token: Option<u128>,
        fresh: Fresh,
        limits: Limits,
        scene: Scene,
        live: &mut Live,
        entities: &EntityStore,
        cell: (u32, u32),
        room: usize,
        out: &mut Vec<Outgoing>,
    ) -> (r: Result<Joined, JoinError>)
        requires
            old(self).wf(),
            old(self).next_player_id < u32::MAX,
            old(self).next_epoch < u64::MAX,
            old(live).wf(),
            old(live).world.width > 0,
            old(live).world.height > 0,
        ensures
            final(self).wf(),
            final(live).wf(),
            *final(live) == (Live { cache: final(live).cache, ..*old(live) }),
            match r {
                Err(e) => {
                    &&& old(self).outcome(raw@, token, limits, Outcome::Refused(e))
                    &&& *final(self) == *old(self)
                    &&& *final(live) == *old(live)
                    &&& final(out)@ == old(out)@
                },
                Ok(j) => {
                    &&& j.epoch == old(self).next_epoch
                    &&& final(self).players@.last().id == j.id
                    &&& exists|way: Outcome|
                        {
                            &&& #[trigger] old(self).outcome(raw@, token, limits, way)
                            &&& let_in(*old(self), *final(self), raw@, fresh, limits, way)
                        }
                    &&& ({
                        let p = final(self).players@.last();
                        let greeting = said(old(out)@) + join_notices(
                            old(self).players@,
                            p,
                            scene,
                        );
                        &&& greeting.is_prefix_of(said(final(out)@))
                        &&& streams(
                            p.id,
                            old(live)@.grid,
                            entities.entries@,
                            seq![],
                            cell,
                            room as nat,
                            (Streamed {
                                chunks: p.chunks@,
                                lagging: j.lagging,
                                told: said(final(out)@).skip(greeting.len() as int),
                            }),
                        )
                        &&& !j.lagging ==> forall|c: (u32, u32)| #[trigger]
                            p.chunks@.contains(c) <==> wanted(
                                old(live)@.grid,
                                center_chunk(old(live)@.grid, cell),
                                c,
                            )
                    })
                },
            },
    {
        let name = match sanitize_name(raw, limits.max_name_chars) {
            Some(n) => n,
            None => {
                return Err(JoinError::InvalidName);
            },
        };
        if self.players.len() >= limits.max_players {
            return Err(JoinError::Full);
        }
        if self.find_online(&name) {
            return Err(JoinError::AlreadyOnline);
        }
        let ghost before = self.players@;
        let ghost ghost_name = name@;
        let ghost mut way = Outcome::Created;
        let kept: OfflinePlayer = match self.find_parked(&name) {
            Some(k) => {
                let fits: bool = match token {
                    Some(t) => t == self.offline[k].token,
                    None => false,
                };
                if !fits {
                    assert(parked_at(self.offline@, name@, k as int));
                    return Err(JoinError::NameTaken);
                }
                let ghost kk = k as int;
                assert(self.outcome(raw@, token, limits, Outcome::Reclaimed(kk))) by {
                    assert(parked_at(self.offline@, name@, kk));
                }
                proof {
                    way = Outcome::Reclaimed(kk);
                    lemma_unpark(
                        self.players@,
                        self.offline@,
                        self.next_player_id as int,
                        self.next_epoch as int,
                        kk,
                    );
                }
                self.offline.remove(k)
            },
            None => {
                let id: u32 = self.next_player_id;
                self.next_player_id = id + 1;
                OfflinePlayer {
                    id,
                    name,
                    token: fresh.token,
                    pos: fresh.pos,
                    held_slot: 0,
                    inventory: fresh.inventory,
                    hp: limits.base_hp,
                    max_hp: limits.base_hp,
                    bed_spawn: None,
                }
            },
        };
        let id: u32 = kept.id;
        let epoch: u64 = self.next_epoch;
        self.next_epoch = epoch + 1;
        let none: Vec<(u32, u32)> = Vec::new();
        let well: Vec<ActiveDebuff> = Vec::new();
        let mut player = Player {
            id,
            name: kept.name,
            token: kept.token,
            epoch,
            motion: Motion {
                pos: kept.pos,
                vel: Point { x: 0, y: 0 },
                facing: 1,
                anim: 0,
                moved: false,
            },
            hands: Hands {
                held_slot: kept.held_slot,
                last_swing_tick: None,
                last_door_toggle_tick: None,
                last_held_broadcast_tick: None,
                held_broadcast_dirty: false,
            },
            inventory: kept.inventory,
            open_chest: None,
            chunks: none,
            vitals: Vitals {
                hp: kept.hp,
                max_hp: kept.max_hp,
                dead: false,
                respawn_ready_tick: 0,
                iframe_until: 0,
                last_damage_tick: 0,
                breath: limits.max_breath,
            },
            debuffs: well,
            bed_spawn: kept.bed_spawn,
            fall: Fall { height: 0, was_grounded: true },
            swing: None,
        };
        self.announce(&player, scene, out);
        let ghost greeting = said(out@);
        let (chunks, lagging): (Vec<(u32, u32)>, bool) = stream(
            live,
            entities,
            &player.chunks,
            id,
            cell,
            room,
            out,
        );
        let ghost first = player;
        player.chunks = chunks;
        proof {
            assert(join_notices(before, player, scene) == join_notices(before, first, scene));
            assert(first.chunks@ =~= Seq::<(u32, u32)>::empty());
            let r = Streamed {
                chunks: player.chunks@,
                lagging,
                told: said(out@).skip(greeting.len() as int),
            };
            let g = old(live)@.grid;
            assert forall|c: (u32, u32)| !lagging implies (#[trigger] player.chunks@.contains(c)
                <==> wanted(g, center_chunk(g, cell), c)) by {
                law_the_window_is_received(
                    id,
                    g,
                    entities.entries@,
                    seq![],
                    cell,
                    room as nat,
                    r,
                    c,
                );
            }
        }
        proof {
            assert forall|i: int| 0 <= i < before.len() implies (#[trigger] before[i]).name@
                != player.name@ && before[i].id != player.id by {
                assert(!online(before, ghost_name));
            }
            assert forall|i: int| 0 <= i < self.offline@.len() implies (
            #[trigger] self.offline@[i]).name@ != player.name@ && self.offline@[i].id
                != player.id by {
                assert(!parked_at(self.offline@, ghost_name, i)
                    || self.offline@ != old(self).offline@);
            }
            lemma_enter(
                before,
                self.offline@,
                self.next_player_id as int,
                self.next_epoch as int,
                player,
            );
        }
        self.players.push(player);
        assert(self.players@.drop_last() =~= before);
        assert(old(self).outcome(raw@, token, limits, way));
        assert(let_in(*old(self), *self, raw@, fresh, limits, way));
        Ok(Joined { id, epoch, lagging })
    }
}

impl Roster {
    /// Announces the newcomer `p`, who is not among the players yet, and tells
    /// them of everything.
    fn announce(&self, p: &Player, scene: Scene, out: &mut Vec<Outgoing>)
        ensures
            said(final(out)@) == said(old(out)@) + join_notices(self.players@, *p, scene),
    {
        let ghost sent = said(out@);
        let ghost before = self.players@;
        let id: u32 = p.id;
        proof {
            self.lemma_news_all(joined_of(*p), before.len());
            self.lemma_news_all(held_of(*p), before.len());
            self.lemma_news_all(health_of(*p), before.len());
            assert(self.players@.take(before.len() as int) =~= before);
        }
        self.broadcast(&p.joined(), None, out);
        self.broadcast(&p.held(), None, out);
        self.broadcast(&p.health(), None, out);
        let ghost told = said(out@);
        tell(out, id, Notice::Welcome { player_id: id, token: p.token, scene });
        tell(out, id, Notice::Moved { id, motion: p.motion });
        tell(out, id, Notice::Inventory { slots: copy_slots(&p.inventory) });
        tell(out, id, Notice::Time { time: scene.time, day: scene.day });
        tell(out, id, p.health());
        let ghost greeted = said(out@);
        assert(greeted =~= told + seq![
            Message { to: id, what: Said::Welcome { player_id: id, token: p.token, scene } },
            Message { to: id, what: Said::Moved { id, motion: p.motion } },
            Message { to: id, what: Said::Inventory { slots: p.inventory@ } },
            Message { to: id, what: Said::Time { time: scene.time, day: scene.day } },
            Message { to: id, what: health_of(*p) },
        ]);
        let mut i: usize = 0;
        assert(said(out@) =~= greeted + introductions(before, id, 0));
        while i < self.players.len()
            invariant
                self.players@ == before,
                i <= self.players.len(),
                said(out@) == greeted + introductions(before, id, i as nat),
            decreases self.players.len() - i,
        {
            let q: &Player = &self.players[i];
            tell(out, id, q.joined());
            tell(out, id, q.held());
            tell(out, id, q.health());
            assert(said(out@) =~= greeted + introductions(before, id, (i + 1) as nat));
            i = i + 1;
        }
        assert(said(out@) =~= sent + join_notices(before, *p, scene));
    }
}

impl Player {
    fn joined(&self) -> (n: Notice)
        ensures
            n@ == joined_of(*self),
    {
        Notice::Joined { id: self.id, name: self.name.clone(), pos: self.motion.pos }
    }

    pub(crate) fn held(&self) -> (n: Notice)
        ensures
            n@ == held_of(*self),
    {
        Notice::Held { id: self.id, slot: self.hands.held_slot, item: self.held_item() }
    }

    pub(crate) fn health(&self) -> (n: Notice)
        ensures
            n@ == health_of(*self),
    {
        Notice::Health { id: self.id, hp: self.vitals.hp, max_hp: self.vitals.max_hp }
    }
}

/// Taking a parked player out keeps everyone apart.
proof fn lemma_unpark(
    players: Seq<Player>,
    offline: Seq<OfflinePlayer>,
    next_id: int,
    next_epoch: int,
    k: int,
)
    requires
        apart(players, offline, next_id, next_epoch),
        0 <= k < offline.len(),
    ensures
        apart(players, offline.remove(k), next_id, next_epoch),
        forall|i: int|
            0 <= i < offline.len() - 1 ==> (#[trigger] offline.remove(k)[i]).name@
                != offline[k].name@ && offline.remove(k)[i].id != offline[k].id,
{
    let rest = offline.remove(k);
    assert forall|i: int| 0 <= i < rest.len() implies #[trigger] rest[i] == offline[if i < k {
        i
    } else {
        i + 1
    }] by {}
}

/// Adding a player with an own name and an own id keeps everyone apart.
proof fn lemma_enter(
    players: Seq<Player>,
    offline: Seq<OfflinePlayer>,
    next_id: int,
    next_epoch: int,
    p: Player,
)
    requires
        apart(players, offline, next_id, next_epoch),
        p.id < next_id,
        p.epoch < next_epoch,
        forall|i: int|
            0 <= i < players.len() ==> (#[trigger] players[i]).name@ != p.name@ && players[i].id
                != p.id,
        forall|i: int|
            0 <= i < offline.len() ==> (#[trigger] offline[i]).name@ != p.name@ && offline[i].id
                != p.id,
    ensures
        apart(players.push(p), offline, next_id, next_epoch),
{
}

/// Hit points on return from death: half of the maximum, at least those of a
/// new player, at most the maximum.
pub open spec fn spec_respawn_hp(max_hp: u16, base_hp: u16) -> u16 {
    let half = max_hp / 2;
    let hp = if half < base_hp {
        base_hp
    } else {
        half
    };
    if hp < max_hp {
        hp
    } else {
        max_hp
    }
}

pub fn respawn_hp(max_hp: u16, base_hp: u16) -> (hp: u16)
    ensures
        hp == spec_respawn_hp(max_hp, base_hp),
{
    let half: u16 = max_hp / 2;
    let hp: u16 = if half < base_hp {
        base_hp
    } else {
        half
    };
    if hp < max_hp {
        hp
    } else {
        max_hp
    }
}

/// What is kept of `p`: a dead player is kept as returned to `respawn`.
pub open spec fn parked_as(rec: OfflinePlayer, p: Player, respawn: Point, base_hp: u16) -> bool {
    &&& rec.id == p.id
    &&& rec.name@ == p.name@
    &&& rec.token == p.token
    &&& rec.pos == (if p.vitals.dead {
        respawn
    } else {
        p.motion.pos
    })
    &&& rec.held_slot == p.hands.held_slot
    &&& rec.inventory@ == p.inventory@
    &&& rec.hp == (if p.vitals.dead {
        spec_respawn_hp(p.vitals.max_hp, base_hp)
    } else {
        p.vitals.hp
    })
    &&& rec.max_hp == p.vitals.max_hp
    &&& rec.bed_spawn == p.bed_spawn
}

/// Moving a player to the parked ones keeps everyone apart.
proof fn lemma_park(
    players: Seq<Player>,
    offline: Seq<OfflinePlayer>,
    next_id: int,
    next_epoch: int,
    i: int,
    rec: OfflinePlayer,
)
    requires
        apart(players, offline, next_id, next_epoch),
        0 <= i < players.len(),
        rec.id == players[i].id,
        rec.name@ == players[i].name@,
    ensures
        apart(players.remove(i), offline.push(rec), next_id, next_epoch),
{
    let rest = players.remove(i);
    assert forall|k: int| 0 <= k < rest.len() implies #[trigger] rest[k] == players[if k < i {
        k
    } else {
        k + 1
    }] by {}
}

/// What a command asks for, as far as it matters who may ask.
#[derive(Debug, Clone, Copy, PartialEq, Eq, Structural)]
pub enum Intent {
    Hello,
    Ping,
    PlayerState,
    SelectSlot,
    Chat,
    HitTile,
    HitWall,
    PlaceTile,
    PlaceWall,
    ToggleDoor,
    MoveSlot,
    SplitSlot,
    DropItem,
    Craft,
    OpenChest,
    CloseChest,
    ChestMoveSlot,
    UseItem,
    Respawn,
    SetBedSpawn,
    Other,
}

impl Intent {
    /// The dead may talk, sort their things and ask to return.
    pub open spec fn spec_open_to_dead(self) -> bool {
        match self {
            Intent::Ping | Intent::Chat | Intent::Respawn | Intent::SelectSlot | Intent::MoveSlot
            | Intent::SplitSlot => true,
            _ => false,
        }
    }

    pub fn open_to_dead(self) -> (b: bool)
        ensures
            b == self.spec_open_to_dead(),
    {
        match self {
            Intent::Ping | Intent::Chat | Intent::Respawn | Intent::SelectSlot | Intent::MoveSlot
            | Intent::SplitSlot => true,
            _ => false,
        }
    }
}

impl Roster {
    /// The player at index `i` may act on `intent` in session `epoch`.
    pub open spec fn may_act(&self, i: int, epoch: u64, intent: Intent) -> bool {
        &&& self.players@[i].epoch == epoch
        &&& self.players@[i].vitals.dead ==> intent.spec_open_to_dead()
    }

    /// The index of the player who may act on `intent`: a command of another
    /// session is stale, and most are closed to the dead.
    pub fn actor(&self, id: u32, epoch: u64, intent: Intent) -> (i: Option<usize>)
        requires
            self.wf(),
        ensures
            match i {
                Some(k) => {
                    &&& k < self.players.len()
                    &&& self.players@[k as int].id == id
                    &&& self.may_act(k as int, epoch, intent)
                },
                None => forall|k: int|
                    0 <= k < self.players.len() && (#[trigger] self.players@[k]).id == id
                        ==> !self.may_act(k, epoch, intent),
            },
    {
        match self.find(id) {
            None => None,
            Some(k) => {
                let p = &self.players[k];
                if p.epoch != epoch || (p.vitals.dead && !intent.open_to_dead()) {
                    assert forall|m: int|
                        0 <= m < self.players.len() && (#[trigger] self.players@[m]).id
                            == id implies !self.may_act(m, epoch, intent) by {
                        if m != k {
                            assert(self.players@[m].id != self.players@[k as int].id);
                        }
                    }
                    None
                } else {
                    Some(k)
                }
            },
        }
    }

    /// Takes the player at index `i` off and keeps what they had; tells the
    /// others.
    pub fn leave(&mut self, i: usize, respawn: Point, base_hp: u16, out: &mut Vec<Outgoing>)
        requires
            old(self).wf(),
            i < old(self).players.len(),
        ensures
            final(self).wf(),
            final(self).players@ == old(self).players@.remove(i as int),
            final(self).next_player_id == old(self).next_player_id,
            final(self).next_epoch == old(self).next_epoch,
            final(self).offline@.drop_last() == old(self).offline@,
            final(self).offline@.len() == old(self).offline@.len() + 1,
            parked_as(
                final(self).offline@.last(),
                old(self).players@[i as int],
                respawn,
                base_hp,
            ),
            said(final(out)@) == said(old(out)@) + to_all(
                old(self).players@.remove(i as int),
                Said::Left { id: old(self).players@[i as int].id },
            ),
    {
        let p = self.players.remove(i);
        let (pos, hp): (Point, u16) = if p.vitals.dead {
            (respawn, respawn_hp(p.vitals.max_hp, base_hp))
        } else {
            (p.motion.pos, p.vitals.hp)
        };
        let id: u32 = p.id;
        let rec = OfflinePlayer {
            id,
            name: p.name,
            token: p.token,
            pos,
            held_slot: p.hands.held_slot,
            inventory: p.inventory,
            hp,
            max_hp: p.vitals.max_hp,
            bed_spawn: p.bed_spawn,
        };
        proof {
            lemma_park(
                old(self).players@,
                old(self).offline@,
                self.next_player_id as int,
                self.next_epoch as int,
                i as int,
                rec,
            );
        }
        self.offline.push(rec);
        assert(self.offline@.drop_last() =~= old(self).offline@);
        proof {
            self.lemma_news_all(Said::Left { id }, self.players@.len());
            assert(self.players@.take(self.players@.len() as int) =~= self.players@);
        }
        self.broadcast(&Notice::Left { id }, None, out);
    }

    /// A session ended. A session that is not the player's current one
    /// changes nothing. Returns whether the player left.
    pub fn disconnect(
        &mut self,
        id: u32,
        epoch: u64,
        respawn: Point,
        base_hp: u16,
        out: &mut Vec<Outgoing>,
    ) -> (left: bool)
        requires
            old(self).wf(),
        ensures
            final(self).wf(),
            left == exists|i: int|
                0 <= i < old(self).players@.len() && (#[trigger] old(self).players@[i]).id == id
                    && old(self).players@[i].epoch == epoch,
            final(self).next_player_id == old(self).next_player_id,
            final(self).next_epoch == old(self).next_epoch,
            !left ==> *final(self) == *old(self) && final(out)@ == old(out)@,
            left ==> exists|i: int|
                {
                    &&& 0 <= i < old(self).players@.len()
                    &&& (#[trigger] old(self).players@[i]).id == id
                    &&& final(self).players@ == old(self).players@.remove(i)
                    &&& final(self).offline@.len() == old(self).offline@.len() + 1
                    &&& final(self).offline@.drop_last() == old(self).offline@
                    &&& parked_as(
                        final(self).offline@.last(),
                        old(self).players@[i],
                        respawn,
                        base_hp,
                    )
                    &&& said(final(out)@) == said(old(out)@) + to_all(
                        old(self).players@.remove(i),
                        Said::Left { id },
                    )
                },
    {
        match self.find(id) {
            Some(i) => {
                if self.players[i].epoch == epoch {
                    assert(self.players@[i as int].id == id);
                    self.leave(i, respawn, base_hp, out);
                    true
                } else {
                    proof {
                        assert forall|k: int|
                            0 <= k < self.players@.len() && (#[trigger] self.players@[k]).id
                                == id implies self.players@[k].epoch != epoch by {
                            if k != i {
                                assert(self.players@[k].id != self.players@[i as int].id);
                            }
                        }
                    }
                    false
                }
            },
            None => false,
        }
    }

    /// Selects a hotbar slot for the player at index `i`, and tells the
    /// others where that is due.
    pub fn select_slot(
        &mut self,
        i: usize,
        slot: u8,
        tick: u64,
        min_ticks: u64,
        out: &mut Vec<Outgoing>,
    )
        requires
            old(self).wf(),
            i < old(self).players.len(),
        ensures
            final(self).wf(),
            final(self).players@ == old(self).players@.update(
                i as int,
                (Player {
                    hands: old(self).players@[i as int].hands.spec_select(slot, tick, min_ticks),
                    ..old(self).players@[i as int]
                }),
            ),
            final(self).offline == old(self).offline,
            final(self).next_player_id == old(self).next_player_id,
            final(self).next_epoch == old(self).next_epoch,
            ({
                let p = old(self).players@[i as int];
                let due = slot < crate::item::HOTBAR && p.hands.may_announce(tick, min_ticks);
                said(final(out)@) == (if due {
                    said(old(out)@) + old(self).news(
                        held_of(final(self).players@[i as int]),
                        Some(p.id),
                        old(self).players@.len(),
                    )
                } else {
                    said(old(out)@)
                })
            }),
    {
        let ghost before = *self;
        let id: u32 = self.players[i].id;
        let (hands, due) = self.players[i].hands.select(slot, tick, min_ticks);
        self.set_hands(i, hands);
        proof {
            lemma_same_ids_news(
                before,
                *self,
                held_of(self.players@[i as int]),
                Some(id),
                before.players@.len(),
            );
        }
        if due {
            self.broadcast(&self.players[i].held(), Some(id), out);
        }
    }

    /// Replaces what the player at index `i` does with their hands.
    fn set_hands(&mut self, i: usize, hands: Hands)
        requires
            old(self).wf(),
            i < old(self).players.len(),
        ensures
            final(self).wf(),
            final(self).players@ == old(self).players@.update(
                i as int,
                (Player { hands, ..old(self).players@[i as int] }),
            ),
            final(self).offline == old(self).offline,
            final(self).next_player_id == old(self).next_player_id,
            final(self).next_epoch == old(self).next_epoch,
    {
        let ghost before = self.players@;
        self.players[i].hands = hands;
        assert(self.players@ =~= before.update(i as int, Player { hands, ..before[i as int] }));
        assert(forall|k: int|
            0 <= k < before.len() ==> (#[trigger] self.players@[k]).id == before[k].id
                && self.players@[k].name == before[k].name && self.players@[k].epoch
                == before[k].epoch);
    }

    /// The roster after the players before index `n` had their noted
    /// selections announced.
    pub open spec fn flushed_players(
        &self,
        tick: u64,
        min_ticks: u64,
    ) -> Seq<Player> {
        Seq::new(
            self.players@.len(),
            |i: int|
                Player {
                    hands: self.players@[i].hands.spec_flush(tick, min_ticks),
                    ..self.players@[i]
                },
        )
    }

    /// The announcements of all noted selections that are due, of the first
    /// `n` players.
    pub open spec fn flushed_news(&self, tick: u64, min_ticks: u64, n: nat) -> Seq<Message>
        decreases n,
    {
        if n == 0 {
            seq![]
        } else {
            let before = self.flushed_news(tick, min_ticks, (n - 1) as nat);
            let p = self.players@[n - 1];
            if p.hands.held_broadcast_dirty && p.hands.may_announce(tick, min_ticks) {
                before + self.news(held_of(p), Some(p.id), self.players@.len())
            } else {
                before
            }
        }
    }

    /// Announces all noted selections that are due.
    pub fn flush_held_item_broadcasts(
        &mut self,
        tick: u64,
        min_ticks: u64,
        out: &mut Vec<Outgoing>,
    )
        requires
            old(self).wf(),
        ensures
            final(self).wf(),
            final(self).players@ == old(self).flushed_players(tick, min_ticks),
            final(self).offline == old(self).offline,
            final(self).next_player_id == old(self).next_player_id,
            final(self).next_epoch == old(self).next_epoch,
            said(final(out)@) == said(old(out)@) + old(self).flushed_news(
                tick,
                min_ticks,
                old(self).players@.len(),
            ),
    {
        let ghost before = *self;
        let ghost sent = said(out@);
        let mut i: usize = 0;
        assert(said(out@) =~= sent + before.flushed_news(tick, min_ticks, 0));
        while i < self.players.len()
            invariant
                self.wf(),
                before == *old(self),
                sent == said(old(out)@),
                self.players@.len() == before.players@.len(),
                i <= self.players.len(),
                self.offline == before.offline,
                self.next_player_id == before.next_player_id,
                self.next_epoch == before.next_epoch,
                forall|k: int|
                    0 <= k < self.players@.len() ==> #[trigger] self.players@[k] == (if k < i {
                        before.flushed_players(tick, min_ticks)[k]
                    } else {
                        before.players@[k]
                    }),
                said(out@) == sent + before.flushed_news(tick, min_ticks, i as nat),
            decreases self.players.len() - i,
        {
            let id: u32 = self.players[i].id;
            assert(self.players@[i as int] == before.players@[i as int]);
            let (hands, due) = self.players[i].hands.flush(tick, min_ticks);
            self.set_hands(i, hands);
            proof {
                assert forall|k: int| 0 <= k < self.players@.len() implies (
                #[trigger] self.players@[k]).id == before.players@[k].id by {
                    assert(before.flushed_players(tick, min_ticks)[k].id == before.players@[k].id);
                }
                lemma_same_ids_news(
                    before,
                    *self,
                    held_of(before.players@[i as int]),
                    Some(id),
                    before.players@.len(),
                );
                assert(held_of(self.players@[i as int]) == held_of(before.players@[i as int]));
            }
            if due {
                self.broadcast(&self.players[i].held(), Some(id), out);
            }
            assert(said(out@) =~= sent + before.flushed_news(tick, min_ticks, (i + 1) as nat));
            i = i + 1;
        }
        assert(self.players@ =~= before.flushed_players(tick, min_ticks));
    }
}

/// Who is told depends only on who is there.
pub proof fn lemma_same_ids_news(a: Roster, b: Roster, what: Said, except: Option<u32>, n: nat)
    requires
        a.players@.len() == b.players@.len(),
        n <= a.players@.len(),
        forall|k: int|
            0 <= k < a.players@.len() ==> (#[trigger] b.players@[k]).id == a.players@[k].id,
    ensures
        a.news(what, except, n) == b.news(what, except, n),
    decreases n,
{
    if n > 0 {
        lemma_same_ids_news(a, b, what, except, (n - 1) as nat);
        assert(b.players@[n - 1].id == a.players@[n - 1].id);
    }
}

impl JoinError {
    /// What the refused player reads.
    pub open spec fn text(self, name: Seq<char>, limits: Limits) -> Seq<char> {
        match self {
            JoinError::InvalidName => "invalid name (1..="@ + decimal(limits.max_name_chars as nat)
                + " printable characters)"@,
            JoinError::Full => "server is full ("@ + decimal(limits.max_players as nat)
                + " players)"@,
            JoinError::AlreadyOnline => "a player named \""@ + name + "\" is already online"@,
            JoinError::NameTaken => "the name \""@ + name
                + "\" belongs to another player on this server"@,
        }
    }

    /// Tells a refused player why; `name` is their cleaned name.
    pub fn reason(self, name: &str, limits: Limits) -> (s: String)
        ensures
            s@ == self.text(name@, limits),
    {
        let mut s = String::new();
        match self {
            JoinError::InvalidName => {
                s.append("invalid name (1..=");
                push_decimal(&mut s, limits.max_name_chars as u64);
                s.append(" printable characters)");
            },
            JoinError::Full => {
                s.append("server is full (");
                push_decimal(&mut s, limits.max_players as u64);
                s.append(" players)");
            },
            JoinError::AlreadyOnline => {
                s.append("a player named \"");
                s.append(name);
                s.append("\" is already online");
            },
            JoinError::NameTaken => {
                s.append("the name \"");
                s.append(name);
                s.append("\" belongs to another player on this server");
            },
        }
        assert(s@ =~= self.text(name@, limits));
        s
    }
}

/// A player who left comes back to what was kept: with the token a parked
/// name is reclaimed, without it refused.
pub proof fn law_token_reclaims(r: Roster, raw: Seq<char>, token: Option<u128>, limits: Limits, k: int)
    requires
        r.wf(),
        parked_at(r.offline@, name_text(raw), k),
        1 <= name_text(raw).len() <= limits.max_name_chars,
        r.players@.len() < limits.max_players,
    ensures
        token == Some(r.offline@[k].token) <==> r.outcome(
            raw,
            token,
            limits,
            Outcome::Reclaimed(k),
        ),
        token != Some(r.offline@[k].token) <==> r.outcome(
            raw,
            token,
            limits,
            Outcome::Refused(JoinError::NameTaken),
        ),
{
    let name = name_text(raw);
    assert(!online(r.players@, name)) by {
        assert forall|i: int| 0 <= i < r.players@.len() implies (#[trigger] r.players@[i]).name@
            != name by {
            assert(r.players@[i].name@ != r.offline@[k].name@);
        }
    }
    assert forall|j: int| #[trigger] parked_at(r.offline@, name, j) implies j == k by {
        if j < k {
            assert(r.offline@[j].name@ != r.offline@[k].name@);
        } else if k < j {
            assert(r.offline@[k].name@ != r.offline@[j].name@);
        }
    }
}

/// What a player keeps over sessions, as they are now.
pub open spec fn kept_now(p: Player) -> Kept {
    Kept {
        id: p.id,
        token: p.token,
        pos: p.motion.pos,
        held_slot: p.hands.held_slot,
        inventory: p.inventory@,
        hp: p.vitals.hp,
        max_hp: p.vitals.max_hp,
        bed_spawn: p.bed_spawn,
    }
}

/// What a granted request to join with the outcome `way` leads to.
pub open spec fn let_in(
    before: Roster,
    after: Roster,
    raw: Seq<char>,
    fresh: Fresh,
    limits: Limits,
    way: Outcome,
) -> bool {
    let p = after.players@.last();
    &&& after.players@.len() == before.players@.len() + 1
    &&& after.players@.drop_last() == before.players@
    &&& after.next_epoch == before.next_epoch + 1
    &&& match way {
        Outcome::Reclaimed(k) => {
            &&& after.next_player_id == before.next_player_id
            &&& after.offline@ == before.offline@.remove(k)
            &&& entered(
                p,
                name_text(raw),
                before.next_epoch,
                kept_of(before.offline@[k]),
                limits.max_breath,
            )
        },
        Outcome::Created => {
            &&& after.next_player_id == before.next_player_id + 1
            &&& after.offline@ == before.offline@
            &&& entered(
                p,
                name_text(raw),
                before.next_epoch,
                kept_fresh(fresh, before.next_player_id, limits.base_hp),
                limits.max_breath,
            )
        },
        Outcome::Refused(_) => false,
    }
}

/// A player who left comes back as they were (a refused request in between
/// leaves the roster as it is): the name with its token is let in again, in a
/// session of its own, with the same number, place, selection, things, health and bed, and the
/// welcome and the place are the first that they are told.
pub proof fn law_leaving_and_returning_restores(
    online: Roster,
    gone: Roster,
    back: Roster,
    i: int,
    respawn: Point,
    raw: Seq<char>,
    fresh: Fresh,
    limits: Limits,
    scene: Scene,
    way: Outcome,
)
    requires
        online.wf(),
        0 <= i < online.players@.len(),
        !online.players@[i].vitals.dead,
        gone.wf(),
        gone.players@ == online.players@.remove(i),
        gone.next_epoch == online.next_epoch,
        gone.offline@.len() == online.offline@.len() + 1,
        parked_as(gone.offline@.last(), online.players@[i], respawn, limits.base_hp),
        name_text(raw) == online.players@[i].name@,
        1 <= name_text(raw).len() <= limits.max_name_chars,
        gone.players@.len() < limits.max_players,
        gone.outcome(raw, Some(online.players@[i].token), limits, way),
        way !is Refused ==> let_in(gone, back, raw, fresh, limits, way),
    ensures
        way is Reclaimed,
        kept_now(back.players@.last()) == kept_now(online.players@[i]),
        back.players@.last().name@ == online.players@[i].name@,
        back.players@.last().epoch > online.players@[i].epoch,
        ({
            let p = back.players@.last();
            let mine = join_notices(gone.players@, p, scene);
            let n = 3 * gone.players@.len() as int;
            &&& mine[n] == (Message {
                to: p.id,
                what: Said::Welcome { player_id: p.id, token: online.players@[i].token, scene },
            })
            &&& mine[n + 1] == (Message {
                to: p.id,
                what: Said::Moved { id: p.id, motion: p.motion },
            })
            &&& p.motion.pos == online.players@[i].motion.pos
            &&& forall|k: int| 0 <= k < n ==> (#[trigger] mine[k]).to != p.id
        }),
{
    let k = gone.offline@.len() - 1;
    let p0 = online.players@[i];
    assert(parked_at(gone.offline@, name_text(raw), k));
    law_token_reclaims(gone, raw, Some(p0.token), limits, k);
    assert(way == Outcome::Reclaimed(k)) by {
        let j = choose|j: int|
            #[trigger] parked_at(gone.offline@, name_text(raw), j) && way == (if Some(p0.token)
                == Some(gone.offline@[j].token) {
                Outcome::Reclaimed(j)
            } else {
                Outcome::Refused(JoinError::NameTaken)
            });
        if j < k {
            assert(gone.offline@[j].name@ != gone.offline@[k].name@);
        }
        assert(!crate::sim::roster::online(gone.players@, name_text(raw))) by {
            assert forall|m: int| 0 <= m < gone.players@.len() implies (
            #[trigger] gone.players@[m]).name@ != name_text(raw) by {
                assert(gone.players@[m].name@ != gone.offline@[k].name@);
            }
        }
    }
    let p = back.players@.last();
    assert(kept_now(p).inventory =~= kept_now(p0).inventory);
    let mine = join_notices(gone.players@, p, scene);
    let n = gone.players@.len() as int;
    assert forall|m: int| 0 <= m < 3 * n implies (#[trigger] mine[m]).to != p.id by {
        let q = if m < n {
            m
        } else if m < 2 * n {
            m - n
        } else {
            m - 2 * n
        };
        assert(mine[m].to == gone.players@[q].id);
        assert(gone.players@[q].id != gone.offline@[k].id);
    }
}

/// A new session of a returned player has an epoch that no earlier one had,
/// so commands of the old session are stale.
pub proof fn law_old_sessions_are_stale(r: Roster, i: int, intent: Intent)
    requires
        r.wf(),
        0 <= i < r.players@.len(),
    ensures
        r.players@[i].epoch < r.next_epoch,
        forall|epoch: u64|
            epoch != r.players@[i].epoch ==> !#[trigger] r.may_act(i, epoch, intent),
{
}

// ---- Who gets in, and who hears what ---------------------------------------

/// A name must have between one character and as many as are allowed; a full
/// house takes nobody; nobody is there twice; a name that belongs to somebody
/// takes their token. Whoever passes gets in.
pub proof fn law_joins_are_refused_for_a_reason(
    r: Roster,
    raw: Seq<char>,
    token: Option<u128>,
    limits: Limits,
    way: Outcome,
)
    requires
        r.wf(),
        r.outcome(raw, token, limits, way),
    ensures
        ({
            let name = name_text(raw);
            let named = 1 <= name.len() && name.len() <= limits.max_name_chars;
            let room = r.players@.len() < limits.max_players;
            let there = exists|i: int|
                0 <= i < r.players@.len() && (#[trigger] r.players@[i]).name@ == name;
            let known = exists|k: int|
                0 <= k < r.offline@.len() && (#[trigger] r.offline@[k]).name@ == name;
            &&& !named ==> way == Outcome::Refused(JoinError::InvalidName)
            &&& named && !room ==> way == Outcome::Refused(JoinError::Full)
            &&& named && room && there ==> way == Outcome::Refused(JoinError::AlreadyOnline)
            &&& named && room && !there && !known ==> way is Created
            &&& named && room && !there && known && token is None ==> way == Outcome::Refused(
                JoinError::NameTaken,
            )
            &&& way is Created ==> named && room && !there && !known
            &&& way matches Outcome::Reclaimed(k) ==> 0 <= k < r.offline@.len()
                && r.offline@[k].name@ == name && token == Some(r.offline@[k].token)
        }),
{
    let name = name_text(raw);
    if exists|k: int| 0 <= k < r.offline@.len() && (#[trigger] r.offline@[k]).name@ == name {
        let k = choose|k: int| 0 <= k < r.offline@.len() && (#[trigger] r.offline@[k]).name@
            == name;
        assert(parked_at(r.offline@, name, k));
    }
    if exists|i: int| 0 <= i < r.players@.len() && (#[trigger] r.players@[i]).name@ == name {
        let i = choose|i: int| 0 <= i < r.players@.len() && (#[trigger] r.players@[i]).name@
            == name;
        assert(r.players@[i].name@ == name);
    }
}

/// A newcomer stands still where newcomers appear, with all their health and
/// breath, what newcomers get, and the first slot in hand; whoever returns
/// has what they left with.
pub proof fn law_players_enter_as_they_were(
    p: Player,
    name: Seq<char>,
    epoch: u64,
    kept: Kept,
    max_breath: u16,
    fresh: Fresh,
    id: u32,
    base_hp: u16,
)
    requires
        entered(p, name, epoch, kept, max_breath),
    ensures
        p.id == kept.id && p.name@ == name && p.token == kept.token && p.epoch == epoch,
        p.motion.pos == kept.pos && p.motion.vel.x == 0 && p.motion.vel.y == 0
            && !p.motion.moved,
        p.hands.held_slot == kept.held_slot && p.inventory@ == kept.inventory,
        !p.vitals.dead && p.vitals.hp == kept.hp && p.vitals.max_hp == kept.max_hp
            && p.vitals.breath == max_breath,
        p.open_chest is None && p.debuffs@.len() == 0 && p.bed_spawn == kept.bed_spawn,
        ({
            let f = kept_fresh(fresh, id, base_hp);
            &&& f.id == id && f.token == fresh.token && f.pos == fresh.pos && f.held_slot == 0
            &&& f.hp == base_hp && f.max_hp == base_hp && f.bed_spawn is None
            &&& f.inventory == fresh.inventory@
        }),
{
}

/// Who leaves dead is kept as if they had returned: at the place of return and
/// with the health of one who does; the living are kept as they are.
pub proof fn law_the_dead_leave_as_if_returned(
    rec: OfflinePlayer,
    p: Player,
    respawn: Point,
    base_hp: u16,
)
    requires
        parked_as(rec, p, respawn, base_hp),
    ensures
        !p.vitals.dead ==> rec.pos == p.motion.pos && rec.hp == p.vitals.hp,
        p.vitals.dead ==> rec.pos == respawn && rec.hp <= rec.max_hp,
        p.vitals.dead && base_hp <= p.vitals.max_hp ==> rec.hp >= base_hp,
        p.vitals.dead && p.vitals.max_hp / 2 >= base_hp ==> rec.hp == p.vitals.max_hp / 2,
        rec.max_hp == p.vitals.max_hp && rec.token == p.token && rec.id == p.id && rec.name@
            == p.name@,
        rec.inventory@ == p.inventory@ && rec.held_slot == p.hands.held_slot && rec.bed_spawn
            == p.bed_spawn,
{
}

/// What is told to all is told to each of them once.
pub proof fn law_all_are_told(players: Seq<Player>, what: Said, i: int)
    requires
        0 <= i < players.len(),
    ensures
        to_all(players, what).len() == players.len(),
        to_all(players, what)[i].to == players[i].id && to_all(players, what)[i].what == what,
{
}

/// What is told to all but one is told to everybody else.
pub proof fn law_all_others_are_told(r: Roster, what: Said, except: Option<u32>, n: nat, i: int)
    requires
        n <= r.players@.len(),
        0 <= i < n,
    ensures
        except != Some(r.players@[i].id) ==> r.news(what, except, n).contains(
            Message { to: r.players@[i].id, what },
        ),
        forall|k: int|
            0 <= k < r.news(what, except, n).len() ==> (#[trigger] r.news(
                what,
                except,
                n,
            )[k]).what == what && except != Some(r.news(what, except, n)[k].to),
    decreases n,
{
    lemma_news_spare(r, what, except, n);
    let before = r.news(what, except, (n - 1) as nat);
    let after = r.news(what, except, n);
    let m = Message { to: r.players@[i].id, what };
    if except != Some(r.players@[i].id) {
        if i < n - 1 {
            law_all_others_are_told(r, what, except, (n - 1) as nat, i);
            assert(after[before.index_of(m)] == m);
        } else {
            assert(after[before.len() as int] == m);
        }
    }
}

proof fn lemma_news_spare(r: Roster, what: Said, except: Option<u32>, n: nat)
    ensures
        forall|k: int|
            0 <= k < r.news(what, except, n).len() ==> (#[trigger] r.news(
                what,
                except,
                n,
            )[k]).what == what && except != Some(r.news(what, except, n)[k].to),
    decreases n,
{
    if n > 0 {
        lemma_news_spare(r, what, except, (n - 1) as nat);
    }
}

/// What is said of a player is what they are: number, name and place, what
/// they hold, and how they fare.
pub proof fn law_players_are_described(p: Player)
    ensures
        joined_of(p) matches Said::Joined { id, name, pos } && id == p.id && name == p.name@ && pos
            == p.motion.pos,
        held_of(p) matches Said::Held { id, slot, item } && id == p.id && slot
            == p.hands.held_slot && (p.hands.held_slot < p.inventory@.len()
            && p.inventory@[p.hands.held_slot as int] is Some ==> item == Some(
            p.inventory@[p.hands.held_slot as int]->Some_0.item,
        )),
        health_of(p) matches Said::Health { id, hp, max_hp } && id == p.id && hp == p.vitals.hp
            && max_hp == p.vitals.max_hp,
{
}

/// A newcomer is introduced to everyone and everyone to the newcomer, who is
/// first welcomed and placed, and gets their belongings and the time.
pub proof fn law_newcomers_meet_everyone(players: Seq<Player>, p: Player, scene: Scene, i: int)
    requires
        0 <= i < players.len(),
    ensures
        ({
            let n = players.len() as int;
            let m = join_notices(players, p, scene);
            &&& m.len() == 6 * n + 5
            &&& m[i] == (Message { to: players[i].id, what: joined_of(p) })
            &&& m[n + i] == (Message { to: players[i].id, what: held_of(p) })
            &&& m[2 * n + i] == (Message { to: players[i].id, what: health_of(p) })
            &&& m[3 * n].to == p.id && m[3 * n].what is Welcome
            &&& m[3 * n].what->Welcome_token == p.token
            &&& m[3 * n].what->player_id == p.id
            &&& m[3 * n + 1] == (Message {
                to: p.id,
                what: Said::Moved { id: p.id, motion: p.motion },
            })
            &&& m[3 * n + 2] == (Message {
                to: p.id,
                what: Said::Inventory { slots: p.inventory@ },
            })
            &&& m[3 * n + 3] == (Message {
                to: p.id,
                what: Said::Time { time: scene.time, day: scene.day },
            })
            &&& m[3 * n + 4] == (Message { to: p.id, what: health_of(p) })
            &&& m[3 * n + 5 + 3 * i] == (Message { to: p.id, what: joined_of(players[i]) })
            &&& m[3 * n + 6 + 3 * i] == (Message { to: p.id, what: held_of(players[i]) })
            &&& m[3 * n + 7 + 3 * i] == (Message { to: p.id, what: health_of(players[i]) })
        }),
{
    lemma_introductions(players, p.id, players.len(), i);
}

proof fn lemma_introductions(players: Seq<Player>, id: u32, n: nat, i: int)
    requires
        n <= players.len(),
    ensures
        introductions(players, id, n).len() == 3 * n,
        0 <= i < n ==> {
            &&& introductions(players, id, n)[3 * i] == (Message {
                to: id,
                what: joined_of(players[i]),
            })
            &&& introductions(players, id, n)[3 * i + 1] == (Message {
                to: id,
                what: held_of(players[i]),
            })
            &&& introductions(players, id, n)[3 * i + 2] == (Message {
                to: id,
                what: health_of(players[i]),
            })
        },
    decreases n,
{
    if n > 0 {
        lemma_introductions(players, id, (n - 1) as nat, i);
    }
}

/// The dead may talk, ping, choose a slot, tidy their things and return, and
/// nothing else; the living may do anything in their own session.
pub proof fn law_who_may_act(r: Roster, i: int, epoch: u64, intent: Intent)
    requires
        0 <= i < r.players@.len(),
    ensures
        intent.spec_open_to_dead() <==> intent == Intent::Ping || intent == Intent::Chat || intent
            == Intent::Respawn || intent == Intent::SelectSlot || intent == Intent::MoveSlot
            || intent == Intent::SplitSlot,
        !r.players@[i].vitals.dead ==> (r.may_act(i, epoch, intent) <==> epoch
            == r.players@[i].epoch),
        r.may_act(i, epoch, intent) ==> epoch == r.players@[i].epoch,
{
}

/// A selection that was only noted is announced to the others as soon as it may be, and then is
/// noted no more; whoever has nothing noted stays as they are.
pub proof fn law_noted_selections_are_announced(r: Roster, tick: u64, min_ticks: u64, n: nat)
    requires
        n < r.players@.len(),
    ensures
        ({
            let p = r.players@[n as int];
            let q = r.flushed_players(tick, min_ticks)[n as int];
            let told = r.flushed_news(tick, min_ticks, n);
            let now = r.flushed_news(tick, min_ticks, n + 1);
            let noted = p.hands.held_broadcast_dirty;
            let last = p.hands.last_held_broadcast_tick;
            let due = noted && (last is None || tick >= last->Some_0 + min_ticks || min_ticks == 0);
            &&& r.flushed_news(tick, min_ticks, 0).len() == 0
            &&& r.flushed_players(tick, min_ticks).len() == r.players@.len()
            &&& due ==> !q.hands.held_broadcast_dirty && q.hands.last_held_broadcast_tick == Some(
                tick,
            ) && now == told + r.news(held_of(p), Some(p.id), r.players@.len())
            &&& !due ==> q == p && now == told
            &&& q.hands.held_slot == p.hands.held_slot && q.id == p.id && q.inventory
                == p.inventory
        }),
{
}

} // verus!
