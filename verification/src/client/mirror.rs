//! What the client knows of others: entities, players and town dwellers, each
//! with the positions that came last.

use std::collections::HashMap;

use vstd::prelude::*;

use crate::client::dialogue::NpcKind;
use crate::client::snapshots::{pushed, Snapshots};
use crate::item::ItemId;
use crate::sim::player::Point;

verus! {

broadcast use vstd::std_specs::hash::group_hash_axioms;

/// Where something is, and how it looks.
#[derive(Debug, Clone, Copy, PartialEq, Eq, Structural)]
pub struct Pose {
    pub pos: Point,
    pub vel: Point,
    pub facing: i8,
    pub anim: u8,
}

pub open spec fn still(pos: Point, facing: i8, anim: u8) -> Pose {
    Pose { pos, vel: Point { x: 0, y: 0 }, facing, anim }
}

/// What an entity is to the client.
#[derive(Debug, Clone, Copy, PartialEq, Eq, Structural)]
pub enum MirrorKind {
    Item { item: ItemId, count: u16 },
    /// Another entity, by the number of its kind.
    Other(u8),
}

#[derive(Debug)]
pub struct MirrorEntity {
    pub kind: MirrorKind,
    pub snaps: Snapshots<Pose>,
}

/// An entity as it is seen: its kind and its positions.
pub open spec fn entity_view(e: MirrorEntity) -> (MirrorKind, Seq<(u64, Pose)>) {
    (e.kind, e.snaps.snaps@)
}

/// All entities as they are seen.
pub open spec fn entities_view(m: Map<u32, MirrorEntity>) -> Map<
    u32,
    (MirrorKind, Seq<(u64, Pose)>),
> {
    m.map_values(|e: MirrorEntity| entity_view(e))
}

/// A reported position of an entity.
#[derive(Debug, Clone, Copy, PartialEq, Eq, Structural)]
pub struct EntityState {
    pub id: u32,
    pub pose: Pose,
}

/// The entities after the first `n` reports; those of unknown entities are
/// skipped.
pub open spec fn reported(
    m: Map<u32, (MirrorKind, Seq<(u64, Pose)>)>,
    batch: Seq<EntityState>,
    now: u64,
    n: nat,
) -> Map<u32, (MirrorKind, Seq<(u64, Pose)>)>
    decreases n,
{
    if n == 0 {
        m
    } else {
        let before = reported(m, batch, now, (n - 1) as nat);
        let s = batch[n - 1];
        if before.dom().contains(s.id) {
            before.insert(
                s.id,
                (before[s.id].0, pushed(before[s.id].1, now, s.pose)),
            )
        } else {
            before
        }
    }
}

/// The entities that the client knows of.
#[derive(Debug)]
pub struct Entities {
    pub map: HashMap<u32, MirrorEntity>,
}

impl Entities {
    pub open spec fn wf(&self) -> bool {
        forall|id: u32| #[trigger]
            self.map@.dom().contains(id) ==> self.map@[id].snaps.wf()
    }

    pub open spec fn seen(&self) -> Map<u32, (MirrorKind, Seq<(u64, Pose)>)> {
        entities_view(self.map@)
    }

    pub fn new() -> (e: Entities)
        ensures
            e.wf(),
            e.seen() == Map::<u32, (MirrorKind, Seq<(u64, Pose)>)>::empty(),
    {
        let e = Entities { map: HashMap::new() };
        assert(e.seen() =~= Map::<u32, (MirrorKind, Seq<(u64, Pose)>)>::empty());
        e
    }

    /// An entity appears, or appears again: what was known of it is over.
    pub fn spawn(&mut self, id: u32, kind: MirrorKind, pose: Pose, now: u64)
        requires
            old(self).wf(),
        ensures
            final(self).wf(),
            final(self).seen() == old(self).seen().insert(id, (kind, seq![(now, pose)])),
    {
        let e = MirrorEntity { kind, snaps: Snapshots::new(now, pose) };
        let ghost v = entity_view(e);
        self.map.insert(id, e);
        assert(self.seen() =~= old(self).seen().insert(id, v));
    }

    /// Takes a batch of positions.
    pub fn update(&mut self, batch: &Vec<EntityState>, now: u64)
        requires
            old(self).wf(),
        ensures
            final(self).wf(),
            final(self).seen() == reported(old(self).seen(), batch@, now, batch@.len()),
    {
        let mut i: usize = 0;
        while i < batch.len()
            invariant
                i <= batch.len(),
                self.wf(),
                self.seen() == reported(old(self).seen(), batch@, now, i as nat),
            decreases batch.len() - i,
        {
            let s: EntityState = batch[i];
            let ghost before = self.map@;
            let ghost seen = self.seen();
            match self.map.remove(&s.id) {
                Some(e) => {
                    let mut e = e;
                    e.snaps.push(now, s.pose);
                    let ghost v = entity_view(e);
                    self.map.insert(s.id, e);
                    proof {
                        assert(self.seen() =~= seen.insert(
                            s.id,
                            (seen[s.id].0, pushed(seen[s.id].1, now, s.pose)),
                        ));
                    }
                },
                None => {
                    assert(self.map@ =~= before);
                },
            }
            i = i + 1;
        }
    }

    /// An entity is gone.
    pub fn remove(&mut self, id: u32)
        requires
            old(self).wf(),
        ensures
            final(self).wf(),
            final(self).seen() == old(self).seen().remove(id),
    {
        let gone = self.map.remove(&id);
        assert(self.seen() =~= old(self).seen().remove(id));
    }
}

// ---- Other players ---------------------------------------------------------

#[derive(Debug)]
pub struct RemotePlayer {
    pub name: String,
    pub held_item: Option<ItemId>,
    pub snaps: Snapshots<Pose>,
}

/// A player as they are seen: name, held item and positions.
pub struct PlayerView {
    pub name: Seq<char>,
    pub held_item: Option<ItemId>,
    pub snaps: Seq<(u64, Pose)>,
}

pub open spec fn player_view(p: RemotePlayer) -> PlayerView {
    PlayerView { name: p.name@, held_item: p.held_item, snaps: p.snaps.snaps@ }
}

/// The other players.
#[derive(Debug)]
pub struct Remotes {
    pub map: HashMap<u32, RemotePlayer>,
}

impl Remotes {
    pub open spec fn wf(&self) -> bool {
        forall|id: u32| #[trigger]
            self.map@.dom().contains(id) ==> self.map@[id].snaps.wf()
    }

    pub open spec fn seen(&self) -> Map<u32, PlayerView> {
        self.map@.map_values(|p: RemotePlayer| player_view(p))
    }

    pub fn new() -> (r: Remotes)
        ensures
            r.wf(),
            r.seen() == Map::<u32, PlayerView>::empty(),
    {
        let r = Remotes { map: HashMap::new() };
        assert(r.seen() =~= Map::<u32, PlayerView>::empty());
        r
    }

    /// A player joined; they stand still, looking as `anim` says, until more
    /// is known.
    pub fn join(&mut self, id: u32, name: String, pos: Point, anim: u8, now: u64)
        requires
            old(self).wf(),
        ensures
            final(self).wf(),
            final(self).seen() == old(self).seen().insert(
                id,
                (PlayerView {
                    name: name@,
                    held_item: None,
                    snaps: seq![(now, still(pos, 1, anim))],
                }),
            ),
    {
        let pose = Pose { pos, vel: Point { x: 0, y: 0 }, facing: 1, anim };
        let p = RemotePlayer { name, held_item: None, snaps: Snapshots::new(now, pose) };
        let ghost v = player_view(p);
        self.map.insert(id, p);
        assert(self.seen() =~= old(self).seen().insert(id, v));
    }

    /// A player left; gives their name.
    pub fn leave(&mut self, id: u32) -> (name: Option<String>)
        requires
            old(self).wf(),
        ensures
            final(self).wf(),
            final(self).seen() == old(self).seen().remove(id),
            match name {
                Some(n) => old(self).seen().dom().contains(id) && n@ == old(self).seen()[id].name,
                None => !old(self).seen().dom().contains(id),
            },
    {
        let gone = self.map.remove(&id);
        assert(self.seen() =~= old(self).seen().remove(id));
        match gone {
            Some(p) => Some(p.name),
            None => None,
        }
    }

    /// A player moved.
    pub fn moved(&mut self, id: u32, pose: Pose, now: u64)
        requires
            old(self).wf(),
        ensures
            final(self).wf(),
            final(self).seen() == (if old(self).seen().dom().contains(id) {
                old(self).seen().insert(
                    id,
                    (PlayerView {
                        snaps: pushed(old(self).seen()[id].snaps, now, pose),
                        ..old(self).seen()[id]
                    }),
                )
            } else {
                old(self).seen()
            }),
    {
        let ghost before = self.map@;
        match self.map.remove(&id) {
            Some(p) => {
                let mut p = p;
                p.snaps.push(now, pose);
                self.map.insert(id, p);
                assert(self.seen() =~= old(self).seen().insert(
                    id,
                    (PlayerView {
                        snaps: pushed(old(self).seen()[id].snaps, now, pose),
                        ..old(self).seen()[id]
                    }),
                ));
            },
            None => {
                assert(self.map@ =~= before);
            },
        }
    }

    /// A player holds something else.
    pub fn holds(&mut self, id: u32, item: Option<ItemId>)
        requires
            old(self).wf(),
        ensures
            final(self).wf(),
            final(self).seen() == (if old(self).seen().dom().contains(id) {
                old(self).seen().insert(
                    id,
                    (PlayerView { held_item: item, ..old(self).seen()[id] }),
                )
            } else {
                old(self).seen()
            }),
    {
        let ghost before = self.map@;
        match self.map.remove(&id) {
            Some(p) => {
                let mut p = p;
                p.held_item = item;
                self.map.insert(id, p);
                assert(self.seen() =~= old(self).seen().insert(
                    id,
                    (PlayerView { held_item: item, ..old(self).seen()[id] }),
                ));
            },
            None => {
                assert(self.map@ =~= before);
            },
        }
    }
}

// ---- Town dwellers ---------------------------------------------------------

#[derive(Debug)]
pub struct Npc {
    pub kind: NpcKind,
    pub name: String,
    pub housed: bool,
    pub snaps: Snapshots<Pose>,
}

pub struct NpcView {
    pub kind: NpcKind,
    pub name: Seq<char>,
    pub housed: bool,
    pub snaps: Seq<(u64, Pose)>,
}

pub open spec fn npc_view(n: Npc) -> NpcView {
    NpcView { kind: n.kind, name: n.name@, housed: n.housed, snaps: n.snaps.snaps@ }
}

/// A dweller as the server lists them.
#[derive(Debug)]
pub struct NpcInfo {
    pub id: u32,
    pub kind: NpcKind,
    pub name: String,
    pub housed: bool,
    pub pos: Point,
    /// The position is far from the last that was known.
    pub astray: bool,
}

/// The positions of a listed dweller: those that were known, unless they are
/// too far off, or there are none.
pub open spec fn listed_snaps(
    old_view: Map<u32, NpcView>,
    info: NpcInfo,
    anim: u8,
    now: u64,
) -> Seq<(u64, Pose)> {
    if !old_view.dom().contains(info.id) {
        seq![(now, still(info.pos, 1, anim))]
    } else if info.astray {
        let last = old_view[info.id].snaps.last().1;
        seq![(now, still(info.pos, last.facing, last.anim))]
    } else {
        old_view[info.id].snaps
    }
}

pub open spec fn listed_npc(
    old_view: Map<u32, NpcView>,
    info: NpcInfo,
    anim: u8,
    now: u64,
) -> NpcView {
    NpcView {
        kind: info.kind,
        name: info.name@,
        housed: info.housed,
        snaps: listed_snaps(old_view, info, anim, now),
    }
}

/// The dwellers still to be taken over and those taken over already, after the
/// first `n` entries of a list.
pub open spec fn relisted(
    known: Map<u32, NpcView>,
    list: Seq<NpcInfo>,
    anim: u8,
    now: u64,
    n: int,
) -> (Map<u32, NpcView>, Map<u32, NpcView>)
    decreases n,
{
    if n <= 0 {
        (known, Map::empty())
    } else {
        let (rest, next) = relisted(known, list, anim, now, n - 1);
        let info = list[n - 1];
        (rest.remove(info.id), next.insert(info.id, listed_npc(rest, info, anim, now)))
    }
}

/// No dweller is listed twice.
pub open spec fn listed_once(list: Seq<NpcInfo>) -> bool {
    forall|i: int, j: int|
        0 <= i < j < list.len() ==> (#[trigger] list[i]).id != (#[trigger] list[j]).id
}

/// The town dwellers.
#[derive(Debug)]
pub struct Npcs {
    pub map: HashMap<u32, Npc>,
}

impl Npcs {
    pub open spec fn wf(&self) -> bool {
        forall|id: u32| #[trigger]
            self.map@.dom().contains(id) ==> self.map@[id].snaps.wf()
    }

    pub open spec fn seen(&self) -> Map<u32, NpcView> {
        self.map@.map_values(|n: Npc| npc_view(n))
    }

    pub fn new() -> (n: Npcs)
        ensures
            n.wf(),
            n.seen() == Map::<u32, NpcView>::empty(),
    {
        let n = Npcs { map: HashMap::new() };
        assert(n.seen() =~= Map::<u32, NpcView>::empty());
        n
    }

    /// Takes a new list of all dwellers. Those who are not on it are gone; a
    /// new one looks as `anim` says.
    pub fn apply_list(&mut self, list: Vec<NpcInfo>, anim: u8, now: u64)
        requires
            old(self).wf(),
        ensures
            final(self).wf(),
            final(self).seen() == relisted(
                old(self).seen(),
                list@,
                anim,
                now,
                list@.len() as int,
            ).1,
    {
        let ghost all = list@;
        let ghost known = self.seen();
        let mut next: HashMap<u32, Npc> = HashMap::new();
        assert(next@.map_values(|n: Npc| npc_view(n)) =~= Map::<u32, NpcView>::empty());
        for info in it: list
            invariant
                it.seq() == all,
                known == old(self).seen(),
                self.wf(),
                forall|id: u32| #[trigger] next@.dom().contains(id) ==> next@[id].snaps.wf(),
                (self.seen(), next@.map_values(|n: Npc| npc_view(n))) == relisted(
                    known,
                    all,
                    anim,
                    now,
                    it.index() as int,
                ),
        {
            let ghost k = it.index() as int;
            assert(info == all[k]);
            let ghost was = self.seen();
            let ghost had = next@.map_values(|n: Npc| npc_view(n));
            let NpcInfo { id, kind, name, housed, pos, astray } = info;
            let found = self.map.remove(&id);
            assert(self.seen() =~= was.remove(id));
            let snaps: Snapshots<Pose> = match found {
                Some(npc) => {
                    let mut snaps = npc.snaps;
                    if astray {
                        let last = snaps.last().1;
                        let pose = Pose {
                            pos,
                            vel: Point { x: 0, y: 0 },
                            facing: last.facing,
                            anim: last.anim,
                        };
                        snaps.reset(now, pose);
                    }
                    snaps
                },
                None => {
                    let pose = Pose {
                        pos,
                        vel: Point { x: 0, y: 0 },
                        facing: 1,
                        anim,
                    };
                    Snapshots::new(now, pose)
                },
            };
            let npc = Npc { kind, name, housed, snaps };
            assert(npc_view(npc) == listed_npc(was, all[k], anim, now));
            next.insert(id, npc);
            assert(next@.map_values(|n: Npc| npc_view(n)) =~= had.insert(id, npc_view(npc)));
        }
        self.map = next;
    }

    /// A dweller is gone.
    pub fn remove(&mut self, id: u32)
        requires
            old(self).wf(),
        ensures
            final(self).wf(),
            final(self).seen() == old(self).seen().remove(id),
    {
        let gone = self.map.remove(&id);
        assert(self.seen() =~= old(self).seen().remove(id));
    }
}

/// Where no dweller is listed twice, the listed dwellers are there and no
/// others, each with the way that was known of them.
pub proof fn law_lists_replace(
    known: Map<u32, NpcView>,
    list: Seq<NpcInfo>,
    anim: u8,
    now: u64,
    n: int,
)
    requires
        listed_once(list),
        0 <= n <= list.len(),
    ensures
        forall|i: int|
            0 <= i < n ==> relisted(known, list, anim, now, n).1.dom().contains(
                (#[trigger] list[i]).id,
            ) && relisted(known, list, anim, now, n).1[list[i].id] == listed_npc(
                known,
                list[i],
                anim,
                now,
            ),
        forall|id: u32| #[trigger]
            relisted(known, list, anim, now, n).1.dom().contains(id) ==> exists|i: int|
                0 <= i < n && (#[trigger] list[i]).id == id,
        forall|i: int|
            n <= i < list.len() ==> relisted(known, list, anim, now, n).0.dom().contains(
                (#[trigger] list[i]).id,
            ) == known.dom().contains(list[i].id),
        forall|id: u32| #[trigger]
            relisted(known, list, anim, now, n).0.dom().contains(id) ==> known.dom().contains(id)
                && relisted(known, list, anim, now, n).0[id] == known[id],
    decreases n,
{
    if n > 0 {
        law_lists_replace(known, list, anim, now, n - 1);
        let (rest, next) = relisted(known, list, anim, now, n - 1);
        let info = list[n - 1];
        assert(listed_npc(rest, info, anim, now) == listed_npc(known, info, anim, now));
        assert forall|i: int| n <= i < list.len() implies relisted(
            known,
            list,
            anim,
            now,
            n,
        ).0.dom().contains((#[trigger] list[i]).id) == known.dom().contains(list[i].id) by {
            assert(list[n - 1].id != list[i].id);
        }
        assert forall|i: int| 0 <= i < n implies relisted(
            known,
            list,
            anim,
            now,
            n,
        ).1.dom().contains((#[trigger] list[i]).id) && relisted(
            known,
            list,
            anim,
            now,
            n,
        ).1[list[i].id] == listed_npc(known, list[i], anim, now) by {
            if i < n - 1 {
                assert(list[i].id != list[n - 1].id);
            }
        }
    }
}

/// Index `k` is the first of the least; a distance is given for what is in
/// reach only, as a number that grows with it.
pub open spec fn least(distance: Seq<Option<u32>>, k: int) -> bool {
    &&& 0 <= k < distance.len()
    &&& distance[k] is Some
    &&& forall|i: int|
        0 <= i < distance.len() && distance[i] is Some ==> distance[k]->Some_0 < (
        #[trigger] distance[i])->Some_0 || (distance[k]->Some_0 == distance[i]->Some_0 && k <= i)
}

/// The nearest of the dwellers that are in reach.
pub fn nearest_in_reach(distance: &Vec<Option<u32>>) -> (r: Option<usize>)
    ensures
        match r {
            Some(k) => least(distance@, k as int),
            None => forall|i: int| 0 <= i < distance@.len() ==> #[trigger] distance@[i] is None,
        },
{
    let mut best: Option<(u32, usize)> = None;
    let mut i: usize = 0;
    while i < distance.len()
        invariant
            i <= distance.len(),
            match best {
                Some((d, k)) => {
                    &&& k < i
                    &&& distance@[k as int] == Some(d)
                    &&& forall|m: int|
                        0 <= m < i && distance@[m] is Some ==> d < (
                        #[trigger] distance@[m])->Some_0 || (d == distance@[m]->Some_0 && k <= m)
                },
                None => forall|m: int| 0 <= m < i ==> #[trigger] distance@[m] is None,
            },
        decreases distance.len() - i,
    {
        match distance[i] {
            Some(d) => {
                let nearer: bool = match best {
                    Some((b, _)) => d < b,
                    None => true,
                };
                if nearer {
                    best = Some((d, i));
                }
            },
            None => {},
        }
        i = i + 1;
    }
    match best {
        Some((_, k)) => Some(k),
        None => None,
    }
}

/// A report moves the thing it names, if that is known, and no other.
pub proof fn law_reports_move_their_own(
    m: Map<u32, (MirrorKind, Seq<(u64, Pose)>)>,
    s: EntityState,
    now: u64,
    id: u32,
)
    ensures
        ({
            let after = reported(m, seq![s], now, 1);
            &&& after.dom() == m.dom()
            &&& id != s.id && m.dom().contains(id) ==> after[id] == m[id]
            &&& m.dom().contains(s.id) ==> after[s.id].0 == m[s.id].0 && after[s.id].1.last() == (
                now,
                s.pose,
            )
            &&& m.dom().contains(s.id) && m[s.id].1.len() < 64 ==> after[s.id].1 == m[s.id].1.push(
                (now, s.pose),
            )
        }),
{
    reveal_with_fuel(reported, 2);
    assert(reported(m, seq![s], now, 1).dom() =~= m.dom());
}

/// Reports are taken one after another.
pub proof fn law_reports_come_in_turn(
    m: Map<u32, (MirrorKind, Seq<(u64, Pose)>)>,
    batch: Seq<EntityState>,
    s: EntityState,
    now: u64,
)
    ensures
        reported(m, batch.push(s), now, batch.len() + 1) == reported(
            reported(m, batch, now, batch.len()),
            seq![s],
            now,
            1,
        ),
        reported(m, batch, now, 0) == m,
{
    reveal_with_fuel(reported, 2);
    lemma_reported_prefix(m, batch.push(s), batch, now, batch.len());
}

proof fn lemma_reported_prefix(
    m: Map<u32, (MirrorKind, Seq<(u64, Pose)>)>,
    a: Seq<EntityState>,
    b: Seq<EntityState>,
    now: u64,
    n: nat,
)
    requires
        n <= a.len(),
        n <= b.len(),
        forall|i: int| 0 <= i < n ==> a[i] == b[i],
    ensures
        reported(m, a, now, n) == reported(m, b, now, n),
    decreases n,
{
    if n > 0 {
        lemma_reported_prefix(m, a, b, now, (n - 1) as nat);
    }
}

/// Someone newly listed stands where the list says; someone known keeps their track, unless they
/// have gone astray and are put where the list says.
pub proof fn law_listed_people_keep_their_track(
    known: Map<u32, NpcView>,
    info: NpcInfo,
    anim: u8,
    now: u64,
)
    ensures
        ({
            let n = listed_npc(known, info, anim, now);
            let new = !known.dom().contains(info.id);
            &&& n.kind == info.kind && n.name == info.name@ && n.housed == info.housed
            &&& !new && !info.astray ==> n.snaps == known[info.id].snaps
            &&& new || info.astray ==> n.snaps.len() == 1 && n.snaps[0].0 == now
                && n.snaps[0].1.pos == info.pos && n.snaps[0].1.vel == (Point { x: 0, y: 0 })
            &&& new ==> n.snaps[0].1.facing == 1 && n.snaps[0].1.anim == anim
            &&& !new && info.astray ==> n.snaps[0].1.facing
                == known[info.id].snaps.last().1.facing && n.snaps[0].1.anim
                == known[info.id].snaps.last().1.anim
        }),
{
}

/// What stands still has no speed.
pub proof fn law_standing_has_no_speed(pos: Point, facing: i8, anim: u8)
    ensures
        still(pos, facing, anim).pos == pos,
        still(pos, facing, anim).vel.x == 0 && still(pos, facing, anim).vel.y == 0,
        still(pos, facing, anim).facing == facing,
        still(pos, facing, anim).anim == anim,
{
}

/// The nearest is one that is in reach, and none in reach is nearer.
pub proof fn law_the_nearest_is_in_reach(distance: Seq<Option<u32>>, k: int, i: int)
    requires
        least(distance, k),
        0 <= i < distance.len(),
        distance[i] is Some,
    ensures
        distance[k] is Some,
        distance[k]->Some_0 <= distance[i]->Some_0,
        i < k ==> distance[k]->Some_0 < distance[i]->Some_0,
{
}

} // verus!
