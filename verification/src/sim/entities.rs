//! Things that lie, walk or fly about. Item drops age, merge and are picked
//! up here.

use vstd::prelude::*;

use crate::grid::{Grid, World};
use crate::item::{item_count, ItemId, ARMOR_START};
use crate::sim::chunks::has_cell;
use crate::sim::enemies::EnemyKind;
use crate::sim::inventory::{differences, held_changed, slot_deltas, touches_hand, SlotDelta};
use crate::sim::player::{Player, Point};
use crate::sim::roster::distinct_ids;
use crate::stacks::{add_items, copy_slots, law_add_keeps_count, leftover, with_items};
use crate::tile::LiquidKind;

verus! {

/// A drop vanishes after so many ticks: ten minutes.
pub const ITEM_DESPAWN_TICKS: u64 = 36_000;

/// A drop can be picked up after so many ticks: half a second.
pub const ITEM_ARM_TICKS: u64 = 30;

#[derive(Debug, Clone, Copy, PartialEq, Eq, Structural)]
pub enum EntityKind {
    ItemDrop { item: ItemId, count: u16 },
    /// A cell of sand on its way down.
    FallingSand,
    Enemy(EnemyKind),
    /// An arrow in flight, and who shot it.
    Arrow { ammo: ItemId, attack: u16, owner: u32 },
    VoidSickle,
}

/// Why an entity is gone.
#[derive(Debug, Clone, Copy, PartialEq, Eq, Structural)]
pub enum DespawnReason {
    Despawned,
    Killed,
}

/// Where an entity is. The coordinates are carried, not computed with.
#[derive(Debug, Clone, Copy, PartialEq, Eq)]
pub struct Body {
    pub pos: Point,
    pub vel: Point,
    /// The chunk of its center.
    pub chunk: (u32, u32),
}

#[derive(Debug, Clone, Copy, PartialEq, Eq)]
pub struct Entity {
    pub body: Body,
    pub kind: EntityKind,
    /// When it came into being.
    pub spawn_tick: u64,
    /// It changed since the players were told last.
    pub awake: bool,
}

/// The entities by number, in the order of their numbers.
#[derive(Debug)]
pub struct EntityStore {
    pub next_id: u32,
    pub entries: Vec<(u32, Entity)>,
}

/// Strictly increasing numbers, all below `next`.
pub open spec fn numbered(entries: Seq<(u32, Entity)>, next: int) -> bool {
    &&& forall|i: int, j: int|
        0 <= i < j < entries.len() ==> (#[trigger] entries[i]).0 < (#[trigger] entries[j]).0
    &&& forall|i: int| 0 <= i < entries.len() ==> (#[trigger] entries[i]).0 < next
}

pub open spec fn has_id(entries: Seq<(u32, Entity)>, id: u32) -> bool {
    exists|i: int| 0 <= i < entries.len() && (#[trigger] entries[i]).0 == id
}

/// The index of the entity `id`.
pub open spec fn is_at(entries: Seq<(u32, Entity)>, id: u32, i: int) -> bool {
    0 <= i < entries.len() && entries[i].0 == id
}

/// The entries without the entity `id`.
pub open spec fn without_id(before: Seq<(u32, Entity)>, after: Seq<(u32, Entity)>, id: u32) -> bool {
    if has_id(before, id) {
        exists|i: int| #[trigger] is_at(before, id, i) && after == before.remove(i)
    } else {
        after == before
    }
}

/// The entries among the first `n` that lie in chunk `c`.
pub open spec fn in_chunk(entries: Seq<(u32, Entity)>, c: (u32, u32), n: nat) -> Seq<(u32, Entity)>
    decreases n,
{
    if n == 0 {
        seq![]
    } else if entries[n - 1].1.body.chunk == c {
        in_chunk(entries, c, (n - 1) as nat).push(entries[n - 1])
    } else {
        in_chunk(entries, c, (n - 1) as nat)
    }
}

/// The entries among the first `n` that are awake and in one of `chunks`.
pub open spec fn news_in(
    entries: Seq<(u32, Entity)>,
    chunks: Seq<(u32, u32)>,
    n: nat,
) -> Seq<(u32, Entity)>
    decreases n,
{
    if n == 0 {
        seq![]
    } else if entries[n - 1].1.awake && chunks.contains(entries[n - 1].1.body.chunk) {
        news_in(entries, chunks, (n - 1) as nat).push(entries[n - 1])
    } else {
        news_in(entries, chunks, (n - 1) as nat)
    }
}

/// How many of `item` lie about.
pub open spec fn lying(entries: Seq<(u32, Entity)>, item: ItemId) -> int
    decreases entries.len(),
{
    if entries.len() == 0 {
        0
    } else {
        lying(entries.drop_last(), item) + amount(entries.last().1, item)
    }
}

/// How many of `item` an entity is.
pub open spec fn amount(e: Entity, item: ItemId) -> int {
    match e.kind {
        EntityKind::ItemDrop { item: i, count } => if i == item {
            count as int
        } else {
            0
        },
        _ => 0,
    }
}

proof fn lemma_lying_push(entries: Seq<(u32, Entity)>, e: (u32, Entity), item: ItemId)
    ensures
        lying(entries.push(e), item) == lying(entries, item) + amount(e.1, item),
{
    assert(entries.push(e).drop_last() =~= entries);
}

proof fn lemma_lying_remove(entries: Seq<(u32, Entity)>, i: int, item: ItemId)
    requires
        0 <= i < entries.len(),
    ensures
        lying(entries.remove(i), item) == lying(entries, item) - amount(entries[i].1, item),
    decreases entries.len(),
{
    let rest = entries.remove(i);
    if i == entries.len() - 1 {
        assert(rest =~= entries.drop_last());
    } else {
        lemma_lying_remove(entries.drop_last(), i, item);
        assert(rest.drop_last() =~= entries.drop_last().remove(i));
        assert(rest.last() == entries.last());
    }
}

impl EntityStore {
    pub open spec fn wf(&self) -> bool {
        numbered(self.entries@, self.next_id as int)
    }

    pub fn new() -> (s: EntityStore)
        ensures
            s.wf(),
            s.next_id == 1,
            s.entries@ == Seq::<(u32, Entity)>::empty(),
    {
        EntityStore { next_id: 1, entries: Vec::new() }
    }

    /// Takes up an entity under a new number.
    pub fn insert(&mut self, entity: Entity) -> (id: u32)
        requires
            old(self).wf(),
            old(self).next_id < u32::MAX,
        ensures
            final(self).wf(),
            id == old(self).next_id,
            final(self).next_id == old(self).next_id + 1,
            final(self).entries@ == old(self).entries@.push((id, entity)),
            !has_id(old(self).entries@, id),
    {
        let id: u32 = self.next_id;
        self.next_id = id + 1;
        self.entries.push((id, entity));
        id
    }

    /// The index of the entity `id`.
    pub fn find(&self, id: u32) -> (r: Option<usize>)
        ensures
            match r {
                Some(i) => is_at(self.entries@, id, i as int),
                None => !has_id(self.entries@, id),
            },
    {
        let mut i: usize = 0;
        while i < self.entries.len()
            invariant
                i <= self.entries.len(),
                forall|k: int| 0 <= k < i ==> (#[trigger] self.entries@[k]).0 != id,
            decreases self.entries.len() - i,
        {
            if self.entries[i].0 == id {
                return Some(i);
            }
            i = i + 1;
        }
        None
    }

    /// Takes an entity out; says whether it was there.
    pub fn remove(&mut self, id: u32) -> (there: bool)
        requires
            old(self).wf(),
        ensures
            final(self).wf(),
            final(self).next_id == old(self).next_id,
            there == has_id(old(self).entries@, id),
            without_id(old(self).entries@, final(self).entries@, id),
            !has_id(final(self).entries@, id),
    {
        match self.find(id) {
            Some(i) => {
                let ghost before = self.entries@;
                assert(is_at(before, id, i as int));
                let gone = self.entries.remove(i);
                proof {
                    assert forall|k: int| 0 <= k < self.entries@.len() implies (
                    #[trigger] self.entries@[k]).0 != id by {
                        if k < i {
                            assert(self.entries@[k] == before[k]);
                        } else {
                            assert(self.entries@[k] == before[k + 1]);
                        }
                    }
                }
                true
            },
            None => false,
        }
    }

    /// What a player who begins to see chunk `c` is told of.
    pub fn spawn_messages_in_chunk(&self, c: (u32, u32)) -> (out: Vec<(u32, Entity)>)
        ensures
            out@ == in_chunk(self.entries@, c, self.entries@.len()),
    {
        let mut out: Vec<(u32, Entity)> = Vec::new();
        let mut i: usize = 0;
        while i < self.entries.len()
            invariant
                i <= self.entries.len(),
                out@ == in_chunk(self.entries@, c, i as nat),
            decreases self.entries.len() - i,
        {
            let e: (u32, Entity) = self.entries[i];
            if e.1.body.chunk.0 == c.0 && e.1.body.chunk.1 == c.1 {
                out.push(e);
            }
            i = i + 1;
        }
        out
    }

    /// The awake entities that a player with these chunks is told of.
    pub fn updates_for(&self, chunks: &Vec<(u32, u32)>) -> (out: Vec<(u32, Entity)>)
        ensures
            out@ == news_in(self.entries@, chunks@, self.entries@.len()),
    {
        let mut out: Vec<(u32, Entity)> = Vec::new();
        let mut i: usize = 0;
        while i < self.entries.len()
            invariant
                i <= self.entries.len(),
                out@ == news_in(self.entries@, chunks@, i as nat),
            decreases self.entries.len() - i,
        {
            let e: (u32, Entity) = self.entries[i];
            if e.1.awake && has_cell(chunks, e.1.body.chunk) {
                out.push(e);
            }
            i = i + 1;
        }
        out
    }

    /// Everyone was told: all entities are at rest.
    pub fn calm(&mut self)
        requires
            old(self).wf(),
        ensures
            final(self).wf(),
            final(self).next_id == old(self).next_id,
            final(self).entries@.len() == old(self).entries@.len(),
            forall|i: int|
                0 <= i < old(self).entries@.len() ==> #[trigger] final(self).entries@[i] == (
                    old(self).entries@[i].0,
                    Entity { awake: false, ..old(self).entries@[i].1 },
                ),
    {
        let mut i: usize = 0;
        while i < self.entries.len()
            invariant
                i <= self.entries.len(),
                self.next_id == old(self).next_id,
                self.entries@.len() == old(self).entries@.len(),
                forall|k: int|
                    0 <= k < i ==> #[trigger] self.entries@[k] == (
                        old(self).entries@[k].0,
                        Entity { awake: false, ..old(self).entries@[k].1 },
                    ),
                forall|k: int|
                    i <= k < self.entries@.len() ==> #[trigger] self.entries@[k] == old(
                        self,
                    ).entries@[k],
            decreases self.entries.len() - i,
        {
            let (id, mut e): (u32, Entity) = self.entries[i];
            e.awake = false;
            self.entries.set(i, (id, e));
            i = i + 1;
        }
    }
}

// ---- Aging -----------------------------------------------------------------

/// A cell between `(x0, y0)` and `(x1, y1)` holds the liquid.
pub open spec fn touches(g: Grid, x0: int, y0: int, x1: int, y1: int, kind: LiquidKind) -> bool {
    exists|x: int, y: int|
        x0 <= x <= x1 && y0 <= y <= y1 && #[trigger] g.liquid(x, y).spec_kind() == Some(kind)
}

/// Whether one of the cells that a body covers holds a liquid.
pub fn touches_liquid(world: &World, x0: i32, y0: i32, x1: i32, y1: i32, kind: LiquidKind) -> (b:
    bool)
    requires
        world.wf(),
        x1 < i32::MAX,
        y1 < i32::MAX,
    ensures
        b == touches(world@, x0 as int, y0 as int, x1 as int, y1 as int, kind),
{
    let mut y: i32 = y0;
    while y <= y1
        invariant
            world.wf(),
            x1 < i32::MAX,
            y1 < i32::MAX,
            y0 <= y,
            forall|a: int, b: int|
                x0 <= a <= x1 && y0 <= b < y ==> #[trigger] world@.liquid(a, b).spec_kind() != Some(
                    kind,
                ),
        decreases y1 + 1 - y,
    {
        let mut x: i32 = x0;
        while x <= x1
            invariant
                world.wf(),
                x1 < i32::MAX,
                y1 < i32::MAX,
                x0 <= x,
                y0 <= y <= y1,
                forall|a: int, b: int|
                    x0 <= a <= x1 && y0 <= b < y ==> #[trigger] world@.liquid(a, b).spec_kind()
                        != Some(kind),
                forall|a: int|
                    x0 <= a < x ==> #[trigger] world@.liquid(a, y as int).spec_kind() != Some(kind),
            decreases x1 + 1 - x,
        {
            if world.liquid(x, y).holds(kind) {
                assert(world@.liquid(x as int, y as int).spec_kind() == Some(kind));
                return true;
            }
            x = x + 1;
        }
        y = y + 1;
    }
    false
}

/// What physics made of a drop this tick.
#[derive(Debug, Clone, Copy)]
pub struct DropStep {
    pub body: Body,
    /// It moved.
    pub moved: bool,
    /// It lies in lava and is not proof against it.
    pub burns: bool,
}

/// Whether and why a drop is gone this tick. Nothing else goes this way.
pub open spec fn fate(e: Entity, tick: u64, burns: bool) -> Option<DespawnReason> {
    if !(e.kind is ItemDrop) {
        None
    } else if tick >= e.spawn_tick && tick - e.spawn_tick >= ITEM_DESPAWN_TICKS {
        Some(DespawnReason::Despawned)
    } else if burns {
        Some(DespawnReason::Killed)
    } else {
        None
    }
}

pub open spec fn stepped(e: Entity, s: DropStep) -> Entity {
    if !(e.kind is ItemDrop) {
        e
    } else {
        Entity { body: s.body, awake: e.awake || s.moved, ..e }
    }
}

/// Those of the first `n` entries that remain, moved.
pub open spec fn remaining(
    entries: Seq<(u32, Entity)>,
    steps: Seq<DropStep>,
    tick: u64,
    n: nat,
) -> Seq<(u32, Entity)>
    decreases n,
{
    if n == 0 {
        seq![]
    } else {
        let before = remaining(entries, steps, tick, (n - 1) as nat);
        let (id, e) = entries[n - 1];
        if fate(e, tick, steps[n - 1].burns) is Some {
            before
        } else {
            before.push((id, stepped(e, steps[n - 1])))
        }
    }
}

/// Those of the first `n` entries that go, and why.
pub open spec fn departed(
    entries: Seq<(u32, Entity)>,
    steps: Seq<DropStep>,
    tick: u64,
    n: nat,
) -> Seq<(u32, DespawnReason)>
    decreases n,
{
    if n == 0 {
        seq![]
    } else {
        let before = departed(entries, steps, tick, (n - 1) as nat);
        let (id, e) = entries[n - 1];
        match fate(e, tick, steps[n - 1].burns) {
            Some(r) => before.push((id, r)),
            None => before,
        }
    }
}

/// Moves the drops as physics says, and lets those go that are too old or in
/// lava. Returns those.
pub fn step_item_drops(store: &mut EntityStore, steps: &Vec<DropStep>, tick: u64) -> (gone: Vec<
    (u32, DespawnReason),
>)
    requires
        old(store).wf(),
        steps.len() == old(store).entries.len(),
    ensures
        final(store).wf(),
        final(store).next_id == old(store).next_id,
        final(store).entries@ == remaining(
            old(store).entries@,
            steps@,
            tick,
            old(store).entries@.len(),
        ),
        gone@ == departed(old(store).entries@, steps@, tick, old(store).entries@.len()),
{
    let mut gone: Vec<(u32, DespawnReason)> = Vec::new();
    let mut kept: Vec<(u32, Entity)> = Vec::new();
    let mut i: usize = 0;
    while i < store.entries.len()
        invariant
            i <= store.entries.len(),
            *store == *old(store),
            store.wf(),
            steps.len() == store.entries.len(),
            kept@ == remaining(store.entries@, steps@, tick, i as nat),
            gone@ == departed(store.entries@, steps@, tick, i as nat),
            numbered(kept@, store.next_id as int),
            forall|k: int|
                0 <= k < kept@.len() && i < store.entries@.len() ==> (#[trigger] kept@[k]).0
                    < store.entries@[i as int].0,
        decreases store.entries.len() - i,
    {
        let (id, mut e): (u32, Entity) = store.entries[i];
        let s: DropStep = steps[i];
        match e.kind {
            EntityKind::ItemDrop { .. } => {
                if tick.saturating_sub(e.spawn_tick) >= ITEM_DESPAWN_TICKS {
                    gone.push((id, DespawnReason::Despawned));
                } else if s.burns {
                    gone.push((id, DespawnReason::Killed));
                } else {
                    e.body = s.body;
                    e.awake = e.awake || s.moved;
                    kept.push((id, e));
                }
            },
            _ => {
                kept.push((id, e));
            },
        }
        i = i + 1;
    }
    store.entries = kept;
    gone
}

// ---- Merging ---------------------------------------------------------------

/// What merging looks at: the pair may be one stack.
pub open spec fn may_merge(a: Entity, b: Entity, max_stack: int) -> bool {
    match (a.kind, b.kind) {
        (
            EntityKind::ItemDrop { item: i, count: m },
            EntityKind::ItemDrop { item: j, count: n },
        ) => (a.awake || b.awake) && i == j && m + n <= max_stack,
        _ => false,
    }
}

/// Some pair of `pairs` holds `k`.
pub open spec fn taken(pairs: Seq<(int, int)>, k: int) -> bool {
    exists|i: int| 0 <= i < pairs.len() && ((#[trigger] pairs[i]).0 == k || pairs[i].1 == k)
}

/// Entries `i` and `j` merge when both are free.
pub open spec fn fit(
    entries: Seq<(u32, Entity)>,
    near: Seq<Vec<bool>>,
    max_stack: Seq<u16>,
    i: int,
    j: int,
) -> bool {
    near[i]@[j] && may_merge(entries[i].1, entries[j].1, max_stack[i] as int)
}

/// The first free partner for `i` from `j` on, or the number of entries.
pub open spec fn partner(
    entries: Seq<(u32, Entity)>,
    near: Seq<Vec<bool>>,
    max_stack: Seq<u16>,
    pairs: Seq<(int, int)>,
    i: int,
    j: int,
) -> int
    decreases entries.len() - j,
{
    if j >= entries.len() {
        entries.len() as int
    } else if !taken(pairs, j) && fit(entries, near, max_stack, i, j) {
        j
    } else {
        partner(entries, near, max_stack, pairs, i, j + 1)
    }
}

/// The pairs that the first `n` entries open, in order: each free entry takes
/// the first free partner behind it.
pub open spec fn pairing(
    entries: Seq<(u32, Entity)>,
    near: Seq<Vec<bool>>,
    max_stack: Seq<u16>,
    n: nat,
) -> Seq<(int, int)>
    decreases n,
{
    if n == 0 {
        seq![]
    } else {
        let before = pairing(entries, near, max_stack, (n - 1) as nat);
        let i = n - 1;
        let j = partner(entries, near, max_stack, before, i, i + 1);
        if !taken(before, i) && j < entries.len() {
            before.push((i, j))
        } else {
            before
        }
    }
}

/// One stack out of two: where the first is, and as old as the older.
pub open spec fn merged(a: Entity, b: Entity) -> Entity {
    match (a.kind, b.kind) {
        (
            EntityKind::ItemDrop { item, count: m },
            EntityKind::ItemDrop { item: _, count: n },
        ) => Entity {
            kind: EntityKind::ItemDrop { item, count: (m + n) as u16 },
            spawn_tick: if a.spawn_tick <= b.spawn_tick {
                a.spawn_tick
            } else {
                b.spawn_tick
            },
            awake: true,
            ..a
        },
        _ => a,
    }
}

/// Those of the first `n` entries whose index is not in `out`.
pub open spec fn survivors(entries: Seq<(u32, Entity)>, out: Set<int>, n: nat) -> Seq<(u32, Entity)>
    decreases n,
{
    if n == 0 {
        seq![]
    } else if out.contains(n - 1) {
        survivors(entries, out, (n - 1) as nat)
    } else {
        survivors(entries, out, (n - 1) as nat).push(entries[n - 1])
    }
}

/// The indices that pairs hold.
pub open spec fn members(pairs: Seq<(int, int)>) -> Set<int> {
    Set::new(|k: int| taken(pairs, k))
}

/// The stacks that pairs become, under new numbers.
pub open spec fn stacks_of(
    entries: Seq<(u32, Entity)>,
    next: int,
    pairs: Seq<(int, int)>,
) -> Seq<(u32, Entity)> {
    Seq::new(
        pairs.len(),
        |k: int| ((next + k) as u32, merged(entries[pairs[k].0].1, entries[pairs[k].1].1)),
    )
}

/// The pairs are of different entries, which fit together.
pub open spec fn sound(
    entries: Seq<(u32, Entity)>,
    near: Seq<Vec<bool>>,
    max_stack: Seq<u16>,
    pairs: Seq<(int, int)>,
) -> bool {
    &&& forall|k: int|
        0 <= k < pairs.len() ==> 0 <= (#[trigger] pairs[k]).0 < pairs[k].1 < entries.len() && fit(
            entries,
            near,
            max_stack,
            pairs[k].0,
            pairs[k].1,
        )
    &&& forall|k: int|
        0 <= k < pairs.len() ==> !taken(pairs.take(k), (#[trigger] pairs[k]).0) && !taken(
            pairs.take(k),
            pairs[k].1,
        )
}

proof fn lemma_partner(
    entries: Seq<(u32, Entity)>,
    near: Seq<Vec<bool>>,
    max_stack: Seq<u16>,
    pairs: Seq<(int, int)>,
    i: int,
    j: int,
)
    ensures
        ({
            let p = partner(entries, near, max_stack, pairs, i, j);
            p >= entries.len() || (j <= p && !taken(pairs, p) && fit(
                entries,
                near,
                max_stack,
                i,
                p,
            ))
        }),
    decreases entries.len() - j,
{
    if j < entries.len() && !(!taken(pairs, j) && fit(entries, near, max_stack, i, j)) {
        lemma_partner(entries, near, max_stack, pairs, i, j + 1);
    }
}

/// No drop merges twice in one go, and no stack grows beyond its limit.
pub proof fn law_merges_are_sound(
    entries: Seq<(u32, Entity)>,
    near: Seq<Vec<bool>>,
    max_stack: Seq<u16>,
    n: nat,
)
    requires
        n <= entries.len(),
    ensures
        sound(entries, near, max_stack, pairing(entries, near, max_stack, n)),
        pairing(entries, near, max_stack, n).len() <= n,
    decreases n,
{
    if n > 0 {
        law_merges_are_sound(entries, near, max_stack, (n - 1) as nat);
        let before = pairing(entries, near, max_stack, (n - 1) as nat);
        let pairs = pairing(entries, near, max_stack, n);
        lemma_partner(entries, near, max_stack, before, n - 1, n as int);
        if pairs.len() > before.len() {
            assert forall|k: int| 0 <= k < pairs.len() implies !taken(
                pairs.take(k),
                (#[trigger] pairs[k]).0,
            ) && !taken(pairs.take(k), pairs[k].1) by {
                if k < before.len() {
                    assert(pairs.take(k) =~= before.take(k));
                    assert(pairs[k] == before[k]);
                } else {
                    assert(pairs.take(k) =~= before);
                }
            }
            assert forall|k: int| 0 <= k < pairs.len() implies 0 <= (#[trigger] pairs[k]).0
                < pairs[k].1 < entries.len() && fit(
                entries,
                near,
                max_stack,
                pairs[k].0,
                pairs[k].1,
            ) by {
                if k < before.len() {
                    assert(pairs[k] == before[k]);
                }
            }
        }
    }
}

proof fn lemma_survivors_less(
    entries: Seq<(u32, Entity)>,
    out: Set<int>,
    k: int,
    n: nat,
    item: ItemId,
)
    requires
        0 <= k < entries.len(),
        n <= entries.len(),
        !out.contains(k),
    ensures
        lying(survivors(entries, out.insert(k), n), item) == lying(
            survivors(entries, out, n),
            item,
        ) - (if k < n {
            amount(entries[k].1, item)
        } else {
            0
        }),
    decreases n,
{
    if n > 0 {
        let m = (n - 1) as nat;
        lemma_survivors_less(entries, out, k, m, item);
        lemma_lying_push(survivors(entries, out, m), entries[m as int], item);
        lemma_lying_push(survivors(entries, out.insert(k), m), entries[m as int], item);
    }
}

proof fn lemma_survivors_all(entries: Seq<(u32, Entity)>, n: nat)
    requires
        n <= entries.len(),
    ensures
        survivors(entries, Set::<int>::empty(), n) == entries.take(n as int),
    decreases n,
{
    if n > 0 {
        lemma_survivors_all(entries, (n - 1) as nat);
        assert(entries.take(n as int) =~= entries.take(n - 1).push(entries[n - 1]));
    } else {
        assert(entries.take(0) =~= seq![]);
    }
}

/// What merging leaves: the unpaired drops and the new stacks.
pub open spec fn after_merges(
    entries: Seq<(u32, Entity)>,
    next: int,
    pairs: Seq<(int, int)>,
) -> Seq<(u32, Entity)> {
    survivors(entries, members(pairs), entries.len()) + stacks_of(entries, next, pairs)
}

/// Merging keeps the items: as many of each kind lie about as before.
pub proof fn law_merging_keeps_items(
    entries: Seq<(u32, Entity)>,
    near: Seq<Vec<bool>>,
    max_stack: Seq<u16>,
    next: int,
    pairs: Seq<(int, int)>,
    item: ItemId,
)
    requires
        sound(entries, near, max_stack, pairs),
    ensures
        lying(after_merges(entries, next, pairs), item) == lying(entries, item),
    decreases pairs.len(),
{
    let all = entries.len();
    if pairs.len() == 0 {
        assert(members(pairs) =~= Set::<int>::empty());
        lemma_survivors_all(entries, all);
        assert(entries.take(all as int) =~= entries);
        assert(after_merges(entries, next, pairs) =~= entries);
    } else {
        let less = pairs.drop_last();
        let (i, j) = pairs.last();
        assert(pairs[pairs.len() - 1] == (i, j));
        assert(pairs.take(pairs.len() - 1) =~= less);
        assert forall|k: int| 0 <= k < less.len() implies !taken(
            less.take(k),
            (#[trigger] less[k]).0,
        ) && !taken(less.take(k), less[k].1) by {
            assert(less.take(k) =~= pairs.take(k));
            assert(less[k] == pairs[k]);
        }
        assert(sound(entries, near, max_stack, less)) by {
            assert forall|k: int| 0 <= k < less.len() implies 0 <= (#[trigger] less[k]).0
                < less[k].1 < entries.len() && fit(
                entries,
                near,
                max_stack,
                less[k].0,
                less[k].1,
            ) by {
                assert(less[k] == pairs[k]);
            }
        }
        law_merging_keeps_items(entries, near, max_stack, next, less, item);
        let was = members(less);
        assert(members(pairs) =~= was.insert(i).insert(j)) by {
            assert forall|k: int| taken(pairs, k) == (taken(less, k) || k == i || k == j) by {
                if taken(less, k) {
                    let m = choose|m: int|
                        0 <= m < less.len() && ((#[trigger] less[m]).0 == k || less[m].1 == k);
                    assert(pairs[m] == less[m]);
                }
                if taken(pairs, k) && k != i && k != j {
                    let m = choose|m: int|
                        0 <= m < pairs.len() && ((#[trigger] pairs[m]).0 == k || pairs[m].1
                            == k);
                    assert(less[m] == pairs[m]);
                }
            }
        }
        lemma_survivors_less(entries, was, i, all, item);
        lemma_survivors_less(entries, was.insert(i), j, all, item);
        let kept = survivors(entries, members(pairs), all);
        let stacks = stacks_of(entries, next, less);
        let last = ((next + less.len()) as u32, merged(entries[i].1, entries[j].1));
        assert(stacks_of(entries, next, pairs) =~= stacks.push(last));
        assert(kept + stacks.push(last) =~= (kept + stacks).push(last));
        lemma_lying_push(kept + stacks, last, item);
        lemma_lying_add(kept, stacks, item);
        lemma_lying_add(survivors(entries, was, all), stacks, item);
        assert(fit(entries, near, max_stack, i, j));
    }
}

proof fn lemma_lying_add(a: Seq<(u32, Entity)>, b: Seq<(u32, Entity)>, item: ItemId)
    ensures
        lying(a + b, item) == lying(a, item) + lying(b, item),
    decreases b.len(),
{
    if b.len() == 0 {
        assert(a + b =~= a);
    } else {
        lemma_lying_add(a, b.drop_last(), item);
        assert((a + b).drop_last() =~= a + b.drop_last());
    }
}

/// Which drops merge, as pairs of indices.
pub fn merge_plan(
    entries: &Vec<(u32, Entity)>,
    near: &Vec<Vec<bool>>,
    max_stack: &Vec<u16>,
) -> (plan: Vec<(usize, usize)>)
    requires
        near.len() == entries.len(),
        max_stack.len() == entries.len(),
        forall|i: int| 0 <= i < near.len() ==> (#[trigger] near@[i])@.len() == entries.len(),
    ensures
        plan@.len() == pairing(entries@, near@, max_stack@, entries@.len()).len(),
        forall|k: int|
            0 <= k < plan@.len() ==> ((#[trigger] plan@[k]).0 as int, plan@[k].1 as int)
                == pairing(entries@, near@, max_stack@, entries@.len())[k],
{
    let mut plan: Vec<(usize, usize)> = Vec::new();
    let ghost mut pairs: Seq<(int, int)> = seq![];
    let mut used: Vec<bool> = vec![false; entries.len()];
    let mut i: usize = 0;
    while i < entries.len()
        invariant
            i <= entries.len(),
            near.len() == entries.len(),
            max_stack.len() == entries.len(),
            forall|k: int| 0 <= k < near.len() ==> (#[trigger] near@[k])@.len() == entries.len(),
            used@.len() == entries.len(),
            pairs == pairing(entries@, near@, max_stack@, i as nat),
            plan@.len() == pairs.len(),
            forall|k: int|
                0 <= k < plan@.len() ==> ((#[trigger] plan@[k]).0 as int, plan@[k].1 as int)
                    == pairs[k],
            forall|k: int| 0 <= k < used@.len() ==> #[trigger] used@[k] == taken(pairs, k),
        decreases entries.len() - i,
    {
        if !used[i] {
            let mut j: usize = i + 1;
            let mut done: bool = false;
            while j < entries.len() && !done
                invariant
                    i < j <= entries.len(),
                    near.len() == entries.len(),
                    max_stack.len() == entries.len(),
                    forall|k: int|
                        0 <= k < near.len() ==> (#[trigger] near@[k])@.len() == entries.len(),
                    used@.len() == entries.len(),
                    forall|k: int| 0 <= k < used@.len() ==> #[trigger] used@[k] == taken(pairs, k),
                    !done ==> partner(entries@, near@, max_stack@, pairs, i as int, i + 1)
                        == partner(entries@, near@, max_stack@, pairs, i as int, j as int),
                    done ==> j < entries.len() && partner(
                        entries@,
                        near@,
                        max_stack@,
                        pairs,
                        i as int,
                        i + 1,
                    ) == j,
                decreases entries.len() - j + (if done {
                    0int
                } else {
                    1int
                }),
            {
                if !used[j] && near[i][j] && mergeable(
                    &entries[i].1,
                    &entries[j].1,
                    max_stack[i],
                ) {
                    done = true;
                } else {
                    j = j + 1;
                }
            }
            if done {
                let ghost before = pairs;
                plan.push((i, j));
                proof {
                    pairs = pairs.push((i as int, j as int));
                }
                used.set(i, true);
                used.set(j, true);
                proof {
                    assert(pairs[before.len() as int] == (i as int, j as int));
                    assert forall|k: int| 0 <= k < used@.len() implies #[trigger] used@[k]
                        == taken(pairs, k) by {
                        if taken(before, k) {
                            let m = choose|m: int|
                                0 <= m < before.len() && ((#[trigger] before[m]).0 == k
                                    || before[m].1 == k);
                            assert(pairs[m] == before[m]);
                        }
                        if taken(pairs, k) && k != i && k != j {
                            let m = choose|m: int|
                                0 <= m < pairs.len() && ((#[trigger] pairs[m]).0 == k
                                    || pairs[m].1 == k);
                            assert(pairs[m] == before[m]);
                        }
                    }
                }
            }
        }
        i = i + 1;
    }
    plan
}

/// One merge: the two numbers that go and the one that comes.
#[derive(Debug, Clone, Copy, PartialEq, Eq, Structural)]
pub struct Merge {
    pub first: u32,
    pub second: u32,
    pub stack: u32,
}

/// Puts drops of one item that lie close together into one stack each.
/// `near` says for each pair of entries whether they do, `max_stack` how much
/// of an entry's item one stack holds.
pub fn merge_item_drops(
    store: &mut EntityStore,
    near: &Vec<Vec<bool>>,
    max_stack: &Vec<u16>,
) -> (merges: Vec<Merge>)
    requires
        old(store).wf(),
        old(store).next_id + old(store).entries.len() <= u32::MAX,
        near.len() == old(store).entries.len(),
        max_stack.len() == old(store).entries.len(),
        forall|i: int|
            0 <= i < near.len() ==> (#[trigger] near@[i])@.len() == old(store).entries.len(),
    ensures
        final(store).wf(),
        ({
            let entries = old(store).entries@;
            let pairs = pairing(entries, near@, max_stack@, entries.len());
            &&& final(store).entries@ == after_merges(entries, old(store).next_id as int, pairs)
            &&& final(store).next_id == old(store).next_id + pairs.len()
            &&& merges@ == Seq::new(
                pairs.len(),
                |k: int|
                    Merge {
                        first: entries[pairs[k].0].0,
                        second: entries[pairs[k].1].0,
                        stack: (old(store).next_id + k) as u32,
                    },
            )
        }),
        forall|item: ItemId|
            #![trigger lying(final(store).entries@, item)]
            lying(final(store).entries@, item) == lying(old(store).entries@, item),
{
    let plan = merge_plan(&store.entries, near, max_stack);
    let ghost entries = store.entries@;
    let ghost next = store.next_id;
    let ghost pairs = pairing(entries, near@, max_stack@, entries.len());
    proof {
        law_merges_are_sound(entries, near@, max_stack@, entries.len());
        assert forall|item: ItemId| #[trigger]
            lying(after_merges(entries, next as int, pairs), item) == lying(entries, item) by {
            law_merging_keeps_items(entries, near@, max_stack@, next as int, pairs, item);
        }
    }
    let mut used: Vec<bool> = vec![false; store.entries.len()];
    let mut i: usize = 0;
    assert(pairs.take(0) =~= seq![]);
    while i < plan.len()
        invariant
            i <= plan.len(),
            used@.len() == entries.len(),
            plan@.len() == pairs.len(),
            sound(entries, near@, max_stack@, pairs),
            forall|k: int|
                0 <= k < plan@.len() ==> ((#[trigger] plan@[k]).0 as int, plan@[k].1 as int)
                    == pairs[k],
            forall|k: int|
                0 <= k < used@.len() ==> #[trigger] used@[k] == taken(pairs.take(i as int), k),
        decreases plan.len() - i,
    {
        let (a, b): (usize, usize) = plan[i];
        assert((a as int, b as int) == pairs[i as int]);
        let ghost was = pairs.take(i as int);
        let ghost now = pairs.take(i + 1);
        used.set(a, true);
        used.set(b, true);
        proof {
            assert(now[i as int] == (a as int, b as int));
            assert forall|k: int| 0 <= k < used@.len() implies #[trigger] used@[k] == taken(
                now,
                k,
            ) by {
                if taken(was, k) {
                    let m = choose|m: int|
                        0 <= m < was.len() && ((#[trigger] was[m]).0 == k || was[m].1 == k);
                    assert(now[m] == was[m]);
                }
                if taken(now, k) && k != a && k != b {
                    let m = choose|m: int|
                        0 <= m < now.len() && ((#[trigger] now[m]).0 == k || now[m].1 == k);
                    assert(was[m] == now[m]);
                }
            }
        }
        i = i + 1;
    }
    assert(pairs.take(pairs.len() as int) =~= pairs);
    let mut kept: Vec<(u32, Entity)> = Vec::new();
    let mut n: usize = 0;
    while n < store.entries.len()
        invariant
            n <= store.entries.len(),
            store.entries@ == entries,
            store.next_id == next,
            store.wf(),
            used@.len() == entries.len(),
            forall|k: int| 0 <= k < used@.len() ==> #[trigger] used@[k] == taken(pairs, k),
            kept@ == survivors(entries, members(pairs), n as nat),
            numbered(kept@, next as int),
            forall|k: int|
                0 <= k < kept@.len() && n < entries.len() ==> (#[trigger] kept@[k]).0
                    < entries[n as int].0,
            kept@.len() <= n,
        decreases store.entries.len() - n,
    {
        if !used[n] {
            kept.push(store.entries[n]);
        }
        n = n + 1;
    }
    let ghost left = kept@;
    let mut merges: Vec<Merge> = Vec::new();
    let mut m: usize = 0;
    assert(kept@ =~= left + stacks_of(entries, next as int, pairs.take(0)));
    while m < plan.len()
        invariant
            m <= plan.len(),
            store.entries@ == entries,
            store.next_id == next + m,
            next + entries.len() <= u32::MAX,
            pairs.len() <= entries.len(),
            plan@.len() == pairs.len(),
            sound(entries, near@, max_stack@, pairs),
            forall|k: int|
                0 <= k < plan@.len() ==> ((#[trigger] plan@[k]).0 as int, plan@[k].1 as int)
                    == pairs[k],
            kept@ == left + stacks_of(entries, next as int, pairs.take(m as int)),
            numbered(kept@, next + m),
            merges@ == Seq::new(
                m as nat,
                |k: int|
                    Merge {
                        first: entries[pairs[k].0].0,
                        second: entries[pairs[k].1].0,
                        stack: (next + k) as u32,
                    },
            ),
        decreases plan.len() - m,
    {
        let (a, b): (usize, usize) = plan[m];
        assert((a as int, b as int) == pairs[m as int]);
        assert(fit(entries, near@, max_stack@, a as int, b as int));
        let (ida, ea): (u32, Entity) = store.entries[a];
        let (idb, eb): (u32, Entity) = store.entries[b];
        let stack = merge_two(ea, eb, Ghost(max_stack@[a as int] as int));
        let id: u32 = store.next_id;
        store.next_id = id + 1;
        kept.push((id, stack));
        merges.push(Merge { first: ida, second: idb, stack: id });
        proof {
            assert(stacks_of(entries, next as int, pairs.take(m + 1)) =~= stacks_of(
                entries,
                next as int,
                pairs.take(m as int),
            ).push((id, stack)));
            assert(kept@ =~= left + stacks_of(entries, next as int, pairs.take(m + 1)));
        }
        m = m + 1;
    }
    store.entries = kept;
    assert(pairs.take(m as int) =~= pairs);
    assert(store.entries@ == after_merges(entries, next as int, pairs));
    merges
}

/// The stack that two fitting drops make.
fn merge_two(a: Entity, b: Entity, Ghost(max_stack): Ghost<int>) -> (r: Entity)
    requires
        may_merge(a, b, max_stack),
        max_stack <= u16::MAX,
    ensures
        r == merged(a, b),
{
    match (a.kind, b.kind) {
        (
            EntityKind::ItemDrop { item, count: m },
            EntityKind::ItemDrop { item: _, count: n },
        ) => {
            let mut r = a;
            r.kind = EntityKind::ItemDrop { item, count: m + n };
            if b.spawn_tick < a.spawn_tick {
                r.spawn_tick = b.spawn_tick;
            }
            r.awake = true;
            r
        },
        _ => a,
    }
}

fn mergeable(a: &Entity, b: &Entity, max_stack: u16) -> (r: bool)
    ensures
        r == may_merge(*a, *b, max_stack as int),
{
    match (a.kind, b.kind) {
        (
            EntityKind::ItemDrop { item: i, count: m },
            EntityKind::ItemDrop { item: j, count: n },
        ) => (a.awake || b.awake) && i == j && m as u32 + n as u32 <= max_stack as u32,
        _ => false,
    }
}

// ---- Picking up ------------------------------------------------------------

/// The drops of the first `n` entries that may be picked up.
pub open spec fn armed(entries: Seq<(u32, Entity)>, tick: u64, n: nat) -> Seq<u32>
    decreases n,
{
    if n == 0 {
        seq![]
    } else {
        let before = armed(entries, tick, (n - 1) as nat);
        let e = entries[n - 1].1;
        if e.kind is ItemDrop && tick >= e.spawn_tick && tick - e.spawn_tick >= ITEM_ARM_TICKS {
            before.push(entries[n - 1].0)
        } else {
            before
        }
    }
}

/// The drops that may be picked up, in the order of their numbers.
pub fn armed_drops(store: &EntityStore, tick: u64) -> (ids: Vec<u32>)
    ensures
        ids@ == armed(store.entries@, tick, store.entries@.len()),
{
    let mut ids: Vec<u32> = Vec::new();
    let mut i: usize = 0;
    while i < store.entries.len()
        invariant
            i <= store.entries.len(),
            ids@ == armed(store.entries@, tick, i as nat),
        decreases store.entries.len() - i,
    {
        let (id, e): (u32, Entity) = store.entries[i];
        match e.kind {
            EntityKind::ItemDrop { .. } => {
                if tick.saturating_sub(e.spawn_tick) >= ITEM_ARM_TICKS {
                    ids.push(id);
                }
            },
            _ => {},
        }
        i = i + 1;
    }
    ids
}

/// Player `k` is the nearest in range: none is nearer, and none as near has a
/// lower number. A distance is given for players in range only, as a number
/// that grows with it.
pub open spec fn nearest(players: Seq<Player>, distance: Seq<Option<u32>>, k: int) -> bool {
    &&& 0 <= k < players.len()
    &&& distance[k] is Some
    &&& forall|i: int|
        0 <= i < players.len() && i != k && distance[i] is Some ==> distance[k]->Some_0
            < (#[trigger] distance[i])->Some_0 || (distance[k]->Some_0 == distance[i]->Some_0
            && players[k].id < players[i].id)
}

pub open spec fn none_in_range(distance: Seq<Option<u32>>) -> bool {
    forall|i: int| 0 <= i < distance.len() ==> #[trigger] distance[i] is None
}

/// The nearest player in range.
pub fn nearest_player(players: &Vec<Player>, distance: &Vec<Option<u32>>) -> (r: Option<usize>)
    requires
        distance.len() == players.len(),
        distinct_ids(players@),
    ensures
        match r {
            Some(k) => nearest(players@, distance@, k as int),
            None => none_in_range(distance@),
        },
{
    let mut best: Option<usize> = None;
    let mut i: usize = 0;
    while i < players.len()
        invariant
            i <= players.len(),
            distance.len() == players.len(),
            distinct_ids(players@),
            match best {
                Some(k) => {
                    &&& k < i
                    &&& distance@[k as int] is Some
                    &&& forall|m: int|
                        0 <= m < i && m != k && distance@[m] is Some
                            ==> distance@[k as int]->Some_0 < (#[trigger] distance@[m])->Some_0 || (
                        distance@[k as int]->Some_0 == distance@[m]->Some_0
                            && players@[k as int].id < players@[m].id)
                },
                None => forall|m: int| 0 <= m < i ==> #[trigger] distance@[m] is None,
            },
        decreases players.len() - i,
    {
        match distance[i] {
            Some(d) => match best {
                None => {
                    best = Some(i);
                },
                Some(k) => {
                    match distance[k] {
                        Some(bd) => {
                            assert(players@[k as int].id != players@[i as int].id);
                            if d < bd || (d == bd && players[i].id < players[k].id) {
                                best = Some(i);
                            }
                        },
                        None => {},
                    }
                },
            },
            None => {},
        }
        i = i + 1;
    }
    best
}

/// What came of a pickup.
#[derive(Debug)]
pub struct Pickup {
    /// Index of the player.
    pub by: usize,
    /// How many were taken.
    pub taken: u16,
    /// The slots that changed.
    pub deltas: Vec<SlotDelta>,
    /// What the player holds changed.
    pub held_changed: bool,
    /// Number of the drop that the rest became.
    pub rest: Option<u32>,
}

/// The players are the same but for what player `k` carries.
pub open spec fn only_inventory(before: Seq<Player>, after: Seq<Player>, k: int) -> bool {
    &&& after.len() == before.len()
    &&& 0 <= k < before.len()
    &&& forall|i: int| 0 <= i < before.len() && i != k ==> #[trigger] after[i] == before[i]
    &&& after[k] == (Player { inventory: after[k].inventory, ..before[k] })
}

/// The player at `k` takes the drop at index `e`: as much as there is room
/// for; the rest becomes a new drop of the same age.
pub open spec fn picked(
    before: Seq<Player>,
    after: Seq<Player>,
    entries: Seq<(u32, Entity)>,
    next: int,
    e: int,
    k: int,
    max_stack: int,
    left: Seq<(u32, Entity)>,
    rest_body: Body,
) -> bool {
    let drop = entries[e].1;
    let item = drop.kind->item;
    let count = drop.kind->count as int;
    let over = leftover(before[k].inventory@, item, count, max_stack, ARMOR_START as int);
    &&& only_inventory(before, after, k)
    &&& over < count
    &&& with_items(
        before[k].inventory@,
        after[k].inventory@,
        item,
        count,
        max_stack,
        ARMOR_START as int,
    )
    &&& left == (if over > 0 {
        entries.remove(e).push(
            (
                next as u32,
                Entity {
                    body: rest_body,
                    kind: EntityKind::ItemDrop { item, count: over as u16 },
                    spawn_tick: drop.spawn_tick,
                    awake: true,
                },
            ),
        )
    } else {
        entries.remove(e)
    })
}

/// There is room for some of `count` items in what player `k` carries.
pub open spec fn has_room(
    players: Seq<Player>,
    k: int,
    item: ItemId,
    count: int,
    max_stack: int,
) -> bool {
    leftover(players[k].inventory@, item, count, max_stack, ARMOR_START as int) < count
}

/// The distances of the players in range that have room for some of the drop.
pub open spec fn takers(
    players: Seq<Player>,
    distance: Seq<Option<u32>>,
    drop: Entity,
    max_stack: int,
) -> Seq<Option<u32>> {
    Seq::new(
        players.len(),
        |k: int|
            if has_room(players, k, drop.kind->item, drop.kind->count as int, max_stack) {
                distance[k]
            } else {
                None
            },
    )
}

/// Finds out which of the players in range have room.
fn find_takers(
    players: &Vec<Player>,
    distance: &Vec<Option<u32>>,
    item: ItemId,
    count: u16,
    max_stack: u16,
) -> (d: Vec<Option<u32>>)
    requires
        distance.len() == players.len(),
        max_stack >= 1,
        equipped(players@),
    ensures
        d.len() == players.len(),
        forall|k: int|
            0 <= k < d.len() ==> #[trigger] d@[k] == (if has_room(
                players@,
                k,
                item,
                count as int,
                max_stack as int,
            ) {
                distance@[k]
            } else {
                None
            }),
{
    let mut d: Vec<Option<u32>> = Vec::new();
    let mut i: usize = 0;
    while i < players.len()
        invariant
            i <= players.len(),
            distance.len() == players.len(),
            max_stack >= 1,
            equipped(players@),
            d.len() == i,
            forall|k: int|
                0 <= k < i ==> #[trigger] d@[k] == (if has_room(
                    players@,
                    k,
                    item,
                    count as int,
                    max_stack as int,
                ) {
                    distance@[k]
                } else {
                    None
                }),
        decreases players.len() - i,
    {
        assert(players@[i as int].inventory@.len() >= ARMOR_START);
        let mut filled = copy_slots(&players[i].inventory);
        let over: u16 = add_items(&mut filled, item, count, max_stack, ARMOR_START);
        d.push(
            if over < count {
                distance[i]
            } else {
                None
            },
        );
        i = i + 1;
    }
    d
}

/// What an offer of the drop `id` leads to.
pub open spec fn offered(
    before: Seq<Player>,
    after: Seq<Player>,
    store: EntityStore,
    left: EntityStore,
    id: u32,
    distance: Seq<Option<u32>>,
    max_stack: int,
    rest_body: Body,
    r: Option<Pickup>,
) -> bool {
    match r {
        None => {
            &&& left == store
            &&& after == before
            &&& !has_id(store.entries@, id) || exists|e: int|
                #![trigger is_at(store.entries@, id, e)]
                is_at(store.entries@, id, e) && none_in_range(
                    takers(before, distance, store.entries@[e].1, max_stack),
                )
        },
        Some(p) => {
            &&& exists|e: int|
                #![trigger is_at(store.entries@, id, e)]
                {
                    &&& is_at(store.entries@, id, e)
                    &&& nearest(
                        before,
                        takers(before, distance, store.entries@[e].1, max_stack),
                        p.by as int,
                    )
                    &&& picked(
                        before,
                        after,
                        store.entries@,
                        store.next_id as int,
                        e,
                        p.by as int,
                        max_stack,
                        left.entries@,
                        rest_body,
                    )
                    &&& p.taken == store.entries@[e].1.kind->count - leftover(
                        before[p.by as int].inventory@,
                        store.entries@[e].1.kind->item,
                        store.entries@[e].1.kind->count as int,
                        max_stack,
                        ARMOR_START as int,
                    )
                    &&& p.rest == (if p.taken < store.entries@[e].1.kind->count {
                        Some(store.next_id)
                    } else {
                        None
                    })
                }
            &&& left.next_id == store.next_id + (if p.rest is Some {
                1int
            } else {
                0
            })
            &&& p.deltas@ == differences(
                before[p.by as int].inventory@,
                after[p.by as int].inventory@,
                before[p.by as int].inventory@.len(),
            )
            &&& p.held_changed == touches_hand(
                p.deltas@,
                before[p.by as int].hands.held_slot as int,
            )
        },
    }
}

/// All entities named `id` are drops.
pub open spec fn is_drop(entries: Seq<(u32, Entity)>, id: u32) -> bool {
    forall|e: int| #[trigger] is_at(entries, id, e) ==> entries[e].1.kind is ItemDrop
}

/// Every player has room for equipment.
pub open spec fn equipped(players: Seq<Player>) -> bool {
    forall|i: int| 0 <= i < players.len() ==> (#[trigger] players[i]).inventory@.len() >= ARMOR_START
}

/// Offers a drop to the nearest player in range who has room for some of it.
pub fn pickup_item_drop(
    store: &mut EntityStore,
    players: &mut Vec<Player>,
    id: u32,
    distance: &Vec<Option<u32>>,
    max_stack: u16,
    rest_body: Body,
) -> (r: Option<Pickup>)
    requires
        old(store).wf(),
        old(store).next_id < u32::MAX,
        distance.len() == old(players).len(),
        distinct_ids(old(players)@),
        max_stack >= 1,
        equipped(old(players)@),
        is_drop(old(store).entries@, id),
    ensures
        final(store).wf(),
        offered(
            old(players)@,
            final(players)@,
            *old(store),
            *final(store),
            id,
            distance@,
            max_stack as int,
            rest_body,
            r,
        ),
{
    let e: usize = match store.find(id) {
        Some(e) => e,
        None => {
            return None;
        },
    };
    assert(is_at(store.entries@, id, e as int));
    let entity: Entity = store.entries[e].1;
    match entity.kind {
        EntityKind::ItemDrop { item, count } => {
            let near = find_takers(players, distance, item, count, max_stack);
            assert(near@ =~= takers(players@, distance@, entity, max_stack as int));
            let by: usize = match nearest_player(players, &near) {
                Some(k) => k,
                None => {
                    return None;
                },
            };
            let mut filled = copy_slots(&players[by].inventory);
            let over: u16 = add_items(&mut filled, item, count, max_stack, ARMOR_START);
            let deltas = slot_deltas(&players[by].inventory, &filled);
            let held = held_changed(&deltas, players[by].hands.held_slot);
            players[by].inventory = filled;
            let ghost entries = store.entries@;
            let gone = store.entries.remove(e);
            proof {
                assert forall|i: int| 0 <= i < store.entries@.len() implies #[trigger] store.entries@[i]
                    == entries[if i < e {
                    i
                } else {
                    i + 1
                }] by {}
            }
            let rest: Option<u32> = if over > 0 {
                Some(
                    store.insert(
                        Entity {
                            body: rest_body,
                            kind: EntityKind::ItemDrop { item, count: over },
                            spawn_tick: entity.spawn_tick,
                            awake: true,
                        },
                    ),
                )
            } else {
                None
            };
            Some(Pickup { by, taken: count - over, deltas, held_changed: held, rest })
        },
        _ => None,
    }
}

/// A drop that somebody in range has room for is taken, by the nearest of
/// them; those nearer without room do not keep it from them.
pub proof fn law_room_decides(
    before: Seq<Player>,
    after: Seq<Player>,
    store: EntityStore,
    left: EntityStore,
    id: u32,
    distance: Seq<Option<u32>>,
    max_stack: int,
    rest_body: Body,
    r: Option<Pickup>,
    e: int,
    k: int,
)
    requires
        offered(before, after, store, left, id, distance, max_stack, rest_body, r),
        store.wf(),
        distance.len() == before.len(),
        is_at(store.entries@, id, e),
        0 <= k < before.len(),
        distance[k] is Some,
        has_room(
            before,
            k,
            store.entries@[e].1.kind->item,
            store.entries@[e].1.kind->count as int,
            max_stack,
        ),
    ensures
        r is Some,
        distance[r->Some_0.by as int] is Some,
        distance[r->Some_0.by as int]->Some_0 <= distance[k]->Some_0,
        has_room(
            before,
            r->Some_0.by as int,
            store.entries@[e].1.kind->item,
            store.entries@[e].1.kind->count as int,
            max_stack,
        ),
{
    let near = takers(before, distance, store.entries@[e].1, max_stack);
    assert(near[k] == distance[k]);
    assert forall|f: int| #[trigger] is_at(store.entries@, id, f) implies f == e by {
        if f < e {
            assert(store.entries@[f].0 < store.entries@[e].0);
        } else if e < f {
            assert(store.entries@[e].0 < store.entries@[f].0);
        }
    }
    if r is Some {
        let by = r->Some_0.by as int;
        assert(near[by] == near[by]);
    }
}

/// Picking up keeps the items: what the drop loses, the player gains.
pub proof fn law_pickup_keeps_items(
    before: Seq<Player>,
    after: Seq<Player>,
    entries: Seq<(u32, Entity)>,
    next: int,
    e: int,
    k: int,
    max_stack: int,
    left: Seq<(u32, Entity)>,
    rest_body: Body,
    item: ItemId,
)
    requires
        picked(before, after, entries, next, e, k, max_stack, left, rest_body),
        0 <= e < entries.len(),
        entries[e].1.kind is ItemDrop,
        1 <= max_stack <= u16::MAX,
        before[k].inventory@.len() >= ARMOR_START,
    ensures
        lying(left, item) + item_count(after[k].inventory@, item) == lying(entries, item)
            + item_count(before[k].inventory@, item),
{
    let drop = entries[e].1;
    let count = drop.kind->count as int;
    law_add_keeps_count(
        before[k].inventory@,
        after[k].inventory@,
        drop.kind->item,
        count,
        max_stack,
        ARMOR_START as int,
        item,
    );
    lemma_lying_remove(entries, e, item);
    let over = leftover(
        before[k].inventory@,
        drop.kind->item,
        count,
        max_stack,
        ARMOR_START as int,
    );
    if over > 0 {
        lemma_lying_push(entries.remove(e), left.last(), item);
    }
}

/// A drop to be offered, and how far each player is from it.
#[derive(Debug)]
pub struct Offer {
    pub id: u32,
    pub distance: Vec<Option<u32>>,
    pub max_stack: u16,
    /// Where a rest would lie.
    pub rest_body: Body,
}

/// What everyone carries of `item`.
pub open spec fn carried_by_all(players: Seq<Player>, item: ItemId) -> int
    decreases players.len(),
{
    if players.len() == 0 {
        0
    } else {
        carried_by_all(players.drop_last(), item) + item_count(players.last().inventory@, item)
    }
}

proof fn lemma_carried_change(before: Seq<Player>, after: Seq<Player>, k: int, item: ItemId)
    requires
        only_inventory(before, after, k),
    ensures
        carried_by_all(after, item) - carried_by_all(before, item) == item_count(
            after[k].inventory@,
            item,
        ) - item_count(before[k].inventory@, item),
    decreases before.len(),
{
    let (b, a) = (before.drop_last(), after.drop_last());
    if k == before.len() - 1 {
        assert(a =~= b);
    } else {
        assert(after.last() == after[before.len() - 1]);
        assert(b[k] == before[k]);
        assert(a[k] == after[k]);
        lemma_carried_change(b, a, k, item);
    }
}

/// An offer keeps the items, and the players' numbers and slots.
proof fn lemma_offer_keeps(
    before: Seq<Player>,
    after: Seq<Player>,
    store: EntityStore,
    left: EntityStore,
    id: u32,
    distance: Seq<Option<u32>>,
    max_stack: int,
    rest_body: Body,
    r: Option<Pickup>,
    item: ItemId,
)
    requires
        offered(before, after, store, left, id, distance, max_stack, rest_body, r),
        equipped(before),
        distinct_ids(before),
        is_drop(store.entries@, id),
        1 <= max_stack <= u16::MAX,
    ensures
        lying(left.entries@, item) + carried_by_all(after, item) == lying(store.entries@, item)
            + carried_by_all(before, item),
        equipped(after),
        distinct_ids(after),
        after.len() == before.len(),
{
    if r is Some {
        let p = r->Some_0;
        let k = p.by as int;
        let e = choose|e: int|
            #![trigger is_at(store.entries@, id, e)]
            is_at(store.entries@, id, e) && picked(
                before,
                after,
                store.entries@,
                store.next_id as int,
                e,
                k,
                max_stack,
                left.entries@,
                rest_body,
            );
        law_pickup_keeps_items(
            before,
            after,
            store.entries@,
            store.next_id as int,
            e,
            k,
            max_stack,
            left.entries@,
            rest_body,
            item,
        );
        lemma_carried_change(before, after, k, item);
        assert forall|i: int| 0 <= i < after.len() implies (#[trigger] after[i]).inventory@.len()
            >= ARMOR_START by {
            assert(before[i].inventory@.len() >= ARMOR_START);
        }
        assert forall|i: int, j: int| 0 <= i < j < after.len() implies (#[trigger] after[i]).id != (
        #[trigger] after[j]).id by {
            assert(before[i].id != before[j].id);
        }
    }
}

/// The states between offers: each offer leads from one to the next.
pub open spec fn offers_made(
    rosters: Seq<Seq<Player>>,
    stores: Seq<EntityStore>,
    offers: Seq<Offer>,
    results: Seq<Option<Pickup>>,
) -> bool {
    &&& rosters.len() == offers.len() + 1
    &&& stores.len() == offers.len() + 1
    &&& results.len() == offers.len()
    &&& forall|i: int|
        0 <= i < offers.len() ==> offered(
            rosters[i],
            rosters[i + 1],
            stores[i],
            stores[i + 1],
            (#[trigger] offers[i]).id,
            offers[i].distance@,
            offers[i].max_stack as int,
            offers[i].rest_body,
            results[i],
        )
}

/// Offers drops one after the other. What falls to the ground anew is not
/// offered again. No item is lost or made.
pub fn pickup_item_drops(store: &mut EntityStore, players: &mut Vec<Player>, offers: &Vec<Offer>) -> (r:
    Vec<Option<Pickup>>)
    requires
        old(store).wf(),
        old(store).next_id + offers.len() <= u32::MAX,
        equipped(old(players)@),
        distinct_ids(old(players)@),
        forall|i: int|
            0 <= i < offers.len() ==> (#[trigger] offers@[i]).distance@.len() == old(players).len()
                && offers@[i].max_stack >= 1 && offers@[i].id < old(store).next_id && is_drop(
                old(store).entries@,
                offers@[i].id,
            ),
    ensures
        final(store).wf(),
        exists|rosters: Seq<Seq<Player>>, stores: Seq<EntityStore>|
            {
                &&& #[trigger] offers_made(rosters, stores, offers@, r@)
                &&& rosters[0] == old(players)@
                &&& rosters.last() == final(players)@
                &&& stores[0] == *old(store)
                &&& stores.last() == *final(store)
            },
        forall|item: ItemId|
            #![trigger lying(final(store).entries@, item)]
            lying(final(store).entries@, item) + carried_by_all(final(players)@, item) == lying(
                old(store).entries@,
                item,
            ) + carried_by_all(old(players)@, item),
{
    let ghost start = *store;
    let mut r: Vec<Option<Pickup>> = Vec::new();
    let ghost mut rosters: Seq<Seq<Player>> = seq![players@];
    let ghost mut stores: Seq<EntityStore> = seq![*store];
    let mut i: usize = 0;
    assert(offers@.take(0) =~= seq![]);
    while i < offers.len()
        invariant
            i <= offers.len(),
            start == *old(store),
            start.wf(),
            store.wf(),
            store.next_id <= start.next_id + i,
            start.next_id + offers.len() <= u32::MAX,
            start.next_id <= store.next_id,
            players@.len() == old(players)@.len(),
            equipped(players@),
            distinct_ids(players@),
            forall|k: int|
                0 <= k < offers.len() ==> (#[trigger] offers@[k]).distance@.len() == old(
                    players,
                ).len() && offers@[k].max_stack >= 1 && offers@[k].id < start.next_id && is_drop(
                    start.entries@,
                    offers@[k].id,
                ),
            forall|e: int|
                0 <= e < store.entries@.len() && (#[trigger] store.entries@[e]).0 < start.next_id
                    ==> start.entries@.contains(store.entries@[e]),
            offers_made(rosters, stores, offers@.take(i as int), r@),
            rosters[0] == old(players)@,
            rosters.last() == players@,
            stores[0] == start,
            stores.last() == *store,
            forall|item: ItemId|
                #![trigger lying(store.entries@, item)]
                lying(store.entries@, item) + carried_by_all(players@, item) == lying(
                    start.entries@,
                    item,
                ) + carried_by_all(old(players)@, item),
        decreases offers.len() - i,
    {
        let ghost before = players@;
        let ghost was = *store;
        let id: u32 = offers[i].id;
        let max_stack: u16 = offers[i].max_stack;
        let rest_body: Body = offers[i].rest_body;
        proof {
            assert(offers@[i as int].id == id);
            assert forall|e: int| #[trigger] is_at(was.entries@, id, e) implies
                was.entries@[e].1.kind is ItemDrop by {
                assert(start.entries@.contains(was.entries@[e]));
                let n = start.entries@.index_of(was.entries@[e]);
                assert(is_at(start.entries@, id, n));
            }
        }
        let got = pickup_item_drop(store, players, id, &offers[i].distance, max_stack, rest_body);
        proof {
            assert forall|item: ItemId|
                #![trigger lying(store.entries@, item)]
                lying(store.entries@, item) + carried_by_all(players@, item) == lying(
                    start.entries@,
                    item,
                ) + carried_by_all(old(players)@, item) by {
                lemma_offer_keeps(
                    before,
                    players@,
                    was,
                    *store,
                    id,
                    offers@[i as int].distance@,
                    max_stack as int,
                    rest_body,
                    got,
                    item,
                );
                assert(lying(was.entries@, item) + carried_by_all(before, item) == lying(
                    start.entries@,
                    item,
                ) + carried_by_all(old(players)@, item));
            }
            lemma_offer_keeps(
                before,
                players@,
                was,
                *store,
                id,
                offers@[i as int].distance@,
                max_stack as int,
                rest_body,
                got,
                ItemId::Gel,
            );
            assert forall|e: int|
                0 <= e < store.entries@.len() && (#[trigger] store.entries@[e]).0
                    < start.next_id implies start.entries@.contains(store.entries@[e]) by {
                lemma_offer_entries(
                    before,
                    players@,
                    was,
                    *store,
                    id,
                    offers@[i as int].distance@,
                    max_stack as int,
                    rest_body,
                    got,
                    e,
                );
            }
            let old_rosters = rosters;
            let old_stores = stores;
            rosters = rosters.push(players@);
            stores = stores.push(*store);
            let some = offers@.take(i + 1);
            let results = r@.push(got);
            assert forall|k: int| 0 <= k < some.len() implies offered(
                rosters[k],
                rosters[k + 1],
                stores[k],
                stores[k + 1],
                (#[trigger] some[k]).id,
                some[k].distance@,
                some[k].max_stack as int,
                some[k].rest_body,
                results[k],
            ) by {
                if k < i {
                    assert(offers@.take(i as int)[k] == some[k]);
                    assert(rosters[k] == old_rosters[k]);
                    assert(rosters[k + 1] == old_rosters[k + 1]);
                    assert(stores[k] == old_stores[k]);
                    assert(stores[k + 1] == old_stores[k + 1]);
                } else {
                    assert(some[k] == offers@[i as int]);
                }
            }
        }
        r.push(got);
        i = i + 1;
    }
    assert(offers@.take(offers@.len() as int) =~= offers@);
    r
}

/// An entity after an offer was there before, or is the rest under a new
/// number.
proof fn lemma_offer_entries(
    before: Seq<Player>,
    after: Seq<Player>,
    store: EntityStore,
    left: EntityStore,
    id: u32,
    distance: Seq<Option<u32>>,
    max_stack: int,
    rest_body: Body,
    r: Option<Pickup>,
    e: int,
)
    requires
        offered(before, after, store, left, id, distance, max_stack, rest_body, r),
        0 <= e < left.entries@.len(),
    ensures
        left.entries@[e].0 == store.next_id || store.entries@.contains(left.entries@[e]),
{
    if r is Some {
        let k = r->Some_0.by as int;
        let m = choose|m: int|
            #![trigger is_at(store.entries@, id, m)]
            is_at(store.entries@, id, m) && picked(
                before,
                after,
                store.entries@,
                store.next_id as int,
                m,
                k,
                max_stack,
                left.entries@,
                rest_body,
            );
        let rest = store.entries@.remove(m);
        if e < rest.len() {
            assert(left.entries@[e] == rest[e]);
            assert(rest[e] == store.entries@[if e < m {
                e
            } else {
                e + 1
            }]);
        }
    } else {
        assert(left.entries@[e] == store.entries@[e]);
    }
}

// ---- What becomes of things that lie around --------------------------------

/// A drop is gone after ten minutes, and destroyed where it burns; nothing but
/// drops goes this way.
pub proof fn law_drops_last_ten_minutes(e: Entity, tick: u64, burns: bool)
    requires
        tick >= e.spawn_tick,
    ensures
        !(e.kind is ItemDrop) ==> fate(e, tick, burns) is None,
        e.kind is ItemDrop && tick >= e.spawn_tick + 10 * 60 * 60 ==> fate(e, tick, burns)
            == Some(DespawnReason::Despawned),
        e.kind is ItemDrop && tick < e.spawn_tick + 10 * 60 * 60 && burns ==> fate(e, tick, burns)
            == Some(DespawnReason::Killed),
        tick < e.spawn_tick + 10 * 60 * 60 && !burns ==> fate(e, tick, burns) is None,
{
}

/// A step moves drops and wakes those that moved; it changes nothing else of
/// them, and of nothing else anything.
pub proof fn law_steps_move_drops(e: Entity, s: DropStep)
    ensures
        stepped(e, s).kind == e.kind && stepped(e, s).spawn_tick == e.spawn_tick,
        e.kind is ItemDrop ==> stepped(e, s).body == s.body && (stepped(e, s).awake <==> e.awake
            || s.moved),
        !(e.kind is ItemDrop) ==> stepped(e, s) == e,
{
}

/// What is in a chunk is told there, in order, and nothing from elsewhere.
pub proof fn law_chunks_show_their_own(entries: Seq<(u32, Entity)>, c: (u32, u32), n: nat)
    requires
        n <= entries.len(),
    ensures
        in_chunk(entries, c, n) == entries.take(n as int).filter(
            |e: (u32, Entity)| e.1.body.chunk == c,
        ),
    decreases n,
{
    reveal(Seq::filter);
    if n > 0 {
        law_chunks_show_their_own(entries, c, (n - 1) as nat);
        assert(entries.take(n as int).drop_last() =~= entries.take(n - 1));
    }
    assert(in_chunk(entries, c, n) =~= entries.take(n as int).filter(
        |e: (u32, Entity)| e.1.body.chunk == c,
    ));
}

/// Players hear of what stirs in their chunks, and of that alone.
pub proof fn law_what_stirs_is_told(
    entries: Seq<(u32, Entity)>,
    chunks: Seq<(u32, u32)>,
    n: nat,
)
    requires
        n <= entries.len(),
    ensures
        news_in(entries, chunks, n) == entries.take(n as int).filter(
            |e: (u32, Entity)| e.1.awake && chunks.contains(e.1.body.chunk),
        ),
    decreases n,
{
    reveal(Seq::filter);
    if n > 0 {
        law_what_stirs_is_told(entries, chunks, (n - 1) as nat);
        assert(entries.take(n as int).drop_last() =~= entries.take(n - 1));
    }
    assert(news_in(entries, chunks, n) =~= entries.take(n as int).filter(
        |e: (u32, Entity)| e.1.awake && chunks.contains(e.1.body.chunk),
    ));
}

/// Two drops become one if they are of one item, one of them stirs, and they
/// fit one stack; the one has all of the items and the age of the older.
pub proof fn law_like_drops_merge(a: Entity, b: Entity, max_stack: int)
    requires
        max_stack <= u16::MAX,
    ensures
        may_merge(a, b, max_stack) <==> {
            &&& a.kind is ItemDrop && b.kind is ItemDrop
            &&& a.kind->item == b.kind->item
            &&& a.kind->ItemDrop_count + b.kind->ItemDrop_count <= max_stack
            &&& a.awake || b.awake
        },
        may_merge(a, b, max_stack) ==> {
            let m = merged(a, b);
            &&& m.kind is ItemDrop
            &&& m.kind->item == a.kind->item
            &&& m.kind->ItemDrop_count == a.kind->ItemDrop_count + b.kind->ItemDrop_count
            &&& m.spawn_tick <= a.spawn_tick && m.spawn_tick <= b.spawn_tick
            &&& m.spawn_tick == a.spawn_tick || m.spawn_tick == b.spawn_tick
            &&& m.awake
        },
{
}

/// Drops can be picked up from half a second on: exactly those are offered.
pub proof fn law_drops_can_be_taken_after_half_a_second(
    entries: Seq<(u32, Entity)>,
    tick: u64,
    n: nat,
    id: u32,
)
    requires
        n <= entries.len(),
    ensures
        armed(entries, tick, n).contains(id) <==> exists|i: int|
            0 <= i < n && (#[trigger] entries[i]).0 == id && entries[i].1.kind is ItemDrop && tick
                >= entries[i].1.spawn_tick + 30,
    decreases n,
{
    if n > 0 {
        law_drops_can_be_taken_after_half_a_second(entries, tick, (n - 1) as nat, id);
        let (a, b) = (armed(entries, tick, n), armed(entries, tick, (n - 1) as nat));
        let e = entries[n - 1];
        if e.1.kind is ItemDrop && tick >= e.1.spawn_tick + 30 {
            assert(a == b.push(e.0));
            assert(a[b.len() as int] == e.0);
            if b.contains(id) {
                assert(a[b.index_of(id)] == id);
            }
            if a.contains(id) {
                let k = a.index_of(id);
                if k < b.len() {
                    assert(b[k] == id);
                }
            }
        } else {
            assert(a == b);
        }
        if exists|i: int|
            0 <= i < n && (#[trigger] entries[i]).0 == id && entries[i].1.kind is ItemDrop && tick
                >= entries[i].1.spawn_tick + 30 {
            let i = choose|i: int|
                0 <= i < n && (#[trigger] entries[i]).0 == id && entries[i].1.kind is ItemDrop
                    && tick >= entries[i].1.spawn_tick + 30;
            assert(i < n - 1 || i == n - 1);
        }
    }
}

/// Of those in range with room the nearest takes a drop: nobody with room is
/// nearer.
pub proof fn law_the_nearest_with_room_takes(
    players: Seq<Player>,
    distance: Seq<Option<u32>>,
    drop: Entity,
    max_stack: int,
    k: int,
    i: int,
)
    requires
        distance.len() == players.len(),
        0 <= i < players.len(),
        nearest(players, takers(players, distance, drop, max_stack), k),
    ensures
        distance[k] is Some,
        has_room(players, k, drop.kind->item, drop.kind->ItemDrop_count as int, max_stack),
        distance[i] is Some && has_room(
            players,
            i,
            drop.kind->item,
            drop.kind->ItemDrop_count as int,
            max_stack,
        ) ==> distance[k]->Some_0 <= distance[i]->Some_0,
{
    let d = takers(players, distance, drop, max_stack);
    assert(d[k] is Some);
    assert(d[i] == d[i]);
}

/// A stack that was merged away is lying around no more, and every other thing
/// still is.
pub proof fn law_only_merged_drops_go(
    entries: Seq<(u32, Entity)>,
    out: Set<int>,
    n: nat,
    e: (u32, Entity),
)
    requires
        n <= entries.len(),
    ensures
        survivors(entries, out, n).contains(e) <==> exists|i: int|
            0 <= i < n && !out.contains(i) && #[trigger] entries[i] == e,
    decreases n,
{
    if n > 0 {
        law_only_merged_drops_go(entries, out, (n - 1) as nat, e);
        let (a, b) = (survivors(entries, out, n), survivors(entries, out, (n - 1) as nat));
        if !out.contains(n - 1) {
            assert(a[b.len() as int] == entries[n - 1]);
            if b.contains(e) {
                assert(a[b.index_of(e)] == e);
            }
            if a.contains(e) {
                let k = a.index_of(e);
                if k < b.len() {
                    assert(b[k] == e);
                }
            }
        }
        if exists|i: int| 0 <= i < n && !out.contains(i) && #[trigger] entries[i] == e {
            let i = choose|i: int| 0 <= i < n && !out.contains(i) && #[trigger] entries[i] == e;
            assert(i < n - 1 || i == n - 1);
        }
    }
}

/// A box touches a liquid if one of its cells holds it.
pub proof fn law_boxes_touch_their_cells(
    g: Grid,
    x0: int,
    y0: int,
    x1: int,
    y1: int,
    kind: LiquidKind,
    x: int,
    y: int,
)
    ensures
        x0 <= x <= x1 && y0 <= y <= y1 && g.inside(x, y) && g.at(x, y).liquid is Filled && g.at(
            x,
            y,
        ).liquid->kind == kind ==> touches(g, x0, y0, x1, y1, kind),
        touches(g, x0, y0, x1, y1, kind) ==> exists|a: int, b: int|
            x0 <= a <= x1 && y0 <= b <= y1 && g.inside(a, b) && (#[trigger] g.at(
                a,
                b,
            )).liquid.spec_kind() == Some(kind),
{
    if g.inside(x, y) && g.at(x, y).liquid is Filled && g.at(x, y).liquid->kind == kind {
        assert(g.liquid(x, y).spec_kind() == Some(kind));
    }
    if touches(g, x0, y0, x1, y1, kind) {
        let (a, b) = choose|a: int, b: int|
            x0 <= a <= x1 && y0 <= b <= y1 && #[trigger] g.liquid(a, b).spec_kind() == Some(kind);
        assert(g.inside(a, b));
        assert(g.at(a, b).liquid.spec_kind() == Some(kind));
    }
}

/// Who remains after a step is who was there and did not go, moved by the step;
/// who departed is the rest.
pub proof fn law_each_thing_stays_or_departs(
    entries: Seq<(u32, Entity)>,
    steps: Seq<DropStep>,
    tick: u64,
    n: nat,
)
    requires
        n <= entries.len(),
        n <= steps.len(),
    ensures
        remaining(entries, steps, tick, n).len() + departed(entries, steps, tick, n).len() == n,
        forall|i: int|
            0 <= i < n ==> (if fate((#[trigger] entries[i]).1, tick, steps[i].burns) is Some {
                departed(entries, steps, tick, n).contains(
                    (entries[i].0, fate(entries[i].1, tick, steps[i].burns)->Some_0),
                )
            } else {
                remaining(entries, steps, tick, n).contains(
                    (entries[i].0, stepped(entries[i].1, steps[i])),
                )
            }),
    decreases n,
{
    if n > 0 {
        law_each_thing_stays_or_departs(entries, steps, tick, (n - 1) as nat);
        let (a, b) = (
            remaining(entries, steps, tick, n),
            remaining(entries, steps, tick, (n - 1) as nat),
        );
        let (c, d) = (
            departed(entries, steps, tick, n),
            departed(entries, steps, tick, (n - 1) as nat),
        );
        assert forall|i: int| 0 <= i < n implies (if fate(
            (#[trigger] entries[i]).1,
            tick,
            steps[i].burns,
        ) is Some {
            c.contains((entries[i].0, fate(entries[i].1, tick, steps[i].burns)->Some_0))
        } else {
            a.contains((entries[i].0, stepped(entries[i].1, steps[i])))
        }) by {
            let gone = (entries[i].0, fate(entries[i].1, tick, steps[i].burns)->Some_0);
            let stays = (entries[i].0, stepped(entries[i].1, steps[i]));
            if i == n - 1 {
                if fate(entries[i].1, tick, steps[i].burns) is Some {
                    assert(c[d.len() as int] == gone);
                } else {
                    assert(a[b.len() as int] == stays);
                }
            } else {
                if fate(entries[i].1, tick, steps[i].burns) is Some {
                    assert(c[d.index_of(gone)] == gone);
                } else {
                    assert(a[b.index_of(stays)] == stays);
                }
            }
        }
    }
}

} // verus!
