//! Enemies: where they may appear, when they are harmless, what they decide,
//! and what they leave behind.

use vstd::prelude::*;

use crate::grid::{Grid, World};
use crate::item::{ItemId, COPPER_PER_GOLD, COPPER_PER_SILVER};
use crate::sim::entities::{Entity, EntityKind, EntityStore};

verus! {

/// Every so many ticks enemies far from everyone are removed.
pub const DESPAWN_SWEEP_TICKS: u64 = 30;

/// A burning enemy loses a point of health every so many ticks.
pub const ENEMY_BURN_INTERVAL: u32 = 30;

/// Every so many hops a slime hops high.
pub const SLIME_HIGH_HOP_EVERY: u32 = 3;

#[derive(Debug, Clone, Copy, PartialEq, Eq, Structural)]
pub enum EnemyKind {
    GreenSlime,
    BlueSlime,
    LavaSlime,
    Zombie,
    Skeleton,
    DemonEye,
    CaveBat,
    Watchling,
    AshDemon,
}

/// How an enemy moves.
#[derive(Debug, Clone, Copy, PartialEq, Eq, Structural)]
pub enum AiKind {
    Slime,
    Fighter,
    FlierBouncer,
    FlierErratic,
    FlierStraight,
    Swooper,
}

impl AiKind {
    pub open spec fn spec_grounded(self) -> bool {
        self == AiKind::Slime || self == AiKind::Fighter
    }

    /// It stands on the ground.
    pub fn grounded(self) -> (b: bool)
        ensures
            b == self.spec_grounded(),
    {
        self == AiKind::Slime || self == AiKind::Fighter
    }
}

impl EnemyKind {
    pub open spec fn spec_ai(self) -> AiKind {
        match self {
            EnemyKind::GreenSlime | EnemyKind::BlueSlime | EnemyKind::LavaSlime => AiKind::Slime,
            EnemyKind::Zombie | EnemyKind::Skeleton => AiKind::Fighter,
            EnemyKind::DemonEye => AiKind::FlierBouncer,
            EnemyKind::CaveBat => AiKind::FlierErratic,
            EnemyKind::Watchling => AiKind::FlierStraight,
            EnemyKind::AshDemon => AiKind::Swooper,
        }
    }

    pub fn ai(self) -> (a: AiKind)
        ensures
            a == self.spec_ai(),
    {
        match self {
            EnemyKind::GreenSlime | EnemyKind::BlueSlime | EnemyKind::LavaSlime => AiKind::Slime,
            EnemyKind::Zombie | EnemyKind::Skeleton => AiKind::Fighter,
            EnemyKind::DemonEye => AiKind::FlierBouncer,
            EnemyKind::CaveBat => AiKind::FlierErratic,
            EnemyKind::Watchling => AiKind::FlierStraight,
            EnemyKind::AshDemon => AiKind::Swooper,
        }
    }

    pub open spec fn spec_day_passive_slime(self) -> bool {
        self == EnemyKind::GreenSlime || self == EnemyKind::BlueSlime
    }

    /// Slimes that do no harm by day.
    pub fn day_passive_slime(self) -> (b: bool)
        ensures
            b == self.spec_day_passive_slime(),
    {
        self == EnemyKind::GreenSlime || self == EnemyKind::BlueSlime
    }

    pub open spec fn spec_flees_at_dawn(self) -> bool {
        self == EnemyKind::Zombie || self == EnemyKind::DemonEye
    }

    /// Enemies of the night.
    pub fn flees_at_dawn(self) -> (b: bool)
        ensures
            b == self.spec_flees_at_dawn(),
    {
        self == EnemyKind::Zombie || self == EnemyKind::DemonEye
    }
}

/// What an enemy is up to.
#[derive(Debug, Clone, Copy, PartialEq, Eq, Structural)]
pub struct AiState {
    pub timer: u32,
    pub timer2: u32,
    pub counter: u32,
    pub phase: u8,
    /// Left or right, as -1 or 1.
    pub dir: i8,
    pub on_ground: bool,
    pub passive: bool,
    /// It was hurt once.
    pub aggroed: bool,
    pub fleeing: bool,
    pub burn_ticks: u32,
}

/// Health and intentions of an enemy.
#[derive(Debug, Clone, Copy, PartialEq, Eq, Structural)]
pub struct Foe {
    pub kind: EnemyKind,
    pub hp: u16,
    /// Its health changed since the players were told last.
    pub hp_dirty: bool,
    pub ai: AiState,
}

/// How many of the first `n` entities are enemies.
pub open spec fn enemies_among(entries: Seq<(u32, Entity)>, n: nat) -> nat
    decreases n,
{
    if n == 0 {
        0
    } else {
        enemies_among(entries, (n - 1) as nat) + if entries[n - 1].1.kind is Enemy {
            1nat
        } else {
            0
        }
    }
}

/// How many enemies there are.
pub fn live_enemies(store: &EntityStore) -> (n: usize)
    ensures
        n == enemies_among(store.entries@, store.entries@.len()),
{
    let mut n: usize = 0;
    let mut i: usize = 0;
    while i < store.entries.len()
        invariant
            i <= store.entries.len(),
            n <= i,
            n == enemies_among(store.entries@, i as nat),
        decreases store.entries.len() - i,
    {
        match store.entries[i].1.kind {
            EntityKind::Enemy(_) => {
                n = n + 1;
            },
            _ => {},
        }
        i = i + 1;
    }
    n
}

// ---- Spawning --------------------------------------------------------------

/// The entities after the first `n` offers: an offered enemy comes in as long
/// as there are fewer than `most`.
pub open spec fn spawned(
    entries: Seq<(u32, Entity)>,
    next: int,
    offers: Seq<Option<Entity>>,
    most: int,
    n: nat,
) -> Seq<(u32, Entity)>
    decreases n,
{
    if n == 0 {
        entries
    } else {
        let before = spawned(entries, next, offers, most, (n - 1) as nat);
        match offers[n - 1] {
            Some(e) => if enemies_among(before, before.len()) < most {
                before.push(((next + before.len() - entries.len()) as u32, e))
            } else {
                before
            },
            None => before,
        }
    }
}

/// The count does not depend on what stands behind.
proof fn lemma_enemies_among_prefix(a: Seq<(u32, Entity)>, b: Seq<(u32, Entity)>, n: nat)
    requires
        n <= a.len(),
        n <= b.len(),
        forall|i: int| 0 <= i < n ==> a[i] == b[i],
    ensures
        enemies_among(a, n) == enemies_among(b, n),
    decreases n,
{
    if n > 0 {
        lemma_enemies_among_prefix(a, b, (n - 1) as nat);
    }
}

/// Spawning never brings in more enemies than there may be.
pub proof fn law_enemies_stay_few(
    entries: Seq<(u32, Entity)>,
    next: int,
    offers: Seq<Option<Entity>>,
    most: int,
    n: nat,
)
    ensures
        ({
            let after = spawned(entries, next, offers, most, n);
            enemies_among(after, after.len()) <= most || enemies_among(after, after.len())
                <= enemies_among(entries, entries.len())
        }),
    decreases n,
{
    if n > 0 {
        law_enemies_stay_few(entries, next, offers, most, (n - 1) as nat);
        let before = spawned(entries, next, offers, most, (n - 1) as nat);
        let after = spawned(entries, next, offers, most, n);
        lemma_enemies_among_prefix(before, after, before.len());
    }
}

/// Lets the enemies in that were rolled for the players, one after the other,
/// until there are `most`. Returns the numbers of those who came in.
pub fn tick_enemy_spawning(
    store: &mut EntityStore,
    offers: &Vec<Option<Entity>>,
    most: usize,
) -> (ids: Vec<u32>)
    requires
        old(store).wf(),
        old(store).next_id + offers.len() <= u32::MAX,
    ensures
        final(store).wf(),
        final(store).entries@ == spawned(
            old(store).entries@,
            old(store).next_id as int,
            offers@,
            most as int,
            offers@.len(),
        ),
        final(store).next_id == old(store).next_id + ids@.len(),
        ids@ == Seq::new(ids@.len(), |k: int| (old(store).next_id + k) as u32),
        ids@.len() == final(store).entries@.len() - old(store).entries@.len(),
{
    let ghost start = *store;
    let mut ids: Vec<u32> = Vec::new();
    let mut i: usize = 0;
    while i < offers.len()
        invariant
            i <= offers.len(),
            start == *old(store),
            store.wf(),
            start.next_id + offers.len() <= u32::MAX,
            ids.len() <= i,
            store.next_id == start.next_id + ids.len(),
            store.entries@.len() == start.entries@.len() + ids.len(),
            store.entries@ == spawned(
                start.entries@,
                start.next_id as int,
                offers@,
                most as int,
                i as nat,
            ),
            forall|k: int| 0 <= k < ids.len() ==> #[trigger] ids@[k] == start.next_id + k,
        decreases offers.len() - i,
    {
        if live_enemies(store) < most {
            match offers[i] {
                Some(e) => {
                    let id: u32 = store.insert(e);
                    ids.push(id);
                },
                None => {},
            }
        }
        i = i + 1;
    }
    assert(ids@ =~= Seq::new(ids@.len(), |k: int| (start.next_id + k) as u32));
    ids
}

/// How many enemies may crowd around a player: each town dweller near makes
/// room for two fewer, and three keep all enemies away.
pub open spec fn spec_room(base: u32, npcs_near: u32) -> int {
    if npcs_near >= 3 || base <= 2 * npcs_near {
        0
    } else {
        base - 2 * npcs_near
    }
}

/// How many enemies a player still attracts: none when dead or when as many
/// are about as may be.
pub fn spawn_room(dead: bool, base: u32, npcs_near: u32, crowd: u32) -> (room: Option<u32>)
    ensures
        room == (if dead || crowd >= spec_room(base, npcs_near) {
            None
        } else {
            Some(spec_room(base, npcs_near) as u32)
        }),
{
    if dead || npcs_near >= 3 {
        return None;
    }
    let m: u32 = base.saturating_sub(2 * npcs_near);
    if crowd >= m {
        return None;
    }
    Some(m)
}

/// No solid cell from `(x0, y0)` to `(x1, y1)`.
pub open spec fn airy(g: Grid, x0: int, y0: int, x1: int, y1: int) -> bool {
    forall|a: int, b: int| x0 <= a <= x1 && y0 <= b <= y1 ==> !(#[trigger] g.solid(a, b))
}

/// An enemy may appear at `(x, y)`: walkers stand on a solid cell with air of
/// three by two cells above, fliers need two by two cells of air.
pub open spec fn placeable(g: Grid, grounded: bool, x: int, y: int) -> bool {
    if grounded {
        g.solid(x, y) && y >= 2 && airy(g, x - 1, y - 2, x + 1, y - 1)
    } else {
        airy(g, x, y, x + 1, y + 1)
    }
}

fn is_airy(world: &World, x0: i32, y0: i32, w: i32, h: i32) -> (b: bool)
    requires
        world.wf(),
        0 < w,
        0 < h,
        x0 + w - 1 <= i32::MAX,
        y0 + h - 1 <= i32::MAX,
    ensures
        b == airy(world@, x0 as int, y0 as int, x0 + w - 1, y0 + h - 1),
{
    let mut dy: i32 = 0;
    while dy < h
        invariant
            world.wf(),
            0 < w,
            0 <= dy <= h,
            x0 + w - 1 <= i32::MAX,
            y0 + h - 1 <= i32::MAX,
            forall|a: int, b: int|
                x0 <= a < x0 + w && y0 <= b < y0 + dy ==> !(#[trigger] world@.solid(a, b)),
        decreases h - dy,
    {
        let mut dx: i32 = 0;
        while dx < w
            invariant
                world.wf(),
                0 <= dx <= w,
                0 <= dy < h,
                x0 + w - 1 <= i32::MAX,
                y0 + h - 1 <= i32::MAX,
                forall|a: int, b: int|
                    x0 <= a < x0 + w && y0 <= b < y0 + dy ==> !(#[trigger] world@.solid(a, b)),
                forall|a: int|
                    x0 <= a < x0 + dx ==> !(#[trigger] world@.solid(a, y0 + dy)),
            decreases w - dx,
        {
            if world.is_solid(x0 + dx, y0 + dy) {
                assert(world@.solid(x0 + dx, y0 + dy));
                return false;
            }
            dx = dx + 1;
        }
        dy = dy + 1;
    }
    true
}

/// Whether an enemy may appear at an inside cell.
pub fn placement_for(world: &World, kind: EnemyKind, x: u32, y: u32) -> (b: bool)
    requires
        world.wf(),
        world@.inside(x as int, y as int),
    ensures
        b == placeable(world@, kind.spec_ai().spec_grounded(), x as int, y as int),
{
    let (xi, yi): (i32, i32) = (x as i32, y as i32);
    if kind.ai().grounded() {
        world.is_solid(xi, yi) && y >= 2 && is_airy(world, xi - 1, yi - 2, 3, 2)
    } else {
        is_airy(world, xi, yi, 2, 2)
    }
}

/// A cell at which an enemy is tried.
#[derive(Debug, Clone, Copy, PartialEq, Eq, Structural)]
pub struct SpawnTry {
    pub x: i64,
    pub y: i64,
    /// Some player would see it appear.
    pub on_screen: bool,
}

pub open spec fn try_fits(g: Grid, kind: EnemyKind, t: SpawnTry) -> bool {
    g.inside(t.x as int, t.y as int) && !t.on_screen && placeable(
        g,
        kind.spec_ai().spec_grounded(),
        t.x as int,
        t.y as int,
    )
}

/// The first of the tried cells at which an enemy may appear.
pub fn choose_spawn(world: &World, kind: EnemyKind, tries: &Vec<SpawnTry>) -> (r: Option<usize>)
    requires
        world.wf(),
    ensures
        match r {
            Some(k) => {
                &&& k < tries.len()
                &&& try_fits(world@, kind, tries@[k as int])
                &&& forall|i: int| 0 <= i < k ==> !try_fits(world@, kind, #[trigger] tries@[i])
            },
            None => forall|i: int|
                0 <= i < tries.len() ==> !try_fits(world@, kind, #[trigger] tries@[i]),
        },
{
    let mut i: usize = 0;
    while i < tries.len()
        invariant
            i <= tries.len(),
            world.wf(),
            forall|k: int| 0 <= k < i ==> !try_fits(world@, kind, #[trigger] tries@[k]),
        decreases tries.len() - i,
    {
        let t: SpawnTry = tries[i];
        if t.x >= 0 && t.y >= 0 && t.x < world.width as i64 && t.y < world.height as i64
            && !t.on_screen && placement_for(world, kind, t.x as u32, t.y as u32) {
            return Some(i);
        }
        i = i + 1;
    }
    None
}

/// Nothing appears where a player would see it.
pub proof fn law_spawns_are_unseen(g: Grid, kind: EnemyKind, t: SpawnTry)
    requires
        try_fits(g, kind, t),
    ensures
        !t.on_screen,
        g.inside(t.x as int, t.y as int),
        kind.spec_ai().spec_grounded() ==> g.solid(t.x as int, t.y as int) && !g.solid(
            t.x as int,
            t.y - 1,
        ),
        !kind.spec_ai().spec_grounded() ==> !g.solid(t.x as int, t.y as int),
{
}

/// Where enemies appear.
#[derive(Debug, Clone, Copy, PartialEq, Eq, Structural)]
pub enum SpawnEnvironment {
    SurfaceDay,
    SurfaceNight,
    Underground,
    Cavern,
    Underworld,
}

/// A fresh enemy. Slimes that appear on the surface by day are harmless.
pub fn spawn_enemy(
    kind: EnemyKind,
    max_hp: u16,
    env: SpawnEnvironment,
    is_day: bool,
    timer: u32,
    heads_right: bool,
) -> (f: Foe)
    ensures
        f == (Foe {
            kind,
            hp: max_hp,
            hp_dirty: false,
            ai: AiState {
                timer,
                timer2: 0,
                counter: 0,
                phase: 0,
                dir: if heads_right {
                    1
                } else {
                    (-1) as i8
                },
                on_ground: false,
                passive: kind.spec_day_passive_slime() && env == SpawnEnvironment::SurfaceDay
                    && is_day,
                aggroed: false,
                fleeing: false,
                burn_ticks: 0,
            },
        }),
        f.hp == max_hp,
        f.ai.dir > 0 <==> heads_right,
        f.ai.passive ==> is_day,
        kind == EnemyKind::Zombie || kind == EnemyKind::LavaSlime ==> !f.ai.passive,
{
    let dir: i8 = if heads_right {
        1
    } else {
        -1
    };
    Foe {
        kind,
        hp: max_hp,
        hp_dirty: false,
        ai: AiState {
            timer,
            timer2: 0,
            counter: 0,
            phase: 0,
            dir,
            on_ground: false,
            passive: kind.day_passive_slime() && env == SpawnEnvironment::SurfaceDay && is_day,
            aggroed: false,
            fleeing: false,
            burn_ticks: 0,
        },
    }
}

// ---- Every tick ------------------------------------------------------------

/// A slime is harmless by day, above ground, and as long as nobody hurt it.
pub fn slime_passive(aggroed: bool, above_ground: bool, is_day: bool) -> (b: bool)
    ensures
        b == (!aggroed && is_day && above_ground),
{
    !aggroed && is_day && above_ground
}

/// The enemy's mood at this hour and depth.
pub open spec fn in_mood(f: Foe, above_ground: bool, is_day: bool) -> Foe {
    Foe {
        ai: AiState {
            fleeing: f.ai.fleeing || (is_day && f.kind.spec_flees_at_dawn()),
            passive: if f.kind.spec_day_passive_slime() {
                !f.ai.aggroed && is_day && above_ground
            } else {
                f.ai.passive
            },
            ..f.ai
        },
        ..f
    }
}

/// Sets the mood: dawn drives the enemies of the night away, and slimes calm
/// down by day and turn at dusk.
pub fn set_mood(f: Foe, above_ground: bool, is_day: bool) -> (r: Foe)
    ensures
        r == in_mood(f, above_ground, is_day),
{
    let mut r = f;
    if is_day && f.kind.flees_at_dawn() {
        r.ai.fleeing = true;
    }
    if f.kind.day_passive_slime() {
        r.ai.passive = slime_passive(f.ai.aggroed, above_ground, is_day);
    }
    r
}

/// Only damage angers a slime for good: at the next day an unhurt one is
/// harmless again, a hurt one never.
pub proof fn law_only_damage_lasts(f: Foe)
    requires
        f.kind.spec_day_passive_slime(),
    ensures
        !in_mood(f, true, false).ai.passive,
        in_mood(in_mood(f, true, false), true, true).ai.passive == !f.ai.aggroed,
{
}

/// A burning enemy burns on.
pub open spec fn burnt(f: Foe) -> Foe {
    if f.ai.burn_ticks == 0 {
        f
    } else {
        let hit = f.ai.burn_ticks % ENEMY_BURN_INTERVAL == 0;
        Foe {
            hp: if hit && f.hp > 0 {
                (f.hp - 1) as u16
            } else {
                f.hp
            },
            hp_dirty: f.hp_dirty || hit,
            ai: AiState { burn_ticks: (f.ai.burn_ticks - 1) as u32, ..f.ai },
            ..f
        }
    }
}

/// Lets an enemy burn for a tick.
pub fn burn(f: Foe) -> (r: Foe)
    ensures
        r == burnt(f),
{
    let mut r = f;
    if f.ai.burn_ticks > 0 {
        if f.ai.burn_ticks % ENEMY_BURN_INTERVAL == 0 {
            r.hp = f.hp.saturating_sub(1);
            r.hp_dirty = true;
        }
        r.ai.burn_ticks = f.ai.burn_ticks - 1;
    }
    r
}

/// Why an enemy is gone after its tick.
#[derive(Debug, Clone, Copy, PartialEq, Eq, Structural)]
pub enum FoeFate {
    Stays,
    Dies,
    /// It fled out of sight.
    Flees,
}

/// The dead die, and those that flee are gone once nobody sees them.
pub open spec fn fate(f: Foe, seen: Seq<bool>) -> FoeFate {
    if f.hp == 0 {
        FoeFate::Dies
    } else if f.ai.fleeing && !seen.contains(true) {
        FoeFate::Flees
    } else {
        FoeFate::Stays
    }
}

/// What becomes of an enemy after its tick; `seen` says for each player
/// whether they see it.
pub fn foe_fate(f: Foe, seen: &Vec<bool>) -> (r: FoeFate)
    ensures
        r == fate(f, seen@),
{
    if f.hp == 0 {
        FoeFate::Dies
    } else if f.ai.fleeing && none_of(seen) {
        FoeFate::Flees
    } else {
        FoeFate::Stays
    }
}

/// Whether no flag is set: an enemy with no player near is removed.
pub fn none_of(flags: &Vec<bool>) -> (b: bool)
    ensures
        b == !flags@.contains(true),
{
    let mut i: usize = 0;
    while i < flags.len()
        invariant
            i <= flags.len(),
            forall|k: int| 0 <= k < i ==> !(#[trigger] flags@[k]),
        decreases flags.len() - i,
    {
        if flags[i] {
            assert(flags@[i as int] == true);
            return false;
        }
        i = i + 1;
    }
    true
}

/// The enemies among the first `n` that no player is near.
pub open spec fn forsaken(near: Seq<(u32, Vec<bool>)>, n: int) -> Seq<u32>
    decreases n,
{
    if n <= 0 {
        Seq::empty()
    } else if near[n - 1].1@.contains(true) {
        forsaken(near, n - 1)
    } else {
        forsaken(near, n - 1).push(near[n - 1].0)
    }
}

/// The enemies to remove because they are far from every player; `near` says
/// for each enemy which players it is near.
pub fn despawn_far_enemies(near: &Vec<(u32, Vec<bool>)>) -> (ids: Vec<u32>)
    ensures
        ids@ == forsaken(near@, near@.len() as int),
{
    let mut ids: Vec<u32> = Vec::new();
    let mut i: usize = 0;
    while i < near.len()
        invariant
            i <= near.len(),
            ids@ == forsaken(near@, i as int),
        decreases near.len() - i,
    {
        if none_of(&near[i].1) {
            ids.push(near[i].0);
        }
        i = i + 1;
    }
    ids
}

/// A player as enemies see them.
#[derive(Debug, Clone, Copy, PartialEq, Eq, Structural)]
pub struct Quarry {
    /// Grows with the distance.
    pub distance: u32,
    /// Slimes do not see this player.
    pub slime_friend: bool,
}

pub open spec fn chased(kind: EnemyKind, q: Quarry) -> bool {
    !(q.slime_friend && kind.spec_day_passive_slime())
}

/// Player `k` is the one that an enemy goes for: the nearest that it sees, the
/// first of several as near.
pub open spec fn is_quarry(kind: EnemyKind, quarry: Seq<Quarry>, k: int) -> bool {
    &&& 0 <= k < quarry.len()
    &&& chased(kind, quarry[k])
    &&& forall|i: int|
        0 <= i < quarry.len() && chased(kind, quarry[i]) ==> quarry[k].distance < (
        #[trigger] quarry[i]).distance || (quarry[k].distance == quarry[i].distance && k <= i)
}

/// The player that an enemy goes for, if it sees any.
pub fn choose_target(kind: EnemyKind, quarry: &Vec<Quarry>) -> (r: Option<usize>)
    ensures
        match r {
            Some(k) => is_quarry(kind, quarry@, k as int),
            None => forall|i: int|
                0 <= i < quarry.len() ==> !chased(kind, #[trigger] quarry@[i]),
        },
{
    let mut best: Option<usize> = None;
    let mut i: usize = 0;
    while i < quarry.len()
        invariant
            i <= quarry.len(),
            match best {
                Some(k) => {
                    &&& k < i
                    &&& chased(kind, quarry@[k as int])
                    &&& forall|m: int|
                        0 <= m < i && chased(kind, quarry@[m]) ==> quarry@[k as int].distance < (
                        #[trigger] quarry@[m]).distance || (quarry@[k as int].distance
                            == quarry@[m].distance && k <= m)
                },
                None => forall|m: int| 0 <= m < i ==> !chased(kind, #[trigger] quarry@[m]),
            },
        decreases quarry.len() - i,
    {
        let q: Quarry = quarry[i];
        if !(q.slime_friend && kind.day_passive_slime()) {
            match best {
                Some(k) => {
                    if q.distance < quarry[k].distance {
                        best = Some(i);
                    }
                },
                None => {
                    best = Some(i);
                },
            }
        }
        i = i + 1;
    }
    best
}

// ---- What enemies decide ---------------------------------------------------

/// What a slime on the ground does.
#[derive(Debug, Clone, Copy, PartialEq, Eq, Structural)]
pub enum SlimeMove {
    Waits,
    /// It hops, high or not, to the right or to the left.
    Hops { high: bool, right: bool },
}

/// A slime on the ground: it waits, turning at ledges while harmless, and then
/// hops at its target, or on in its own direction.
pub open spec fn slime_step(
    a: AiState,
    at_ledge: bool,
    target_right: Option<bool>,
    next_wait: u32,
) -> (AiState, SlimeMove) {
    if a.timer > 0 {
        (
            AiState {
                timer: (a.timer - 1) as u32,
                dir: if a.passive && at_ledge {
                    (-a.dir) as i8
                } else {
                    a.dir
                },
                ..a
            },
            SlimeMove::Waits,
        )
    } else {
        let counter = (a.counter + 1) as u32;
        (
            AiState { counter, timer: next_wait, ..a },
            SlimeMove::Hops {
                high: counter % SLIME_HIGH_HOP_EVERY == 0,
                right: match target_right {
                    Some(r) => if a.passive {
                        a.dir >= 0
                    } else {
                        r
                    },
                    None => a.dir >= 0,
                },
            },
        )
    }
}

/// Decides for a slime on the ground.
pub fn step_slime(
    a: AiState,
    at_ledge: bool,
    target_right: Option<bool>,
    next_wait: u32,
) -> (r: (AiState, SlimeMove))
    requires
        a.counter < u32::MAX,
        a.dir == 1 || a.dir == -1,
    ensures
        r == slime_step(a, at_ledge, target_right, next_wait),
{
    let mut n = a;
    if a.timer > 0 {
        n.timer = a.timer - 1;
        if a.passive && at_ledge {
            n.dir = -a.dir;
        }
        return (n, SlimeMove::Waits);
    }
    n.counter = a.counter + 1;
    n.timer = next_wait;
    let high: bool = n.counter % SLIME_HIGH_HOP_EVERY == 0;
    let right: bool = match target_right {
        Some(r) => if a.passive {
            a.dir >= 0
        } else {
            r
        },
        None => a.dir >= 0,
    };
    (n, SlimeMove::Hops { high, right })
}

/// After a wait of `n` ticks the slime hops: not before, and not later.
pub proof fn law_slime_hops_in_time(a: AiState, target_right: Option<bool>, next_wait: u32)
    ensures
        (slime_step(a, false, target_right, next_wait).1 is Hops) == (a.timer == 0),
        a.timer > 0 ==> slime_step(a, false, target_right, next_wait).0.timer == a.timer - 1,
        a.timer == 0 ==> slime_step(a, false, target_right, next_wait).0.timer == next_wait,
{
}

/// Where a fighter walks: at its target, or away from it while it flees.
pub open spec fn fighter_heading(a: AiState, target_right: Option<bool>) -> i8 {
    match target_right {
        Some(r) => if r != a.fleeing {
            1
        } else {
            (-1) as i8
        },
        None => a.dir,
    }
}

/// Decides where a fighter walks.
pub fn fighter_dir(a: AiState, target_right: Option<bool>) -> (dir: i8)
    ensures
        dir == fighter_heading(a, target_right),
        target_right is Some && !a.fleeing ==> (dir == 1 <==> target_right->Some_0),
        target_right is Some && a.fleeing ==> (dir == 1 <==> !target_right->Some_0),
        target_right is Some ==> dir == 1 || dir == -1,
{
    match target_right {
        Some(r) => {
            if r != a.fleeing {
                1
            } else {
                -1
            }
        },
        None => a.dir,
    }
}

/// An erratic flier darts aside when its timer is out.
pub open spec fn erratic_step(a: AiState, next_wait: u32) -> (AiState, bool) {
    if a.timer == 0 {
        (AiState { timer: next_wait, ..a }, true)
    } else {
        (AiState { timer: (a.timer - 1) as u32, ..a }, false)
    }
}

/// Decides for an erratic flier.
pub fn step_erratic(a: AiState, next_wait: u32) -> (r: (AiState, bool))
    ensures
        r == erratic_step(a, next_wait),
{
    let mut n = a;
    if a.timer == 0 {
        n.timer = next_wait;
        (n, true)
    } else {
        n.timer = a.timer - 1;
        (n, false)
    }
}

/// Times of a swooper in ticks.
#[derive(Debug, Clone, Copy, PartialEq, Eq, Structural)]
pub struct SwoopTimes {
    pub swoop: u32,
    pub period: u32,
    pub volley: u32,
}

/// What a swooper does beside flying on.
#[derive(Debug, Clone, Copy, PartialEq, Eq, Structural)]
pub struct SwoopMove {
    /// It hovers this tick.
    pub hovers: bool,
    /// It sets out through its target.
    pub swoops: bool,
    /// It shoots.
    pub volley: bool,
}

/// A swooper with a target: it hovers until its timer is out, swoops for a
/// while, and hovers again; with its target in sight it shoots now and then.
pub open spec fn swooper_step(a: AiState, sight: bool, t: SwoopTimes) -> (AiState, SwoopMove) {
    let hovers = a.phase == 0;
    let swoops = hovers && a.timer == 0;
    let volley = a.timer2 == 0 && sight;
    (
        AiState {
            phase: if a.timer != 0 {
                a.phase
            } else if hovers {
                1
            } else {
                0
            },
            timer: if a.timer != 0 {
                (a.timer - 1) as u32
            } else if hovers {
                t.swoop
            } else {
                t.period
            },
            timer2: if a.timer2 != 0 {
                (a.timer2 - 1) as u32
            } else if sight {
                t.volley
            } else {
                0
            },
            ..a
        },
        SwoopMove { hovers, swoops, volley },
    )
}

/// Decides for a swooper with a target.
pub fn step_swooper(a: AiState, sight: bool, t: SwoopTimes) -> (r: (AiState, SwoopMove))
    ensures
        r == swooper_step(a, sight, t),
{
    let mut n = a;
    let hovers: bool = a.phase == 0;
    let mut swoops: bool = false;
    let mut volley: bool = false;
    if a.timer == 0 {
        if hovers {
            n.phase = 1;
            n.timer = t.swoop;
            swoops = true;
        } else {
            n.phase = 0;
            n.timer = t.period;
        }
    } else {
        n.timer = a.timer - 1;
    }
    if a.timer2 == 0 {
        if sight {
            volley = true;
            n.timer2 = t.volley;
        }
    } else {
        n.timer2 = a.timer2 - 1;
    }
    (n, SwoopMove { hovers, swoops, volley })
}

/// Without sight there is no volley, and after one the next waits.
pub proof fn law_volleys_wait(a: AiState, sight: bool, t: SwoopTimes)
    ensures
        swooper_step(a, sight, t).1.volley ==> sight,
        swooper_step(a, sight, t).1.volley ==> swooper_step(a, sight, t).0.timer2 == t.volley,
        a.timer2 > 0 ==> !swooper_step(a, sight, t).1.volley,
{
}

// ---- Coins -----------------------------------------------------------------

/// Coins worth `value` copper: as few as possible, without platinum. A pile
/// counts in 16 bits.
pub open spec fn coins_for(value: u32) -> Seq<(ItemId, u16)> {
    let gold = value / COPPER_PER_GOLD;
    let silver = (value % COPPER_PER_GOLD) / COPPER_PER_SILVER;
    let copper = value % COPPER_PER_SILVER;
    coin_pile(ItemId::GoldCoin, gold) + coin_pile(ItemId::SilverCoin, silver) + coin_pile(
        ItemId::CopperCoin,
        copper,
    )
}

pub open spec fn coin_pile(item: ItemId, n: u32) -> Seq<(ItemId, u16)> {
    if n > 0 {
        seq![(item, n as u16)]
    } else {
        seq![]
    }
}

/// The coins that an enemy worth `value` copper leaves.
pub fn spawn_coin_drops(value: u32) -> (drops: Vec<(ItemId, u16)>)
    ensures
        drops@ == coins_for(value),
{
    let gold: u32 = value / COPPER_PER_GOLD;
    let silver: u32 = (value % COPPER_PER_GOLD) / COPPER_PER_SILVER;
    let copper: u32 = value % COPPER_PER_SILVER;
    let mut drops: Vec<(ItemId, u16)> = Vec::new();
    if gold > 0 {
        drops.push((ItemId::GoldCoin, gold as u16));
    }
    if silver > 0 {
        drops.push((ItemId::SilverCoin, silver as u16));
    }
    if copper > 0 {
        drops.push((ItemId::CopperCoin, copper as u16));
    }
    assert(drops@ =~= coins_for(value));
    drops
}

/// What coins are worth in copper.
pub open spec fn worth(coins: Seq<(ItemId, u16)>) -> int
    decreases coins.len(),
{
    if coins.len() == 0 {
        0
    } else {
        worth(coins.drop_last()) + (match coins.last().0.spec_coin_value() {
            Some(v) => coins.last().1 * v,
            None => 0,
        })
    }
}

/// The coins are worth what was asked for, while the gold fits one pile.
#[verifier::spinoff_prover]
pub proof fn law_coins_add_up(value: u32)
    requires
        value / COPPER_PER_GOLD <= u16::MAX,
    ensures
        worth(coins_for(value)) == value,
{
    let gold = value / COPPER_PER_GOLD;
    let silver = (value % COPPER_PER_GOLD) / COPPER_PER_SILVER;
    let copper = value % COPPER_PER_SILVER;
    let a = coin_pile(ItemId::GoldCoin, gold);
    let b = coin_pile(ItemId::SilverCoin, silver);
    let c = coin_pile(ItemId::CopperCoin, copper);
    lemma_worth_add(a, b);
    lemma_worth_add(a + b, c);
    lemma_worth_pile(ItemId::GoldCoin, gold);
    lemma_worth_pile(ItemId::SilverCoin, silver);
    lemma_worth_pile(ItemId::CopperCoin, copper);
    assert(coins_for(value) == a + b + c);
    assert(value == gold * 10_000 + silver * 100 + copper);
}

proof fn lemma_worth_pile(item: ItemId, n: u32)
    requires
        item.spec_coin_value() is Some,
        n <= u16::MAX,
    ensures
        worth(coin_pile(item, n)) == n * item.spec_coin_value()->Some_0,
{
    reveal_with_fuel(worth, 2);
    if n > 0 {
        assert(coin_pile(item, n).drop_last() =~= seq![]);
    }
}

proof fn lemma_worth_add(a: Seq<(ItemId, u16)>, b: Seq<(ItemId, u16)>)
    ensures
        worth(a + b) == worth(a) + worth(b),
    decreases b.len(),
{
    if b.len() == 0 {
        assert(a + b =~= a);
    } else {
        lemma_worth_add(a, b.drop_last());
        assert((a + b).drop_last() =~= a + b.drop_last());
    }
}

/// One row of what an enemy drops, as rolled.
#[derive(Debug, Clone, Copy, PartialEq, Eq, Structural)]
pub struct DropRoll {
    pub item: ItemId,
    /// The chance came up.
    pub hit: bool,
    pub count: u16,
}

/// What the first `n` rows give.
pub open spec fn rolled_drops(rows: Seq<DropRoll>, n: nat) -> Seq<(ItemId, u16)>
    decreases n,
{
    if n == 0 {
        seq![]
    } else {
        let before = rolled_drops(rows, (n - 1) as nat);
        let r = rows[n - 1];
        if r.hit && r.count > 0 {
            before.push((r.item, r.count))
        } else {
            before
        }
    }
}

/// What a killed enemy leaves: its coins, and what its rows rolled.
pub fn kill_enemy(value: u32, rows: &Vec<DropRoll>) -> (drops: Vec<(ItemId, u16)>)
    ensures
        drops@ == coins_for(value) + rolled_drops(rows@, rows@.len()),
{
    let mut drops = spawn_coin_drops(value);
    let mut i: usize = 0;
    assert(drops@ =~= coins_for(value) + rolled_drops(rows@, 0));
    while i < rows.len()
        invariant
            i <= rows.len(),
            drops@ == coins_for(value) + rolled_drops(rows@, i as nat),
        decreases rows.len() - i,
    {
        let r: DropRoll = rows[i];
        if r.hit && r.count > 0 {
            drops.push((r.item, r.count));
        }
        i = i + 1;
        assert(drops@ =~= coins_for(value) + rolled_drops(rows@, i as nat));
    }
    drops
}

// ---- What enemies are like -------------------------------------------------

/// A fighter walks at its target, and away from it while it flees; without a
/// target it goes on as it went.
pub proof fn law_fighters_walk_at_their_target(a: AiState, right: bool)
    ensures
        !a.fleeing && right ==> fighter_heading(a, Some(right)) == 1,
        !a.fleeing && !right ==> fighter_heading(a, Some(right)) == -1,
        a.fleeing && right ==> fighter_heading(a, Some(right)) == -1,
        a.fleeing && !right ==> fighter_heading(a, Some(right)) == 1,
        fighter_heading(a, None) == a.dir,
{
}

/// Slimes, zombies and skeletons keep to the ground; the others fly, each in
/// its own way.
pub proof fn law_species_have_their_ways(kind: EnemyKind)
    ensures
        kind.spec_ai() == AiKind::Slime <==> kind == EnemyKind::GreenSlime || kind
            == EnemyKind::BlueSlime || kind == EnemyKind::LavaSlime,
        kind.spec_ai() == AiKind::Fighter <==> kind == EnemyKind::Zombie || kind
            == EnemyKind::Skeleton,
        kind.spec_ai() == AiKind::FlierBouncer <==> kind == EnemyKind::DemonEye,
        kind.spec_ai() == AiKind::FlierErratic <==> kind == EnemyKind::CaveBat,
        kind.spec_ai() == AiKind::FlierStraight <==> kind == EnemyKind::Watchling,
        kind.spec_ai() == AiKind::Swooper <==> kind == EnemyKind::AshDemon,
        kind.spec_ai().spec_grounded() <==> kind.spec_ai() == AiKind::Slime || kind.spec_ai()
            == AiKind::Fighter,
{
}

/// By day zombies and demon eyes flee and nobody else does; night changes no
/// mind about that. Green and blue slimes are harmless by day above ground
/// until somebody hurts them; of the others the day changes nothing.
pub proof fn law_daylight_sets_moods(f: Foe, above_ground: bool, is_day: bool)
    ensures
        ({
            let m = in_mood(f, above_ground, is_day);
            &&& m.kind == f.kind && m.hp == f.hp && m.ai.dir == f.ai.dir && m.ai.timer
                == f.ai.timer && m.ai.aggroed == f.ai.aggroed && m.ai.burn_ticks == f.ai.burn_ticks
            &&& !is_day ==> m.ai.fleeing == f.ai.fleeing
            &&& is_day && (f.kind == EnemyKind::Zombie || f.kind == EnemyKind::DemonEye)
                ==> m.ai.fleeing
            &&& f.kind != EnemyKind::Zombie && f.kind != EnemyKind::DemonEye ==> m.ai.fleeing
                == f.ai.fleeing
            &&& f.kind == EnemyKind::GreenSlime || f.kind == EnemyKind::BlueSlime ==> (
            m.ai.passive <==> is_day && above_ground && !f.ai.aggroed)
            &&& f.kind != EnemyKind::GreenSlime && f.kind != EnemyKind::BlueSlime ==> m.ai.passive
                == f.ai.passive
        }),
{
}

/// A burning enemy loses one point of health every thirtieth tick of burning,
/// and the fire burns down by one tick each time; nothing else hurts it.
pub proof fn law_fire_hurts_every_half_second(f: Foe)
    ensures
        f.ai.burn_ticks == 0 ==> burnt(f) == f,
        f.ai.burn_ticks > 0 ==> burnt(f).ai.burn_ticks == f.ai.burn_ticks - 1,
        f.ai.burn_ticks > 0 && f.ai.burn_ticks % 30 == 0 && f.hp > 0 ==> burnt(f).hp == f.hp - 1
            && burnt(f).hp_dirty,
        f.ai.burn_ticks % 30 != 0 || f.hp == 0 ==> burnt(f).hp == f.hp,
        f.ai.burn_ticks % 30 != 0 ==> burnt(f).hp_dirty == f.hp_dirty,
        burnt(f).kind == f.kind && burnt(f).ai.dir == f.ai.dir && burnt(f).ai.passive
            == f.ai.passive && burnt(f).ai.fleeing == f.ai.fleeing,
{
}

/// An enemy dies when it has no health left. One that flees is gone once
/// nobody sees it; any other stays.
pub proof fn law_enemies_go_unseen(f: Foe, seen: Seq<bool>)
    ensures
        fate(f, seen) is Dies <==> f.hp == 0,
        fate(f, seen) is Flees <==> f.hp > 0 && f.ai.fleeing && forall|i: int|
            0 <= i < seen.len() ==> !(#[trigger] seen[i]),
        f.hp > 0 && !f.ai.fleeing ==> fate(f, seen) is Stays,
{
    if seen.contains(true) {
        let i = seen.index_of(true);
        assert(seen[i]);
    }
}

/// Exactly the enemies that are near no player are removed.
pub proof fn law_the_forsaken_are_near_nobody(near: Seq<(u32, Vec<bool>)>, n: int, id: u32)
    requires
        0 <= n <= near.len(),
    ensures
        forsaken(near, n).contains(id) <==> exists|i: int|
            0 <= i < n && (#[trigger] near[i]).0 == id && forall|k: int|
                0 <= k < near[i].1@.len() ==> !(#[trigger] near[i].1@[k]),
    decreases n,
{
    if n > 0 {
        law_the_forsaken_are_near_nobody(near, n - 1, id);
        let before = forsaken(near, n - 1);
        let last = near[n - 1];
        if last.1@.contains(true) {
            let k = last.1@.index_of(true);
            assert(last.1@[k]);
        } else {
            let after = before.push(last.0);
            assert(after.contains(id) <==> before.contains(id) || last.0 == id) by {
                assert(after[before.len() as int] == last.0);
                if before.contains(id) {
                    let k = before.index_of(id);
                    assert(after[k] == id);
                }
                if after.contains(id) {
                    let k = after.index_of(id);
                    if k < before.len() {
                        assert(before[k] == id);
                    }
                }
            }
            assert forall|k: int| 0 <= k < last.1@.len() implies !(#[trigger] last.1@[k]) by {
                if last.1@[k] {
                    assert(last.1@.contains(true));
                }
            }
        }
    }
}

/// Everybody is chased, but for friends of the slimes by green and blue
/// slimes; the target is as near as any that is chased.
pub proof fn law_the_nearest_is_the_target(kind: EnemyKind, quarry: Seq<Quarry>, k: int, i: int)
    requires
        0 <= i < quarry.len(),
        is_quarry(kind, quarry, k),
    ensures
        !quarry[i].slime_friend ==> chased(kind, quarry[i]) && quarry[k].distance
            <= quarry[i].distance,
        kind != EnemyKind::GreenSlime && kind != EnemyKind::BlueSlime ==> chased(kind, quarry[i])
            && quarry[k].distance <= quarry[i].distance,
        kind == EnemyKind::GreenSlime || kind == EnemyKind::BlueSlime ==> !quarry[k].slime_friend,
        quarry[i].distance == quarry[k].distance && chased(kind, quarry[i]) ==> k <= i,
{
}

/// A slime waits out its timer and then hops: at its target, or, while it is
/// harmless or has none, the way it faces. Every third hop is a high one. A
/// harmless slime at a ledge turns around.
pub proof fn law_slimes_hop_at_their_target(
    a: AiState,
    at_ledge: bool,
    target_right: Option<bool>,
    next_wait: u32,
)
    requires
        a.counter < u32::MAX,
        a.dir == 1 || a.dir == -1,
    ensures
        ({
            let (b, m) = slime_step(a, at_ledge, target_right, next_wait);
            &&& a.timer > 0 <==> m is Waits
            &&& a.timer > 0 ==> b.timer == a.timer - 1 && b.counter == a.counter
            &&& a.timer > 0 ==> (b.dir != a.dir <==> a.passive && at_ledge)
            &&& a.timer > 0 && b.dir != a.dir ==> b.dir + a.dir == 0
            &&& a.timer == 0 ==> b.timer == next_wait && b.counter == a.counter + 1 && b.dir
                == a.dir
            &&& m matches SlimeMove::Hops { high, right } ==> {
                &&& high <==> (a.counter + 1) % 3 == 0
                &&& !a.passive && target_right is Some ==> right == target_right->Some_0
                &&& a.passive || target_right is None ==> (right <==> a.dir == 1)
            }
        }),
{
}

/// An erratic flier turns when its timer has run out, and waits anew.
pub proof fn law_erratic_fliers_turn_in_time(a: AiState, next_wait: u32)
    ensures
        erratic_step(a, next_wait).1 <==> a.timer == 0,
        a.timer > 0 ==> erratic_step(a, next_wait).0.timer == a.timer - 1,
        a.timer == 0 ==> erratic_step(a, next_wait).0.timer == next_wait,
        erratic_step(a, next_wait).0.dir == a.dir,
{
}

/// A swooper hovers and swoops by turns, for as long as its times say, and
/// fires a volley whenever one is ready and it sees its target.
pub proof fn law_swoopers_take_turns(a: AiState, sight: bool, t: SwoopTimes)
    requires
        a.phase <= 1,
    ensures
        ({
            let (b, m) = swooper_step(a, sight, t);
            &&& m.hovers <==> a.phase == 0
            &&& m.swoops <==> a.phase == 0 && b.phase == 1
            &&& b.phase != a.phase <==> a.timer == 0
            &&& b.phase <= 1
            &&& a.timer == 0 && b.phase == 1 ==> b.timer == t.swoop
            &&& a.timer == 0 && b.phase == 0 ==> b.timer == t.period
            &&& a.timer > 0 ==> b.timer == a.timer - 1
            &&& m.volley <==> sight && a.timer2 == 0
            &&& m.volley ==> b.timer2 == t.volley
            &&& !m.volley && a.timer2 > 0 ==> b.timer2 == a.timer2 - 1
            &&& !m.volley && a.timer2 == 0 ==> b.timer2 == 0
        }),
{
}

/// An enemy pays what it is worth in as few coins as can be: less than a
/// hundred of silver and of copper, and no pile without a coin.
pub proof fn law_coins_are_few(value: u32, i: int)
    requires
        value / 10_000 <= u16::MAX,
        0 <= i < coins_for(value).len(),
    ensures
        coins_for(value)[i].1 > 0,
        match coins_for(value)[i].0 {
            ItemId::CopperCoin => coins_for(value)[i].1 == value % 100,
            ItemId::SilverCoin => coins_for(value)[i].1 == (value / 100) % 100,
            ItemId::GoldCoin => coins_for(value)[i].1 == value / 10_000,
            _ => false,
        },
        coins_for(value).len() == (if value % 100 > 0 {
            1int
        } else {
            0
        }) + (if (value / 100) % 100 > 0 {
            1int
        } else {
            0
        }) + (if value / 10_000 > 0 {
            1int
        } else {
            0
        }),
{
    assert((value % 10_000) / 100 == (value / 100) % 100);
}

/// What an enemy drops is what the rolls that hit gave, in their order.
pub proof fn law_hits_are_dropped(rows: Seq<DropRoll>, n: nat)
    requires
        n <= rows.len(),
    ensures
        rolled_drops(rows, n) == rows.take(n as int).filter(
            |r: DropRoll| r.hit && r.count > 0,
        ).map_values(|r: DropRoll| (r.item, r.count)),
    decreases n,
{
    reveal(Seq::filter);
    let f = |r: DropRoll| r.hit && r.count > 0;
    let m = |r: DropRoll| (r.item, r.count);
    if n > 0 {
        law_hits_are_dropped(rows, (n - 1) as nat);
        let (s, t) = (rows.take(n as int), rows.take(n - 1));
        assert(s.drop_last() =~= t);
        if f(s.last()) {
            assert(s.filter(f) == t.filter(f).push(s.last()));
            assert(s.filter(f).map_values(m) =~= t.filter(f).map_values(m).push(m(s.last())));
        }
    }
    assert(rolled_drops(rows, n) =~= rows.take(n as int).filter(f).map_values(m));
}

/// Each townsperson nearby takes two enemies off the crowd that may gather,
/// and three of them keep all away.
pub proof fn law_towns_keep_enemies_away(base: u32, npcs: u32)
    ensures
        npcs == 0 ==> spec_room(base, npcs) == base,
        npcs >= 3 ==> spec_room(base, npcs) == 0,
        1 <= npcs < 3 && base >= 2 ==> spec_room(base, npcs) == spec_room(
            (base - 2) as u32,
            (npcs - 1) as u32,
        ),
        base < 2 && npcs >= 1 ==> spec_room(base, npcs) == 0,
{
}

/// Who walks appears on solid ground with three by two cells of air above it;
/// who flies, in two by two cells of air.
pub proof fn law_enemies_appear_in_the_open(g: Grid, x: int, y: int, a: int, b: int)
    ensures
        placeable(g, true, x, y) ==> g.solid(x, y),
        placeable(g, true, x, y) && x - 1 <= a <= x + 1 && y - 2 <= b < y ==> !g.solid(a, b),
        placeable(g, false, x, y) && x <= a <= x + 1 && y <= b <= y + 1 ==> !g.solid(a, b),
        g.solid(x, y) && y >= 2 && !placeable(g, true, x, y) ==> exists|c: int, d: int|
            x - 1 <= c <= x + 1 && y - 2 <= d < y && #[trigger] g.solid(c, d),
        !placeable(g, false, x, y) ==> exists|c: int, d: int|
            x <= c <= x + 1 && y <= d <= y + 1 && #[trigger] g.solid(c, d),
{
    if placeable(g, true, x, y) {
        assert(airy(g, x - 1, y - 2, x + 1, y - 1));
    }
    if placeable(g, false, x, y) {
        assert(airy(g, x, y, x + 1, y + 1));
    }
}

/// Where there is room for all, every enemy that was rolled comes in.
pub proof fn law_enemies_come_while_there_is_room(
    entries: Seq<(u32, Entity)>,
    next: int,
    offers: Seq<Option<Entity>>,
    most: int,
    n: nat,
    i: int,
)
    requires
        n <= offers.len(),
        0 <= i < n,
        offers[i] is Some,
        enemies_among(entries, entries.len()) + n <= most,
    ensures
        enemies_among(
            spawned(entries, next, offers, most, n),
            spawned(entries, next, offers, most, n).len(),
        ) <= enemies_among(entries, entries.len()) + n,
        exists|j: int|
            entries.len() <= j < spawned(entries, next, offers, most, n).len() && (
            #[trigger] spawned(entries, next, offers, most, n)[j]).1 == offers[i]->Some_0,
    decreases n,
{
    lemma_room(entries, next, offers, most, (n - 1) as nat);
    lemma_room(entries, next, offers, most, n);
    let before = spawned(entries, next, offers, most, (n - 1) as nat);
    let after = spawned(entries, next, offers, most, n);
    if i == n - 1 {
        assert(after.last().1 == offers[i]->Some_0);
        assert(after[after.len() - 1].1 == offers[i]->Some_0);
    } else {
        law_enemies_come_while_there_is_room(entries, next, offers, most, (n - 1) as nat, i);
        let j = choose|j: int|
            entries.len() <= j < before.len() && (#[trigger] before[j]).1 == offers[i]->Some_0;
        assert(after[j] == before[j]);
    }
}

proof fn lemma_room(
    entries: Seq<(u32, Entity)>,
    next: int,
    offers: Seq<Option<Entity>>,
    most: int,
    n: nat,
)
    requires
        n <= offers.len(),
    ensures
        enemies_among(
            spawned(entries, next, offers, most, n),
            spawned(entries, next, offers, most, n).len(),
        ) <= enemies_among(entries, entries.len()) + n,
        spawned(entries, next, offers, most, n).len() >= entries.len(),
    decreases n,
{
    if n > 0 {
        lemma_room(entries, next, offers, most, (n - 1) as nat);
        let before = spawned(entries, next, offers, most, (n - 1) as nat);
        let after = spawned(entries, next, offers, most, n);
        lemma_enemies_among_prefix(before, after, before.len());
    }
}

/// The enemies of a world are those of its entities that are enemies.
pub proof fn law_enemies_are_counted(entries: Seq<(u32, Entity)>, n: nat)
    requires
        n <= entries.len(),
    ensures
        enemies_among(entries, n) == entries.take(n as int).filter(
            |e: (u32, Entity)| e.1.kind is Enemy,
        ).len(),
    decreases n,
{
    reveal(Seq::filter);
    if n > 0 {
        law_enemies_are_counted(entries, (n - 1) as nat);
        assert(entries.take(n as int).drop_last() =~= entries.take(n - 1));
    }
}

/// The far are looked for twice a second.
pub proof fn law_sweeps_come_twice_a_second()
    ensures
        DESPAWN_SWEEP_TICKS == 30,
{
}

} // verus!
