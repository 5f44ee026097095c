//! The tick of all enemies: mood, target, step, fire, and who is gone.

use vstd::prelude::*;

use crate::sim::enemies::{
    burn, burnt, chased, choose_target, erratic_step, fate, fighter_dir, fighter_heading, foe_fate,
    in_mood, is_quarry, set_mood, slime_step, step_erratic, step_slime, step_swooper, swooper_step,
    AiKind, AiState, EnemyKind, Foe, FoeFate, Quarry, SwoopTimes,
};
use crate::sim::entities::{numbered, Body, Entity, EntityKind, EntityStore};

verus! {

/// An enemy at the start of its tick, and all that it meets with in it.
pub struct Turn {
    pub foe: Foe,
    /// Its center lies above the underground.
    pub above_ground: bool,
    pub quarry: Vec<Quarry>,
    /// Whether each player lies to its right.
    pub right: Vec<bool>,
    /// Whether it sees each player.
    pub sight: Vec<bool>,
    /// It ends up on the ground.
    pub lands: bool,
    pub at_ledge: bool,
    /// The next wait, as rolled.
    pub next_wait: u32,
    pub times: SwoopTimes,
    /// Where it ends up.
    pub body: Body,
    /// Whether each player has it on their screen then.
    pub seen: Vec<bool>,
}

impl Turn {
    pub open spec fn wf(self) -> bool {
        &&& self.right@.len() == self.quarry@.len()
        &&& self.sight@.len() == self.quarry@.len()
        &&& self.foe.ai.counter < u32::MAX
        &&& self.foe.ai.dir == 1 || self.foe.ai.dir == -1
    }

    /// The player that the enemy goes for.
    pub open spec fn target(self) -> Option<int> {
        if exists|k: int| is_quarry(self.foe.kind, self.quarry@, k) {
            Some(choose|k: int| is_quarry(self.foe.kind, self.quarry@, k))
        } else {
            None
        }
    }

    /// Whether the target lies to the right.
    pub open spec fn target_right(self) -> Option<bool> {
        match self.target() {
            Some(k) => Some(self.right@[k]),
            None => None,
        }
    }

    /// The enemy in the mood of the hour.
    pub open spec fn mood(self, is_day: bool) -> Foe {
        in_mood(self.foe, self.above_ground, is_day)
    }

    /// What it is up to after its step.
    pub open spec fn decided(self, is_day: bool) -> AiState {
        let a = self.mood(is_day).ai;
        match self.foe.kind.spec_ai() {
            AiKind::Slime => {
                let b = if self.lands {
                    slime_step(a, self.at_ledge, self.target_right(), self.next_wait).0
                } else {
                    a
                };
                AiState { on_ground: self.lands, ..b }
            },
            AiKind::Fighter => AiState {
                dir: fighter_heading(a, self.target_right()),
                on_ground: self.lands,
                ..a
            },
            AiKind::FlierErratic => erratic_step(a, self.next_wait).0,
            AiKind::Swooper => match self.target() {
                Some(k) => swooper_step(a, self.sight@[k], self.times).0,
                None => a,
            },
            AiKind::FlierBouncer | AiKind::FlierStraight => a,
        }
    }

    /// The player that it shoots at.
    pub open spec fn volley(self, is_day: bool) -> Option<int> {
        match self.target() {
            Some(k) => if self.foe.kind.spec_ai() == AiKind::Swooper && swooper_step(
                self.mood(is_day).ai,
                self.sight@[k],
                self.times,
            ).1.volley {
                Some(k)
            } else {
                None
            },
            None => None,
        }
    }

    /// The enemy at the end of its tick.
    pub open spec fn ended(self, is_day: bool) -> Foe {
        burnt(Foe { ai: self.decided(is_day), ..self.mood(is_day) })
    }

    pub open spec fn fate(self, is_day: bool) -> FoeFate {
        fate(self.ended(is_day), self.seen@)
    }
}

/// One turn for each enemy, and none for what is none.
pub open spec fn one_turn_each(entries: Seq<(u32, Entity)>, turns: Seq<Option<Turn>>) -> bool {
    &&& turns.len() == entries.len()
    &&& forall|i: int|
        0 <= i < entries.len() ==> (match #[trigger] turns[i] {
            Some(t) => entries[i].1.kind == EntityKind::Enemy(t.foe.kind) && t.wf(),
            None => !(entries[i].1.kind is Enemy),
        })
}

/// Entity `i` is still there after the tick.
pub open spec fn stays(turns: Seq<Option<Turn>>, is_day: bool, i: int) -> bool {
    match turns[i] {
        Some(t) => t.fate(is_day) == FoeFate::Stays,
        None => true,
    }
}

/// What is left of the first `n` entities; enemies are where their step led.
pub open spec fn left_of(
    entries: Seq<(u32, Entity)>,
    turns: Seq<Option<Turn>>,
    is_day: bool,
    n: int,
) -> Seq<(u32, Entity)>
    decreases n,
{
    if n <= 0 {
        seq![]
    } else {
        let before = left_of(entries, turns, is_day, n - 1);
        let (id, e) = entries[n - 1];
        if !stays(turns, is_day, n - 1) {
            before
        } else {
            match turns[n - 1] {
                Some(t) => before.push((id, Entity { body: t.body, awake: true, ..e })),
                None => before.push((id, e)),
            }
        }
    }
}

/// The enemies among the first `n` entities that are still there.
pub open spec fn foes_left(
    entries: Seq<(u32, Entity)>,
    turns: Seq<Option<Turn>>,
    is_day: bool,
    n: int,
) -> Seq<(u32, Foe)>
    decreases n,
{
    if n <= 0 {
        seq![]
    } else {
        let before = foes_left(entries, turns, is_day, n - 1);
        match turns[n - 1] {
            Some(t) => if t.fate(is_day) == FoeFate::Stays {
                before.push((entries[n - 1].0, t.ended(is_day)))
            } else {
                before
            },
            None => before,
        }
    }
}

/// The numbers of those among the first `n` entities to whom `what` happens.
pub open spec fn lost(
    entries: Seq<(u32, Entity)>,
    turns: Seq<Option<Turn>>,
    is_day: bool,
    what: FoeFate,
    n: int,
) -> Seq<u32>
    decreases n,
{
    if n <= 0 {
        seq![]
    } else {
        let before = lost(entries, turns, is_day, what, n - 1);
        match turns[n - 1] {
            Some(t) => if t.fate(is_day) == what {
                before.push(entries[n - 1].0)
            } else {
                before
            },
            None => before,
        }
    }
}

/// The volleys among the first `n` entities: who shoots, and at whom.
pub open spec fn volleys(
    entries: Seq<(u32, Entity)>,
    turns: Seq<Option<Turn>>,
    is_day: bool,
    n: int,
) -> Seq<(u32, int)>
    decreases n,
{
    if n <= 0 {
        seq![]
    } else {
        let before = volleys(entries, turns, is_day, n - 1);
        match turns[n - 1] {
            Some(t) => match t.volley(is_day) {
                Some(k) => before.push((entries[n - 1].0, k)),
                None => before,
            },
            None => before,
        }
    }
}

/// What came of the tick of the enemies.
pub struct Hunt {
    /// The enemies that are still there.
    pub foes: Vec<(u32, Foe)>,
    pub dead: Vec<u32>,
    /// Those that fled out of sight.
    pub gone: Vec<u32>,
    /// Who shoots, and the player shot at.
    pub volleys: Vec<(u32, usize)>,
}

proof fn lemma_target(t: Turn, k: int)
    requires
        is_quarry(t.foe.kind, t.quarry@, k),
    ensures
        t.target() == Some(k),
{
    let m = choose|m: int| is_quarry(t.foe.kind, t.quarry@, m);
    assert(chased(t.foe.kind, t.quarry@[m]) && chased(t.foe.kind, t.quarry@[k]));
}

/// Lets one enemy have its turn.
fn take_turn(t: &Turn, is_day: bool) -> (r: (Foe, Option<usize>))
    requires
        t.wf(),
    ensures
        r.0 == t.ended(is_day),
        match r.1 {
            Some(k) => t.volley(is_day) == Some(k as int),
            None => t.volley(is_day) is None,
        },
{
    let mut f = set_mood(t.foe, t.above_ground, is_day);
    let target = choose_target(t.foe.kind, &t.quarry);
    proof {
        match target {
            Some(k) => {
                lemma_target(*t, k as int);
            },
            None => {},
        }
    }
    let right: Option<bool> = match target {
        Some(k) => Some(t.right[k]),
        None => None,
    };
    let mut volley: Option<usize> = None;
    match t.foe.kind.ai() {
        AiKind::Slime => {
            if t.lands {
                f.ai = step_slime(f.ai, t.at_ledge, right, t.next_wait).0;
            }
            f.ai.on_ground = t.lands;
        },
        AiKind::Fighter => {
            f.ai.dir = fighter_dir(f.ai, right);
            f.ai.on_ground = t.lands;
        },
        AiKind::FlierErratic => {
            f.ai = step_erratic(f.ai, t.next_wait).0;
        },
        AiKind::Swooper => {
            if let Some(k) = target {
                let (ai, m) = step_swooper(f.ai, t.sight[k], t.times);
                f.ai = ai;
                if m.volley {
                    volley = Some(k);
                }
            }
        },
        AiKind::FlierBouncer | AiKind::FlierStraight => {},
    }
    (burn(f), volley)
}

/// The players shot at, as numbers.
pub open spec fn shots(v: Seq<(u32, usize)>) -> Seq<(u32, int)> {
    Seq::new(v.len(), |i: int| (v[i].0, v[i].1 as int))
}

/// Lets every enemy have its turn. The dead and those that fled out of sight
/// are taken out; whatever is no enemy stays as it is.
pub fn tick_enemies(store: &mut EntityStore, turns: &Vec<Option<Turn>>, is_day: bool) -> (h: Hunt)
    requires
        old(store).wf(),
        one_turn_each(old(store).entries@, turns@),
    ensures
        final(store).wf(),
        final(store).next_id == old(store).next_id,
        ({
            let (e, n) = (old(store).entries@, old(store).entries@.len() as int);
            &&& final(store).entries@ == left_of(e, turns@, is_day, n)
            &&& h.foes@ == foes_left(e, turns@, is_day, n)
            &&& h.dead@ == lost(e, turns@, is_day, FoeFate::Dies, n)
            &&& h.gone@ == lost(e, turns@, is_day, FoeFate::Flees, n)
            &&& shots(h.volleys@) == volleys(e, turns@, is_day, n)
        }),
{
    let ghost all = store.entries@;
    let mut h = Hunt {
        foes: Vec::new(),
        dead: Vec::new(),
        gone: Vec::new(),
        volleys: Vec::new(),
    };
    let mut left: Vec<(u32, Entity)> = Vec::new();
    let mut i: usize = 0;
    assert(shots(h.volleys@) =~= seq![]);
    while i < store.entries.len()
        invariant
            *store == *old(store),
            all == store.entries@,
            i <= store.entries.len(),
            one_turn_each(all, turns@),
            left@ == left_of(all, turns@, is_day, i as int),
            h.foes@ == foes_left(all, turns@, is_day, i as int),
            h.dead@ == lost(all, turns@, is_day, FoeFate::Dies, i as int),
            h.gone@ == lost(all, turns@, is_day, FoeFate::Flees, i as int),
            shots(h.volleys@) == volleys(all, turns@, is_day, i as int),
        decreases store.entries.len() - i,
    {
        let (id, e): (u32, Entity) = store.entries[i];
        assert(turns@[i as int] == turns@[i as int]);
        match &turns[i] {
            Some(t) => {
                let (foe, volley) = take_turn(t, is_day);
                if let Some(k) = volley {
                    let ghost before = h.volleys@;
                    h.volleys.push((id, k));
                    assert(shots(h.volleys@) =~= shots(before).push((id, k as int)));
                }
                match foe_fate(foe, &t.seen) {
                    FoeFate::Stays => {
                        let mut moved = e;
                        moved.body = t.body;
                        moved.awake = true;
                        left.push((id, moved));
                        h.foes.push((id, foe));
                    },
                    FoeFate::Dies => {
                        h.dead.push(id);
                    },
                    FoeFate::Flees => {
                        h.gone.push(id);
                    },
                }
            },
            None => {
                left.push((id, e));
            },
        }
        i = i + 1;
    }
    proof {
        lemma_left(all, turns@, is_day, all.len() as int, store.next_id as int);
    }
    store.entries = left;
    h
}

/// Whatever is left was there under its number, and numbers still increase.
proof fn lemma_left(
    entries: Seq<(u32, Entity)>,
    turns: Seq<Option<Turn>>,
    is_day: bool,
    n: int,
    next: int,
)
    requires
        numbered(entries, next),
        0 <= n <= entries.len(),
    ensures
        numbered(left_of(entries, turns, is_day, n), next),
        forall|k: int|
            0 <= k < left_of(entries, turns, is_day, n).len() ==> was_there(
                entries,
                turns,
                is_day,
                n,
                #[trigger] left_of(entries, turns, is_day, n)[k],
            ),
    decreases n,
{
    if n > 0 {
        lemma_left(entries, turns, is_day, n - 1, next);
        let m = n - 1;
        let (before, now) = (
            left_of(entries, turns, is_day, m),
            left_of(entries, turns, is_day, n),
        );
        assert forall|k: int| 0 <= k < now.len() implies was_there(
            entries,
            turns,
            is_day,
            n,
            #[trigger] now[k],
        ) by {
            if k < before.len() {
                assert(now[k] == before[k]);
                assert(was_there(entries, turns, is_day, m, before[k]));
                let i = choose|i: int|
                    #[trigger] is_left_from(entries, turns, is_day, m, i, before[k]);
                assert(is_left_from(entries, turns, is_day, n, i, now[k]));
            } else {
                assert(is_left_from(entries, turns, is_day, n, n - 1, now[k]));
            }
        }
        assert forall|a: int, b: int| 0 <= a < b < now.len() implies (#[trigger] now[a]).0 < (
        #[trigger] now[b]).0 by {
            if b == before.len() {
                assert(now[a] == before[a]);
                assert(was_there(entries, turns, is_day, m, before[a]));
                let i = choose|i: int|
                    #[trigger] is_left_from(entries, turns, is_day, m, i, before[a]);
                assert(entries[i].0 < entries[n - 1].0);
            } else {
                assert(now[a] == before[a] && now[b] == before[b]);
            }
        }
        assert forall|a: int| 0 <= a < now.len() implies (#[trigger] now[a]).0 < next by {
            assert(was_there(entries, turns, is_day, n, now[a]));
            let i = choose|i: int| is_left_from(entries, turns, is_day, n, i, now[a]);
            assert(entries[i].0 < next);
        }
    }
}

/// Entity `i` of the first `n` stayed, as `e`.
pub open spec fn is_left_from(
    entries: Seq<(u32, Entity)>,
    turns: Seq<Option<Turn>>,
    is_day: bool,
    n: int,
    i: int,
    e: (u32, Entity),
) -> bool {
    &&& 0 <= i < n
    &&& stays(turns, is_day, i)
    &&& e == (match turns[i] {
        Some(t) => (entries[i].0, Entity { body: t.body, awake: true, ..entries[i].1 }),
        None => entries[i],
    })
}

/// `e` stayed from among the first `n`.
pub open spec fn was_there(
    entries: Seq<(u32, Entity)>,
    turns: Seq<Option<Turn>>,
    is_day: bool,
    n: int,
    e: (u32, Entity),
) -> bool {
    exists|i: int| is_left_from(entries, turns, is_day, n, i, e)
}

/// No dead enemy stays among the entities: whoever is still there after the
/// tick was an enemy that is alive, or none.
pub proof fn law_no_dead_enemy_stays(
    entries: Seq<(u32, Entity)>,
    turns: Seq<Option<Turn>>,
    is_day: bool,
    next: int,
    k: int,
)
    requires
        numbered(entries, next),
        one_turn_each(entries, turns),
        0 <= k < left_of(entries, turns, is_day, entries.len() as int).len(),
    ensures
        ({
            let e = left_of(entries, turns, is_day, entries.len() as int)[k];
            exists|i: int|
                {
                    &&& #[trigger] is_left_from(
                        entries,
                        turns,
                        is_day,
                        entries.len() as int,
                        i,
                        e,
                    )
                    &&& e.1.kind is Enemy ==> turns[i] is Some && turns[i]->Some_0.ended(
                        is_day,
                    ).hp > 0
                }
        }),
{
    let n = entries.len() as int;
    lemma_left(entries, turns, is_day, n, next);
    let e = left_of(entries, turns, is_day, n)[k];
    assert(was_there(entries, turns, is_day, n, e));
    let i = choose|i: int| is_left_from(entries, turns, is_day, n, i, e);
    assert(turns[i] == turns[i]);
}

/// Every enemy that is still there is alive, and a green or blue slime is
/// harmless exactly by day, above ground and unhurt: dusk angers it, dawn calms
/// it, and only damage is for good.
pub proof fn law_moods_follow_the_hour(
    entries: Seq<(u32, Entity)>,
    turns: Seq<Option<Turn>>,
    is_day: bool,
    n: int,
    k: int,
)
    requires
        0 <= n <= turns.len(),
        0 <= k < foes_left(entries, turns, is_day, n).len(),
    ensures
        ({
            let (id, f) = foes_left(entries, turns, is_day, n)[k];
            &&& f.hp > 0
            &&& exists|i: int|
                #![trigger turns[i]]
                {
                    &&& 0 <= i < n
                    &&& turns[i] is Some
                    &&& entries[i].0 == id
                    &&& f == turns[i]->Some_0.ended(is_day)
                    &&& f.kind == turns[i]->Some_0.foe.kind
                    &&& f.ai.aggroed == turns[i]->Some_0.foe.ai.aggroed
                    &&& f.kind.spec_day_passive_slime() ==> f.ai.passive == (!f.ai.aggroed
                        && is_day && turns[i]->Some_0.above_ground)
                }
        }),
    decreases n,
{
    let before = foes_left(entries, turns, is_day, n - 1);
    if k < before.len() {
        law_moods_follow_the_hour(entries, turns, is_day, n - 1, k);
        assert(foes_left(entries, turns, is_day, n)[k] == before[k]);
        let (id, f) = before[k];
        let i = choose|i: int|
            #![trigger turns[i]]
            {
                &&& 0 <= i < n - 1
                &&& turns[i] is Some
                &&& entries[i].0 == id
                &&& f == turns[i]->Some_0.ended(is_day)
                &&& f.kind == turns[i]->Some_0.foe.kind
                &&& f.ai.aggroed == turns[i]->Some_0.foe.ai.aggroed
                &&& f.kind.spec_day_passive_slime() ==> f.ai.passive == (!f.ai.aggroed && is_day
                    && turns[i]->Some_0.above_ground)
            };
        assert(turns[i] is Some);
    } else {
        assert(turns[n - 1] is Some);
    }
}

/// A zombie or skeleton with a target: it turns to the nearest player by
/// night, and a zombie turns away by day or once it flees.
pub proof fn law_fighters_chase_the_nearest(t: Turn, is_day: bool, k: int)
    requires
        t.wf(),
        t.foe.kind == EnemyKind::Zombie || t.foe.kind == EnemyKind::Skeleton,
        is_quarry(t.foe.kind, t.quarry@, k),
    ensures
        ({
            let away = t.foe.ai.fleeing || (is_day && t.foe.kind == EnemyKind::Zombie);
            &&& t.target() == Some(k)
            &&& t.decided(is_day).dir == (if t.right@[k] == away {
                -1
            } else {
                1int
            })
            &&& t.decided(is_day).on_ground == t.lands
        }),
{
    let j = choose|j: int| is_quarry(t.foe.kind, t.quarry@, j);
    assert(is_quarry(t.foe.kind, t.quarry@, j));
    assert(j == k) by {
        assert(t.quarry@[j] == t.quarry@[j]);
        assert(t.quarry@[k] == t.quarry@[k]);
    }
}

/// A slime moves only when it has landed; a flier that darts about or swoops
/// keeps its own time whether it lands or not, and nobody swoops or shoots
/// without a target.
pub proof fn law_each_species_moves_its_own_way(t: Turn, is_day: bool)
    requires
        t.wf(),
    ensures
        t.foe.kind.spec_ai() == AiKind::Slime && !t.lands ==> t.decided(is_day) == (AiState {
            on_ground: false,
            ..t.mood(is_day).ai
        }),
        t.foe.kind.spec_ai() == AiKind::Slime && t.lands && t.foe.ai.timer == 0 ==> t.decided(
            is_day,
        ).counter == t.foe.ai.counter + 1 && t.decided(is_day).timer == t.next_wait,
        t.foe.kind == EnemyKind::DemonEye || t.foe.kind == EnemyKind::Watchling ==> t.decided(
            is_day,
        ) == t.mood(is_day).ai,
        t.foe.kind == EnemyKind::CaveBat ==> t.decided(is_day).timer == (if t.foe.ai.timer == 0 {
            t.next_wait as int
        } else {
            t.foe.ai.timer - 1
        }),
        t.target() is None && t.foe.kind == EnemyKind::AshDemon ==> t.decided(is_day) == t.mood(
            is_day,
        ).ai,
        t.volley(is_day) is Some <==> t.foe.kind == EnemyKind::AshDemon && t.target() is Some
            && t.sight@[t.target()->Some_0] && t.foe.ai.timer2 == 0,
        t.volley(is_day) is Some ==> t.volley(is_day) == t.target(),
{
}

/// Those who are lost are lost for a reason: an enemy is among the dead
/// exactly if it has no health left after its turn.
pub proof fn law_the_dead_have_no_health(
    entries: Seq<(u32, Entity)>,
    turns: Seq<Option<Turn>>,
    is_day: bool,
    n: int,
    id: u32,
)
    requires
        0 <= n <= entries.len(),
        turns.len() == entries.len(),
    ensures
        lost(entries, turns, is_day, FoeFate::Dies, n).contains(id) <==> exists|i: int|
            #![trigger turns[i]]
            0 <= i < n && entries[i].0 == id && turns[i] is Some && turns[i]->Some_0.ended(
                is_day,
            ).hp == 0,
    decreases n,
{
    if n > 0 {
        law_the_dead_have_no_health(entries, turns, is_day, n - 1, id);
        let before = lost(entries, turns, is_day, FoeFate::Dies, n - 1);
        let after = lost(entries, turns, is_day, FoeFate::Dies, n);
        if after.len() > before.len() {
            assert(after[before.len() as int] == entries[n - 1].0);
            if before.contains(id) {
                assert(after[before.index_of(id)] == id);
            }
            if after.contains(id) {
                let k = after.index_of(id);
                if k < before.len() {
                    assert(before[k] == id);
                } else {
                    assert(turns[n - 1] is Some);
                }
            }
        }
        if before.contains(id) {
            let i = choose|i: int|
                #![trigger turns[i]]
                0 <= i < n - 1 && entries[i].0 == id && turns[i] is Some
                    && turns[i]->Some_0.ended(is_day).hp == 0;
            assert(turns[i] is Some);
        }
    }
}

/// Whoever shoots in their turn is noted with the one they shoot at, in the order of the turns.
pub proof fn law_volleys_come_in_turn(
    entries: Seq<(u32, Entity)>,
    turns: Seq<Option<Turn>>,
    is_day: bool,
    n: int,
)
    requires
        0 <= n < turns.len(),
    ensures
        volleys(entries, turns, is_day, 0).len() == 0,
        turns[n] is Some && turns[n]->Some_0.volley(is_day) is Some ==> volleys(
            entries,
            turns,
            is_day,
            n + 1,
        ) == volleys(entries, turns, is_day, n).push(
            (entries[n].0, turns[n]->Some_0.volley(is_day)->Some_0),
        ),
        turns[n] is None || turns[n]->Some_0.volley(is_day) is None ==> volleys(
            entries,
            turns,
            is_day,
            n + 1,
        ) == volleys(entries, turns, is_day, n),
        stays(turns, is_day, n) <==> turns[n] is None || turns[n]->Some_0.fate(is_day) is Stays,
        turns[n] is Some && turns[n]->Some_0.volley(is_day) is Some
            ==> turns[n]->Some_0.foe.kind.spec_ai() is Swooper,
{
}

} // verus!
