//! The order of a tick.

use vstd::prelude::*;

use crate::sim::clock::{Clock, SNAPSHOT_INTERVAL_TICKS};

verus! {

/// One thing that a tick does.
#[derive(Debug, Clone, Copy, PartialEq, Eq, Structural)]
pub enum Stage {
    /// The time is told to everyone.
    TimeSync,
    /// Who moved is told, and chunks follow.
    Movement,
    World,
    Entities,
    Spawning,
    Enemies,
    Projectiles,
    Swings,
    Contact,
    Vitals,
    /// The graces of enemies that are gone are forgotten.
    Graces,
    Supports,
    /// Chests out of reach are closed.
    Chests,
    HeldItems,
    /// The changed cells go out.
    TileBatch,
    EntityUpdates,
    /// Those who fell behind are taken off.
    Kicks,
}

/// A stage, if it is due.
pub open spec fn stage_if(b: bool, s: Stage) -> Seq<Stage> {
    if b {
        seq![s]
    } else {
        Seq::empty()
    }
}

/// What every tick does between movement and what goes out.
pub open spec fn steady_stages() -> Seq<Stage> {
    seq![
        Stage::World,
        Stage::Entities,
        Stage::Spawning,
        Stage::Enemies,
        Stage::Projectiles,
        Stage::Swings,
        Stage::Contact,
        Stage::Vitals,
        Stage::Graces,
        Stage::Supports,
        Stage::Chests,
        Stage::HeldItems,
        Stage::TileBatch,
    ]
}

/// The stages of a tick, in order.
pub open spec fn planned(tick: u64, time_sync: u32) -> Seq<Stage> {
    let snapshot = tick % (SNAPSHOT_INTERVAL_TICKS as u64) == 0;
    stage_if(tick % (time_sync as u64) == 0, Stage::TimeSync) + stage_if(snapshot, Stage::Movement)
        + steady_stages() + stage_if(snapshot, Stage::EntityUpdates) + seq![Stage::Kicks]
}

/// Advances the clock and plans the tick; the time is told every `time_sync`
/// ticks.
pub fn tick(clock: &mut Clock, time_sync: u32) -> (plan: Vec<Stage>)
    requires
        old(clock).wf(),
        old(clock).tick < u64::MAX,
        old(clock).day < u32::MAX,
        time_sync > 0,
    ensures
        *final(clock) == old(clock).spec_advance(),
        final(clock).wf(),
        plan@ == planned(final(clock).tick, time_sync),
{
    clock.advance();
    let snapshot: bool = clock.due(SNAPSHOT_INTERVAL_TICKS);
    let mut plan: Vec<Stage> = Vec::new();
    if clock.due(time_sync) {
        plan.push(Stage::TimeSync);
    }
    if snapshot {
        plan.push(Stage::Movement);
    }
    let ghost head = plan@;
    plan.push(Stage::World);
    plan.push(Stage::Entities);
    plan.push(Stage::Spawning);
    plan.push(Stage::Enemies);
    plan.push(Stage::Projectiles);
    plan.push(Stage::Swings);
    plan.push(Stage::Contact);
    plan.push(Stage::Vitals);
    plan.push(Stage::Graces);
    plan.push(Stage::Supports);
    plan.push(Stage::Chests);
    plan.push(Stage::HeldItems);
    plan.push(Stage::TileBatch);
    assert(plan@ =~= head + steady_stages());
    if snapshot {
        plan.push(Stage::EntityUpdates);
    }
    plan.push(Stage::Kicks);
    assert(plan@ =~= planned(clock.tick, time_sync));
    plan
}

/// Whatever a tick changes goes out in the same tick: cells after everything
/// that changes them, and those who fell behind are taken off last.
pub proof fn law_changes_go_out_last(tick: u64, time_sync: u32)
    ensures
        planned(tick, time_sync).last() == Stage::Kicks,
        forall|i: int|
            0 <= i < planned(tick, time_sync).len() && #[trigger] planned(tick, time_sync)[i]
                == Stage::TileBatch ==> i + 2 + stage_if(
                tick % (SNAPSHOT_INTERVAL_TICKS as u64) == 0,
                Stage::EntityUpdates,
            ).len() == planned(tick, time_sync).len(),
{
}

/// Each tick the world moves before its inhabitants, blows fall before wounds
/// are counted, changes go out after everything that makes them, and kicks
/// come last; movement and entities are told every third tick, the time as
/// often as it is to be.
pub proof fn law_a_tick_has_its_order(tick: u64, time_sync: u32)
    requires
        time_sync > 0,
    ensures
        ({
            let p = planned(tick, time_sync);
            let snapshot = tick % 3 == 0;
            let first = (if tick % (time_sync as u64) == 0 {
                1int
            } else {
                0
            }) + (if snapshot {
                1int
            } else {
                0
            });
            &&& p.contains(Stage::TimeSync) <==> tick % (time_sync as u64) == 0
            &&& p.contains(Stage::Movement) <==> snapshot
            &&& p.contains(Stage::EntityUpdates) <==> snapshot
            &&& p.last() == Stage::Kicks
            &&& p[first] == Stage::World && p[first + 1] == Stage::Entities && p[first + 2]
                == Stage::Spawning && p[first + 3] == Stage::Enemies && p[first + 4]
                == Stage::Projectiles && p[first + 5] == Stage::Swings && p[first + 6]
                == Stage::Contact && p[first + 7] == Stage::Vitals && p[first + 8]
                == Stage::Graces && p[first + 9] == Stage::Supports && p[first + 10]
                == Stage::Chests && p[first + 11] == Stage::HeldItems && p[first + 12]
                == Stage::TileBatch
            &&& p.len() == first + 13 + (if snapshot {
                2int
            } else {
                1
            })
        }),
{
    let p = planned(tick, time_sync);
    let snapshot = tick % 3 == 0;
    let sync = tick % (time_sync as u64) == 0;
    let a = stage_if(sync, Stage::TimeSync);
    let b = stage_if(snapshot, Stage::Movement);
    let s = steady_stages();
    let e = stage_if(snapshot, Stage::EntityUpdates);
    assert(p == a + b + s + e + seq![Stage::Kicks]);
    if sync {
        assert(p[0] == Stage::TimeSync);
    }
    if snapshot {
        assert(p[a.len() as int] == Stage::Movement);
        assert(p[(a.len() + b.len() + s.len()) as int] == Stage::EntityUpdates);
    }
    assert forall|i: int| 0 <= i < p.len() implies (p[i] == Stage::TimeSync ==> sync) && (p[i]
        == Stage::Movement ==> snapshot) && (p[i] == Stage::EntityUpdates ==> snapshot) by {
        if i < a.len() {
            assert(p[i] == a[i]);
        } else if i < a.len() + b.len() {
            assert(p[i] == b[i - a.len()]);
        } else if i < a.len() + b.len() + s.len() {
            assert(p[i] == s[i - a.len() - b.len()]);
        } else if i < a.len() + b.len() + s.len() + e.len() {
            assert(p[i] == e[i - a.len() - b.len() - s.len()]);
        }
    }
}

} // verus!
