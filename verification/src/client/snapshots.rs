//! Positions that came in over time, and which of them to draw between.

use vstd::prelude::*;

verus! {

/// Snapshots kept of one thing.
pub const SNAPSHOT_BUFFER: usize = 64;

/// Snapshots by arrival, each with its time. A time is a number that grows
/// with it.
#[derive(Debug)]
pub struct Snapshots<S> {
    pub snaps: Vec<(u64, S)>,
}

/// Between what to draw.
#[derive(Debug)]
pub enum Sample<S> {
    /// Nothing is known.
    Nothing,
    /// On from the last that came.
    After((u64, S)),
    Between((u64, S), (u64, S)),
}

/// What is left when all is dropped that lies before `t`, but for the last.
pub open spec fn pruned<S>(snaps: Seq<(u64, S)>, t: u64) -> Seq<(u64, S)>
    decreases snaps.len(),
{
    if snaps.len() >= 2 && snaps[1].0 <= t {
        pruned(snaps.drop_first(), t)
    } else {
        snaps
    }
}

pub open spec fn sample_of<S>(snaps: Seq<(u64, S)>) -> Sample<S> {
    if snaps.len() == 0 {
        Sample::Nothing
    } else if snaps.len() == 1 {
        Sample::After(snaps[0])
    } else {
        Sample::Between(snaps[0], snaps[1])
    }
}

/// One more snapshot; the oldest goes when there are too many.
pub open spec fn pushed<S>(snaps: Seq<(u64, S)>, t: u64, state: S) -> Seq<(u64, S)> {
    (if snaps.len() >= SNAPSHOT_BUFFER {
        snaps.remove(0)
    } else {
        snaps
    }).push((t, state))
}

impl<S: Copy> Snapshots<S> {
    pub open spec fn wf(&self) -> bool {
        1 <= self.snaps@.len() <= SNAPSHOT_BUFFER
    }

    pub fn new(t: u64, state: S) -> (s: Snapshots<S>)
        ensures
            s.wf(),
            s.snaps@ == seq![(t, state)],
    {
        let mut snaps: Vec<(u64, S)> = Vec::new();
        snaps.push((t, state));
        assert(snaps@ =~= seq![(t, state)]);
        Snapshots { snaps }
    }

    /// Adds a snapshot.
    pub fn push(&mut self, t: u64, state: S)
        requires
            old(self).wf(),
        ensures
            final(self).wf(),
            final(self).snaps@ == pushed(old(self).snaps@, t, state),
    {
        if self.snaps.len() >= SNAPSHOT_BUFFER {
            let gone = self.snaps.remove(0);
        }
        self.snaps.push((t, state));
    }

    /// Starts again from one snapshot.
    pub fn reset(&mut self, t: u64, state: S)
        ensures
            final(self).wf(),
            final(self).snaps@ == seq![(t, state)],
    {
        let mut snaps: Vec<(u64, S)> = Vec::new();
        snaps.push((t, state));
        assert(snaps@ =~= seq![(t, state)]);
        self.snaps = snaps;
    }

    /// The last that came.
    pub fn last(&self) -> (r: (u64, S))
        requires
            self.wf(),
        ensures
            r == self.snaps@.last(),
    {
        self.snaps[self.snaps.len() - 1]
    }

    /// Drops what is over at `t` and says between what to draw.
    pub fn sample(&mut self, t: u64) -> (r: Sample<S>)
        requires
            old(self).wf(),
        ensures
            final(self).wf(),
            final(self).snaps@ == pruned(old(self).snaps@, t),
            r == sample_of(final(self).snaps@),
    {
        while self.snaps.len() >= 2 && self.snaps[1].0 <= t
            invariant
                self.wf(),
                pruned(self.snaps@, t) == pruned(old(self).snaps@, t),
            decreases self.snaps.len(),
        {
            let ghost before = self.snaps@;
            let gone = self.snaps.remove(0);
            assert(self.snaps@ =~= before.drop_first());
        }
        if self.snaps.len() == 1 {
            Sample::After(self.snaps[0])
        } else {
            Sample::Between(self.snaps[0], self.snaps[1])
        }
    }
}

/// Times in order.
pub open spec fn in_order<S>(snaps: Seq<(u64, S)>) -> bool {
    forall|i: int, j: int|
        0 <= i < j < snaps.len() ==> (#[trigger] snaps[i]).0 <= (#[trigger] snaps[j]).0
}

/// What is drawn brackets the time: the first of the pair is not later than
/// it, unless everything is, and the second is later.
pub proof fn law_sample_brackets<S>(snaps: Seq<(u64, S)>, t: u64)
    requires
        snaps.len() >= 1,
        in_order(snaps),
    ensures
        pruned(snaps, t).len() >= 1,
        in_order(pruned(snaps, t)),
        snaps[0].0 <= t ==> pruned(snaps, t)[0].0 <= t,
        pruned(snaps, t).len() >= 2 ==> pruned(snaps, t)[1].0 > t,
    decreases snaps.len(),
{
    if snaps.len() >= 2 && snaps[1].0 <= t {
        let rest = snaps.drop_first();
        assert forall|i: int, j: int| 0 <= i < j < rest.len() implies (#[trigger] rest[i]).0 <= (
        #[trigger] rest[j]).0 by {
            assert(rest[i] == snaps[i + 1]);
            assert(rest[j] == snaps[j + 1]);
        }
        law_sample_brackets(rest, t);
    }
}

/// A new state goes to the end; of sixty-four the oldest makes room for it.
pub proof fn law_the_newest_states_are_kept<S>(snaps: Seq<(u64, S)>, t: u64, state: S)
    requires
        snaps.len() <= 64,
    ensures
        pushed(snaps, t, state).last() == (t, state),
        snaps.len() < 64 ==> pushed(snaps, t, state).drop_last() == snaps,
        snaps.len() == 64 ==> pushed(snaps, t, state).drop_last() == snaps.skip(1),
        pushed(snaps, t, state).len() <= 64,
{
    assert(pushed(snaps, t, state).drop_last() =~= (if snaps.len() == 64 {
        snaps.skip(1)
    } else {
        snaps
    }));
}

/// Only states that a later one has overtaken at the time asked for are forgotten, and never the
/// last one.
pub proof fn law_overtaken_states_go<S>(snaps: Seq<(u64, S)>, t: u64)
    ensures
        exists|k: int|
            {
                &&& 0 <= k <= snaps.len()
                &&& pruned(snaps, t) == #[trigger] snaps.skip(k)
                &&& snaps.len() > 0 ==> k < snaps.len()
                &&& forall|i: int| 1 <= i <= k ==> (#[trigger] snaps[i]).0 <= t
                &&& k + 1 < snaps.len() ==> snaps[k + 1].0 > t
            },
    decreases snaps.len(),
{
    if snaps.len() >= 2 && snaps[1].0 <= t {
        let rest = snaps.drop_first();
        law_overtaken_states_go(rest, t);
        let k = choose|k: int|
            {
                &&& 0 <= k <= rest.len()
                &&& pruned(rest, t) == #[trigger] rest.skip(k)
                &&& rest.len() > 0 ==> k < rest.len()
                &&& forall|i: int| 1 <= i <= k ==> (#[trigger] rest[i]).0 <= t
                &&& k + 1 < rest.len() ==> rest[k + 1].0 > t
            };
        assert(rest.skip(k) =~= snaps.skip(k + 1));
        assert forall|i: int| 1 <= i <= k + 1 implies (#[trigger] snaps[i]).0 <= t by {
            if i > 1 {
                assert(snaps[i] == rest[i - 1]);
            }
        }
    } else {
        assert(snaps.skip(0) =~= snaps);
    }
}

/// A lone state is shown as it is; of more, the place is between the first two.
pub proof fn law_samples_lie_between_neighbours<S>(snaps: Seq<(u64, S)>)
    ensures
        sample_of(snaps) is Nothing <==> snaps.len() == 0,
        snaps.len() == 1 ==> sample_of(snaps) == Sample::After(snaps.first()),
        snaps.len() >= 2 ==> sample_of(snaps) == Sample::Between(snaps[0], snaps[1]),
{
}

} // verus!
