//! What sessions ask for and what they are told: movement, chat, snapshots,
//! and leaving.

use vstd::prelude::*;

use crate::sim::chunks::{chunk_of, has_cell, CHUNK_SIZE};
use crate::sim::player::{Motion, Player, Point};
use crate::sim::roster::{
    distinct_ids, parked_as, said, tell, to_all, Message, Notice, Outgoing, Roster, Said,
};
use crate::text::{chat_text, sanitize_chat};
use crate::tile::Tile;

verus! {

/// A reported movement. The coordinates come clamped to the world, the speed
/// to the highest there is.
#[derive(Debug, Clone, Copy, PartialEq, Eq, Structural)]
pub struct MoveIntent {
    pub pos: Point,
    pub vel: Point,
    pub facing: i8,
    pub anim: u8,
    /// All numbers of the report are numbers.
    pub finite: bool,
    /// The way is no longer than the player can have come.
    pub within_budget: bool,
}

/// The motion that a report tells of.
pub open spec fn reported(r: MoveIntent) -> Motion {
    Motion {
        pos: r.pos,
        vel: r.vel,
        facing: if r.facing < 0 {
            (-1) as i8
        } else {
            1
        },
        anim: r.anim,
        moved: true,
    }
}

/// The motion that a report leads to; a report that cannot be is refused, and
/// the player is put back.
pub fn player_state(m: Motion, r: MoveIntent) -> (next: Option<Motion>)
    ensures
        next == (if r.finite && r.within_budget {
            Some(reported(r))
        } else {
            None
        }),
        next is Some <==> r.finite && r.within_budget,
        next is Some ==> next->Some_0.pos == r.pos && next->Some_0.vel == r.vel,
{
    if !r.finite || !r.within_budget {
        return None;
    }
    let facing: i8 = if r.facing < 0 {
        -1
    } else {
        1
    };
    Some(Motion { pos: r.pos, vel: r.vel, facing, anim: r.anim, moved: true })
}

/// Where a player is put back to: where they are, at rest.
pub open spec fn put_back(m: Motion) -> Motion {
    Motion { vel: (Point { x: 0, y: 0 }), ..m }
}

/// The numbers of the first `n` players who receive chunk `c`.
pub open spec fn receivers(players: Seq<Player>, c: (u32, u32), n: nat) -> Seq<u32>
    decreases n,
{
    if n == 0 {
        seq![]
    } else if players[n - 1].chunks@.contains(c) {
        receivers(players, c, (n - 1) as nat).push(players[n - 1].id)
    } else {
        receivers(players, c, (n - 1) as nat)
    }
}

/// The news that a cell changed, to the first `n` of those who are to know.
pub open spec fn cell_news(ids: Seq<u32>, e: (u32, u32, Tile), n: nat) -> Seq<Message> {
    Seq::new(
        n,
        |i: int| Message { to: ids[i], what: Said::Tile { x: e.0, y: e.1, tile: e.2 } },
    )
}

/// The news of one changed cell, to everyone who receives its chunk.
pub open spec fn change_news(players: Seq<Player>, e: (u32, u32, Tile)) -> Seq<Message> {
    let ids = receivers(players, chunk_of(e.0, e.1), players.len());
    cell_news(ids, e, ids.len())
}

/// The news of changed cells, one after the other.
pub open spec fn edit_news(players: Seq<Player>, edits: Seq<(u32, u32, Tile)>) -> Seq<Message>
    decreases edits.len(),
{
    if edits.len() == 0 {
        seq![]
    } else {
        edit_news(players, edits.drop_last()) + change_news(players, edits.last())
    }
}

impl Roster {
    /// Who is told of what happens in a chunk.
    pub fn subscribers(&self, c: (u32, u32)) -> (ids: Vec<u32>)
        ensures
            ids@ == receivers(self.players@, c, self.players@.len()),
    {
        let mut ids: Vec<u32> = Vec::new();
        let mut i: usize = 0;
        while i < self.players.len()
            invariant
                i <= self.players.len(),
                ids@ == receivers(self.players@, c, i as nat),
            decreases self.players.len() - i,
        {
            if has_cell(&self.players[i].chunks, c) {
                ids.push(self.players[i].id);
            }
            i = i + 1;
        }
        ids
    }

    /// Tells everyone who receives the chunk of a changed cell.
    pub fn tell_subscribers(&self, x: u32, y: u32, tile: Tile, out: &mut Vec<Outgoing>)
        ensures
            said(final(out)@) == said(old(out)@) + change_news(self.players@, (x, y, tile)),
    {
        let ids = self.subscribers((x / CHUNK_SIZE, y / CHUNK_SIZE));
        let ghost e = (x, y, tile);
        let mut i: usize = 0;
        assert(said(out@) =~= said(old(out)@) + cell_news(ids@, e, 0));
        while i < ids.len()
            invariant
                i <= ids.len(),
                e == (x, y, tile),
                said(out@) == said(old(out)@) + cell_news(ids@, e, i as nat),
            decreases ids.len() - i,
        {
            tell(out, ids[i], Notice::Tile { x, y, tile });
            i = i + 1;
            assert(said(out@) =~= said(old(out)@) + cell_news(ids@, e, i as nat));
        }
    }

    /// Takes a report of movement by the player at index `k`. A refused report
    /// leaves the player where they were, and only they are told: their
    /// position as it is known here, at rest. Returns whether it was taken.
    pub fn report(&mut self, k: usize, r: MoveIntent, out: &mut Vec<Outgoing>) -> (taken: bool)
        requires
            old(self).wf(),
            k < old(self).players.len(),
        ensures
            final(self).wf(),
            final(self).offline == old(self).offline,
            final(self).next_player_id == old(self).next_player_id,
            final(self).next_epoch == old(self).next_epoch,
            taken == (r.finite && r.within_budget),
            ({
                let p = old(self).players@[k as int];
                if taken {
                    &&& final(self).players@ == old(self).players@.update(
                        k as int,
                        (Player { motion: reported(r), ..p }),
                    )
                    &&& final(out)@ == old(out)@
                } else {
                    &&& *final(self) == *old(self)
                    &&& said(final(out)@) == said(old(out)@).push(
                        Message {
                            to: p.id,
                            what: Said::Moved { id: p.id, motion: put_back(p.motion) },
                        },
                    )
                }
            }),
    {
        let m: Motion = self.players[k].motion;
        match player_state(m, r) {
            Some(next) => {
                self.players[k].motion = next;
                assert(self.players@ =~= old(self).players@.update(
                    k as int,
                    Player { motion: reported(r), ..old(self).players@[k as int] },
                ));
                true
            },
            None => {
                let id: u32 = self.players[k].id;
                tell(
                    out,
                    id,
                    Notice::Moved { id, motion: Motion { vel: Point { x: 0, y: 0 }, ..m } },
                );
                false
            },
        }
    }

    /// Answers a ping of the player at index `k`.
    pub fn answer(&self, k: usize, nonce: u64, out: &mut Vec<Outgoing>)
        requires
            k < self.players.len(),
        ensures
            said(final(out)@) == said(old(out)@).push(
                Message { to: self.players@[k as int].id, what: Said::Pong { nonce } },
            ),
    {
        tell(out, self.players[k].id, Notice::Pong { nonce });
    }

    /// Relays what the player at index `k` says to everyone, themselves among
    /// them; nothing where nothing printable is left. Returns whether anything
    /// was said.
    pub fn chat(&self, k: usize, text: &str, max_chars: usize, out: &mut Vec<Outgoing>) -> (heard:
        bool)
        requires
            k < self.players.len(),
        ensures
            ({
                let line = chat_text(text@, max_chars as nat);
                &&& heard == (line.len() > 0)
                &&& said(final(out)@) == (if heard {
                    said(old(out)@) + to_all(
                        self.players@,
                        Said::Chat { from: self.players@[k as int].name@, text: line },
                    )
                } else {
                    said(old(out)@)
                })
            }),
    {
        match sanitize_chat(text, max_chars) {
            Some(line) => {
                let from: String = self.players[k].name.clone();
                self.tell_all(&Notice::Chat { from, text: line }, out);
                true
            },
            None => false,
        }
    }

    /// Tells everyone the time.
    pub fn sync_time(&self, time: u32, day: u32, out: &mut Vec<Outgoing>)
        ensures
            said(final(out)@) == said(old(out)@) + to_all(
                self.players@,
                Said::Time { time, day },
            ),
    {
        self.tell_all(&Notice::Time { time, day }, out);
    }

    /// Drops the sessions whose queues are full or gone. `respawn` says for
    /// each where a dead one returns. Numbers of players who are gone already
    /// change nothing.
    pub fn flush_kicks(
        &mut self,
        kicks: &Vec<(u32, Point)>,
        base_hp: u16,
        out: &mut Vec<Outgoing>,
    )
        requires
            old(self).wf(),
        ensures
            final(self).wf(),
            forall|i: int|
                0 <= i < final(self).players@.len() ==> old(self).players@.contains(
                    #[trigger] final(self).players@[i],
                ),
            forall|i: int|
                0 <= i < old(self).players@.len() ==> (final(self).players@.contains(
                    #[trigger] old(self).players@[i],
                ) <==> !kicked(kicks@, kicks@.len(), old(self).players@[i].id)),
            final(self).offline@.len() - old(self).offline@.len() == old(self).players@.len()
                - final(self).players@.len(),
            exists|rosters: Seq<Roster>, outs: Seq<Seq<Message>>|
                {
                    &&& #[trigger] kicks_run(rosters, outs, kicks@, base_hp)
                    &&& rosters[0] == *old(self)
                    &&& rosters[kicks@.len() as int] == *final(self)
                    &&& outs[0] == said(old(out)@)
                    &&& outs[kicks@.len() as int] == said(final(out)@)
                },
    {
        let ghost all = self.players@;
        let ghost mut rosters: Seq<Roster> = seq![*self];
        let ghost mut outs: Seq<Seq<Message>> = seq![said(out@)];
        let mut n: usize = kicks.len();
        while n > 0
            invariant
                n <= kicks.len(),
                self.wf(),
                old(self).wf(),
                all == old(self).players@,
                forall|i: int|
                    0 <= i < self.players@.len() ==> all.contains(#[trigger] self.players@[i]),
                forall|i: int|
                    0 <= i < all.len() ==> (self.players@.contains(#[trigger] all[i])
                        <==> !kicked_from(kicks@, n as int, all[i].id)),
                self.offline@.len() - old(self).offline@.len() == all.len()
                    - self.players@.len(),
                rosters.len() == kicks.len() - n + 1,
                outs.len() == rosters.len(),
                rosters[0] == *old(self),
                outs[0] == said(old(out)@),
                rosters[kicks.len() - n] == *self,
                outs[kicks.len() - n] == said(out@),
                forall|j: int|
                    0 <= j < kicks.len() - n ==> #[trigger] kick_step(
                        rosters[j],
                        rosters[j + 1],
                        kicks@[kicks.len() - 1 - j],
                        base_hp,
                        outs[j],
                        outs[j + 1],
                    ),
            decreases n,
        {
            n = n - 1;
            let (id, respawn): (u32, Point) = kicks[n];
            let ghost before = self.players@;
            let ghost was = *self;
            let ghost told = said(out@);
            let ghost (kept, kept_outs) = (rosters, outs);
            match self.find(id) {
                Some(i) => {
                    self.leave(i, respawn, base_hp, out);
                    assert(taken_off(was, *self, i as int, respawn, base_hp));
                    proof {
                        let gone = before[i as int];
                        assert(all.contains(gone));
                        assert forall|k: int| 0 <= k < all.len() implies (self.players@.contains(
                            #[trigger] all[k],
                        ) <==> !kicked_from(kicks@, n as int, all[k].id)) by {
                            lemma_after_removal(before, i as int, all[k]);
                            if all[k].id == id {
                                lemma_same_id(all, gone, k);
                                assert(kicks@[n as int].0 == id);
                            }
                        }
                        assert forall|k: int| 0 <= k < self.players@.len() implies all.contains(
                            #[trigger] self.players@[k],
                        ) by {
                            assert(self.players@[k] == before[if k < i {
                                k
                            } else {
                                k + 1
                            }]);
                        }
                    }
                },
                None => {
                    proof {
                        assert forall|k: int| 0 <= k < all.len() implies (self.players@.contains(
                            #[trigger] all[k],
                        ) <==> !kicked_from(kicks@, n as int, all[k].id)) by {
                            if all[k].id == id && self.players@.contains(all[k]) {
                                let m = self.players@.index_of(all[k]);
                                assert(self.players@[m].id == id);
                            }
                            if all[k].id == id {
                                assert(kicks@[n as int].0 == id);
                            }
                        }
                    }
                },
            }
            proof {
                assert(kick_step(was, *self, kicks@[n as int], base_hp, told, said(out@)));
                rosters = rosters.push(*self);
                outs = outs.push(said(out@));
                assert forall|j: int| 0 <= j < kicks.len() - n implies #[trigger] kick_step(
                    rosters[j],
                    rosters[j + 1],
                    kicks@[kicks.len() - 1 - j],
                    base_hp,
                    outs[j],
                    outs[j + 1],
                ) by {
                    if j < kicks.len() - n - 1 {
                        assert(kick_step(
                            kept[j],
                            kept[j + 1],
                            kicks@[kicks.len() - 1 - j],
                            base_hp,
                            kept_outs[j],
                            kept_outs[j + 1],
                        ));
                    }
                }
            }
        }
        assert(kicks_run(rosters, outs, kicks@, base_hp));
        proof {
            assert forall|i: int| 0 <= i < all.len() implies (self.players@.contains(
                #[trigger] all[i],
            ) <==> !kicked(kicks@, kicks@.len(), all[i].id)) by {
                if kicked(kicks@, kicks@.len(), all[i].id) {
                    let k = choose|k: int|
                        0 <= k < kicks@.len() && (#[trigger] kicks@[k]).0 == all[i].id;
                    assert(kicks@[k].0 == all[i].id);
                }
                if kicked_from(kicks@, 0, all[i].id) {
                    let k = choose|k: int|
                        0 <= k < kicks@.len() && (#[trigger] kicks@[k]).0 == all[i].id;
                    assert(kicks@[k].0 == all[i].id);
                }
            }
        }
    }
}

/// The player at index `i` was taken off, and what they had is kept.
pub open spec fn taken_off(
    before: Roster,
    after: Roster,
    i: int,
    respawn: Point,
    base_hp: u16,
) -> bool {
    &&& 0 <= i < before.players@.len()
    &&& after.players@ == before.players@.remove(i)
    &&& after.next_player_id == before.next_player_id
    &&& after.next_epoch == before.next_epoch
    &&& after.offline@.len() == before.offline@.len() + 1
    &&& after.offline@.drop_last() == before.offline@
    &&& parked_as(after.offline@.last(), before.players@[i], respawn, base_hp)
}

/// One kick: the player leaves and the others are told, or there is none to
/// leave.
pub open spec fn kick_step(
    before: Roster,
    after: Roster,
    kick: (u32, Point),
    base_hp: u16,
    out: Seq<Message>,
    more: Seq<Message>,
) -> bool {
    ||| exists|i: int|
        {
            &&& #[trigger] taken_off(before, after, i, kick.1, base_hp)
            &&& before.players@[i].id == kick.0
            &&& more == out + to_all(before.players@.remove(i), Said::Left { id: kick.0 })
        }
    ||| {
        &&& forall|i: int|
            0 <= i < before.players@.len() ==> (#[trigger] before.players@[i]).id != kick.0
        &&& after == before
        &&& more == out
    }
}

/// The rosters and the notices between kicks, the last kick first.
pub open spec fn kicks_run(
    rosters: Seq<Roster>,
    outs: Seq<Seq<Message>>,
    kicks: Seq<(u32, Point)>,
    base_hp: u16,
) -> bool {
    &&& rosters.len() == kicks.len() + 1
    &&& outs.len() == kicks.len() + 1
    &&& forall|j: int|
        0 <= j < kicks.len() ==> #[trigger] kick_step(
            rosters[j],
            rosters[j + 1],
            kicks[kicks.len() - 1 - j],
            base_hp,
            outs[j],
            outs[j + 1],
        )
}

/// The number is among the first `n` kicks.
pub open spec fn kicked(kicks: Seq<(u32, Point)>, n: nat, id: u32) -> bool {
    exists|k: int| 0 <= k < n && (#[trigger] kicks[k]).0 == id
}

/// The number is among the kicks from index `n` on.
pub open spec fn kicked_from(kicks: Seq<(u32, Point)>, n: int, id: u32) -> bool {
    exists|k: int| n <= k < kicks.len() && (#[trigger] kicks[k]).0 == id
}

proof fn lemma_after_removal(players: Seq<Player>, i: int, p: Player)
    requires
        0 <= i < players.len(),
        distinct_ids(players),
    ensures
        players.remove(i).contains(p) <==> players.contains(p) && p != players[i],
{
    let rest = players.remove(i);
    if rest.contains(p) {
        let k = rest.index_of(p);
        let m = if k < i {
            k
        } else {
            k + 1
        };
        assert(players[m] == p);
        if m < i {
            assert(players[m].id != players[i].id);
        } else {
            assert(players[i].id != players[m].id);
        }
    }
    if players.contains(p) && p != players[i] {
        let k = players.index_of(p);
        let m = if k < i {
            k
        } else {
            k - 1
        };
        assert(rest[m] == p);
    }
}

proof fn lemma_same_id(all: Seq<Player>, p: Player, k: int)
    requires
        distinct_ids(all),
        all.contains(p),
        0 <= k < all.len(),
        all[k].id == p.id,
    ensures
        all[k] == p,
{
    let m = all.index_of(p);
    if m < k {
        assert(all[m].id != all[k].id);
    } else if k < m {
        assert(all[k].id != all[m].id);
    }
}

/// A report that is taken is what the player does from then on, to be told to
/// the others; they face left or right.
pub proof fn law_reports_are_taken_at_their_word(r: MoveIntent)
    ensures
        reported(r).pos == r.pos && reported(r).vel == r.vel && reported(r).anim == r.anim,
        reported(r).moved,
        r.facing < 0 <==> reported(r).facing == -1,
        r.facing >= 0 <==> reported(r).facing == 1,
{
}

/// A player who is put back stands still where they were.
pub proof fn law_put_back_stands_still(m: Motion)
    ensures
        put_back(m).pos == m.pos && put_back(m).vel.x == 0 && put_back(m).vel.y == 0,
        put_back(m).facing == m.facing && put_back(m).anim == m.anim,
{
}

/// A change is told to those who receive its chunk, in their order, with its
/// cell and its new tile.
pub proof fn law_changes_go_to_receivers(players: Seq<Player>, e: (u32, u32, Tile), i: int)
    requires
        0 <= i < change_news(players, e).len(),
    ensures
        ({
            let m = change_news(players, e)[i];
            &&& m.what matches Said::Tile { x, y, tile } && x == e.0 && y == e.1 && tile == e.2
            &&& exists|k: int|
                0 <= k < players.len() && (#[trigger] players[k]).id == m.to
                    && players[k].chunks@.contains((e.0 / 64, e.1 / 64))
        }),
{
    let c = chunk_of(e.0, e.1);
    lemma_receivers(players, c, players.len(), i);
}

proof fn lemma_receivers(players: Seq<Player>, c: (u32, u32), n: nat, i: int)
    requires
        n <= players.len(),
        0 <= i < receivers(players, c, n).len(),
    ensures
        exists|k: int|
            0 <= k < n && (#[trigger] players[k]).id == receivers(players, c, n)[i]
                && players[k].chunks@.contains(c),
    decreases n,
{
    if n > 0 {
        let before = receivers(players, c, (n - 1) as nat);
        if i < before.len() {
            lemma_receivers(players, c, (n - 1) as nat, i);
            let k = choose|k: int|
                0 <= k < n - 1 && (#[trigger] players[k]).id == before[i]
                    && players[k].chunks@.contains(c);
            assert(players[k].id == receivers(players, c, n)[i]);
        } else {
            assert(players[n - 1].id == receivers(players, c, n)[i]);
        }
    }
}

/// Everyone who receives a chunk is told of changes in it.
pub proof fn law_receivers_are_told(players: Seq<Player>, c: (u32, u32), n: nat, k: int)
    requires
        n <= players.len(),
        0 <= k < n,
        players[k].chunks@.contains(c),
    ensures
        receivers(players, c, n).contains(players[k].id),
    decreases n,
{
    let before = receivers(players, c, (n - 1) as nat);
    let after = receivers(players, c, n);
    if k < n - 1 {
        law_receivers_are_told(players, c, (n - 1) as nat, k);
        let i = before.index_of(players[k].id);
        assert(after[i] == players[k].id);
    } else {
        assert(after[before.len() as int] == players[k].id);
    }
}

/// A kick takes the player it names off the roster, whom the others are then told to have left,
/// and leaves everyone else; where nobody has that number nothing happens.
pub proof fn law_kicks_take_one_player(
    before: Roster,
    after: Roster,
    kick: (u32, Point),
    base_hp: u16,
    out: Seq<Message>,
    more: Seq<Message>,
    j: int,
)
    requires
        kick_step(before, after, kick, base_hp, out, more),
        distinct_ids(before.players@),
        0 <= j < before.players@.len(),
    ensures
        forall|i: int| 0 <= i < after.players@.len() ==> (#[trigger] after.players@[i]).id != kick.0,
        before.players@[j].id != kick.0 ==> after.players@.contains(before.players@[j]),
        before.players@[j].id == kick.0 ==> after.players@.len() == before.players@.len() - 1
            && after.offline@.len() == before.offline@.len() + 1 && more.len() == out.len()
            + after.players@.len(),
        before.players@[j].id == kick.0 ==> forall|i: int|
            out.len() <= i < more.len() ==> (#[trigger] more[i]).what is Left
                && more[i].what->Left_id == kick.0,
        out == more.take(out.len() as int),
{
    let (b, a) = (before.players@, after.players@);
    assert(more.take(out.len() as int) =~= out);
    if exists|i: int| #[trigger]
        taken_off(before, after, i, kick.1, base_hp) && b[i].id == kick.0 && more == out + to_all(
            b.remove(i),
            Said::Left { id: kick.0 },
        ) {
        let i = choose|i: int| #[trigger]
            taken_off(before, after, i, kick.1, base_hp) && b[i].id == kick.0 && more == out
                + to_all(b.remove(i), Said::Left { id: kick.0 });
        assert forall|k: int| 0 <= k < a.len() implies (#[trigger] a[k]).id != kick.0 by {
            let from = if k < i {
                k
            } else {
                k + 1
            };
            assert(a[k] == b[from]);
            assert(b[from].id != b[i].id);
        }
        if b[j].id != kick.0 {
            assert(j != i);
            assert(a[if j < i {
                j
            } else {
                j - 1
            }] == b[j]);
        } else {
            assert(j == i);
        }
    } else {
        assert(a[j] == b[j]);
    }
}

/// Kicks are carried out from the last one named to the first.
pub proof fn law_kicks_run_from_the_last(
    rosters: Seq<Roster>,
    outs: Seq<Seq<Message>>,
    kicks: Seq<(u32, Point)>,
    base_hp: u16,
)
    requires
        kicks_run(rosters, outs, kicks, base_hp),
        kicks.len() > 0,
    ensures
        kick_step(rosters[0], rosters[1], kicks.last(), base_hp, outs[0], outs[1]),
        kick_step(
            rosters[kicks.len() - 1],
            rosters.last(),
            kicks.first(),
            base_hp,
            outs[kicks.len() - 1],
            outs.last(),
        ),
{
    let n = kicks.len() as int;
    let i: int = 0;
    assert(kick_step(
        rosters[i],
        rosters[i + 1],
        kicks[kicks.len() - 1 - i],
        base_hp,
        outs[i],
        outs[i + 1],
    ));
    let j = n - 1;
    assert(kick_step(
        rosters[j],
        rosters[j + 1],
        kicks[kicks.len() - 1 - j],
        base_hp,
        outs[j],
        outs[j + 1],
    ));
}

} // verus!
