//! Harm, death and return of players, and who hears of it.

use vstd::prelude::*;

use crate::item::{InvSlot, ItemId, ARMOR_START};
use crate::sim::entities::EntityStore;
use crate::sim::inventory::{differences, slot_deltas, slots_said, SlotAddr, SlotDelta};
use crate::sim::live::Live;
use crate::sim::player::{Motion, Player, Point};
use crate::sim::roster::{
    copy_debuffs, health_of, said, tell, to_all, Message, Notice, Outgoing, Roster, Said,
};
use crate::sim::survival::{
    bed_spawn_pos, hurt_player, kill_player, respawn_player, returned, robbed, spec_dead, spec_hurt,
    spec_return_at, spilled, Hurt, ReturnAt, PLAYER_IFRAME_TICKS, RESPAWN_TICKS_BOSS_ALIVE,
};
use crate::sim::window::{streams, Streamed};
use crate::stacks::copy_slots;

verus! {

/// A place where players appear, and its cell.
#[derive(Debug, Clone, Copy, PartialEq, Eq)]
pub struct Place {
    pub pos: Point,
    pub cell: (u32, u32),
}

/// What harm to a player did.
#[derive(Debug)]
pub struct Harmed {
    pub applied: bool,
    /// The coins that fall where they died.
    pub coins: Vec<(ItemId, u16)>,
}

/// Somebody is killed: coins fall, afflictions and a swing end, and the wait
/// begins.
pub open spec fn killed(before: Player, after: Player, tick: u64, boss_alive: bool) -> bool {
    &&& after == (Player {
        vitals: spec_dead(before.vitals, tick, boss_alive),
        inventory: after.inventory,
        debuffs: after.debuffs,
        swing: None,
        ..before
    })
    &&& after.debuffs@.len() == 0
    &&& robbed(before.inventory@, after.inventory@)
}

/// The push that comes with a blow.
pub open spec fn pushed(id: u32, how: Hurt, push: Option<Point>) -> Seq<Message> {
    match (how, push) {
        (Hurt::Hit, Some(vel)) => seq![Message { to: id, what: Said::Knockback { vel } }],
        _ => seq![],
    }
}

/// What is told of a death: to the dead the slots that lost coins, to everyone
/// that nothing ails them any more, and that they died.
pub open spec fn death_news(players: Seq<Player>, before: Player, after: Player) -> Seq<Message> {
    let id = before.id;
    slots_said(
        id,
        differences(before.inventory@, after.inventory@, before.inventory@.len()),
    ) + to_all(players, Said::Debuffs { id, debuffs: seq![] }) + to_all(
        players,
        Said::Died { id },
    )
}

proof fn lemma_same_ids(a: Seq<Player>, b: Seq<Player>, what: Said)
    requires
        a.len() == b.len(),
        forall|i: int| 0 <= i < a.len() ==> (#[trigger] a[i]).id == b[i].id,
    ensures
        to_all(a, what) == to_all(b, what),
{
    assert(to_all(a, what) =~= to_all(b, what));
}

impl Roster {
    /// Tells everyone how the player at index `k` fares.
    pub fn sync_health(&self, k: usize, out: &mut Vec<Outgoing>)
        requires
            k < self.players.len(),
        ensures
            said(final(out)@) == said(old(out)@) + to_all(
                self.players@,
                health_of(self.players@[k as int]),
            ),
    {
        self.tell_all(&self.players[k].health(), out);
    }

    /// Tells everyone what ails the player at index `k`.
    pub fn send_debuffs(&self, k: usize, out: &mut Vec<Outgoing>)
        requires
            k < self.players.len(),
        ensures
            said(final(out)@) == said(old(out)@) + to_all(
                self.players@,
                Said::Debuffs {
                    id: self.players@[k as int].id,
                    debuffs: self.players@[k as int].debuffs@,
                },
            ),
    {
        let debuffs = copy_debuffs(&self.players[k].debuffs);
        self.tell_all(&Notice::Debuffs { id: self.players[k].id, debuffs }, out);
    }

    /// Tells the player at index `k` alone of changed slots.
    pub(crate) fn tell_slots(&self, k: usize, deltas: &Vec<SlotDelta>, out: &mut Vec<Outgoing>)
        requires
            k < self.players.len(),
        ensures
            said(final(out)@) == said(old(out)@) + slots_said(
                self.players@[k as int].id,
                deltas@,
            ),
    {
        let id: u32 = self.players[k].id;
        let ghost base = said(out@);
        let mut i: usize = 0;
        assert(said(out@) =~= base + slots_said(id, deltas@.take(0)));
        while i < deltas.len()
            invariant
                i <= deltas.len(),
                said(out@) == base + slots_said(id, deltas@.take(i as int)),
            decreases deltas.len() - i,
        {
            let stack: Option<InvSlot> = deltas[i].stack;
            match deltas[i].addr {
                SlotAddr::Inv(n) => {
                    tell(out, id, Notice::Slot { idx: n as u8, stack });
                },
                SlotAddr::Chest(n) => {
                    tell(out, id, Notice::ChestSlot { idx: n as u8, stack });
                },
            }
            i = i + 1;
            assert(said(out@) =~= base + slots_said(id, deltas@.take(i as int)));
        }
        assert(deltas@.take(i as int) =~= deltas@);
    }

    /// Harms the player at index `k`. A blow may push them; everyone hears how
    /// they fare then. Where it was deadly they lose their coins, which are to
    /// fall where they stood, and everyone hears of it.
    pub fn harm(
        &mut self,
        k: usize,
        damage: u32,
        how: Hurt,
        push: Option<Point>,
        tick: u64,
        boss_alive: bool,
        out: &mut Vec<Outgoing>,
    ) -> (r: Harmed)
        requires
            old(self).wf(),
            k < old(self).players.len(),
            old(self).players@[k as int].inventory.len() >= ARMOR_START,
            tick <= u64::MAX - RESPAWN_TICKS_BOSS_ALIVE,
        ensures
            final(self).wf(),
            final(self).offline == old(self).offline,
            final(self).next_player_id == old(self).next_player_id,
            final(self).next_epoch == old(self).next_epoch,
            ({
                let p = old(self).players@[k as int];
                let h = spec_hurt(p.vitals, damage, how, tick);
                let hurt = Player { vitals: h.vitals, ..p };
                let all = old(self).players@;
                let q = final(self).players@[k as int];
                let heard = said(old(out)@) + pushed(p.id, how, push) + to_all(
                    all,
                    health_of(hurt),
                );
                &&& r.applied == h.applied
                &&& final(self).players@ == all.update(k as int, q)
                &&& if !h.applied {
                    &&& q == hurt
                    &&& r.coins@.len() == 0
                    &&& final(out)@ == old(out)@
                } else if !h.died {
                    &&& q == hurt
                    &&& r.coins@.len() == 0
                    &&& said(final(out)@) == heard
                } else {
                    &&& killed(hurt, q, tick, boss_alive)
                    &&& r.coins@ == spilled(p.inventory@, ARMOR_START as nat)
                    &&& said(final(out)@) == heard + death_news(all, p, q)
                }
            }),
    {
        let ghost all = self.players@;
        let ghost p = all[k as int];
        let ghost base = said(out@);
        let id: u32 = self.players[k].id;
        let h = hurt_player(self.players[k].vitals, damage, how, tick);
        self.players[k].vitals = h.vitals;
        let ghost hurt = self.players@[k as int];
        let mut coins: Vec<(ItemId, u16)> = Vec::new();
        if !h.applied {
            return Harmed { applied: false, coins };
        }
        if how == Hurt::Hit {
            if let Some(vel) = push {
                tell(out, id, Notice::Knockback { vel });
            }
        }
        assert(said(out@) =~= base + pushed(id, how, push));
        self.sync_health(k, out);
        proof {
            lemma_same_ids(all, self.players@, health_of(hurt));
        }
        let ghost heard = said(out@);
        if h.died {
            let before = copy_slots(&self.players[k].inventory);
            coins = kill_player(&mut self.players[k], tick, boss_alive);
            let ghost q = self.players@[k as int];
            let deltas = slot_deltas(&before, &self.players[k].inventory);
            self.tell_slots(k, &deltas, out);
            self.send_debuffs(k, out);
            self.tell_all(&Notice::Died { id }, out);
            proof {
                assert(q.debuffs@ =~= seq![]);
                lemma_same_ids(all, self.players@, Said::Debuffs { id, debuffs: seq![] });
                lemma_same_ids(all, self.players@, Said::Died { id });
                assert(said(out@) =~= heard + death_news(all, p, q));
            }
        }
        Harmed { applied: true, coins }
    }

    /// The player at index `k` asks to return. Once their wait is over they
    /// do, to their bed or to the spawn of the world; everyone hears of it and
    /// how they fare, they themselves are placed, and their window follows to
    /// the cell where they stand then. Returns whether they returned, and if
    /// so, whether their queue, which has `room`, was too short for that.
    pub fn bring_back(
        &mut self,
        k: usize,
        live: &mut Live,
        entities: &EntityStore,
        by_bed: Place,
        at_spawn: Place,
        tick: u64,
        room: usize,
        out: &mut Vec<Outgoing>,
    ) -> (r: Option<bool>)
        requires
            old(self).wf(),
            k < old(self).players.len(),
            old(live).wf(),
            old(live).world.width > 0,
            old(live).world.height > 0,
            tick <= u64::MAX - PLAYER_IFRAME_TICKS,
        ensures
            final(self).wf(),
            final(self).offline == old(self).offline,
            final(self).next_player_id == old(self).next_player_id,
            final(self).next_epoch == old(self).next_epoch,
            final(live).wf(),
            *final(live) == (Live { cache: final(live).cache, ..*old(live) }),
            ({
                let p = old(self).players@[k as int];
                let all = old(self).players@;
                let place = match spec_return_at(old(live)@.grid, p.bed_spawn) {
                    ReturnAt::Bed(_) => by_bed,
                    ReturnAt::WorldSpawn => at_spawn,
                };
                let back = returned(p, place.pos, tick);
                let q = final(self).players@[k as int];
                let heard = said(old(out)@) + to_all(
                    all,
                    Said::Respawned { id: p.id, pos: place.pos },
                ) + seq![
                    Message {
                        to: p.id,
                        what: Said::Moved {
                            id: p.id,
                            motion: (Motion { anim: 0, ..back.motion }),
                        },
                    },
                ] + to_all(all, health_of(back));
                &&& r is Some <==> p.vitals.dead && tick >= p.vitals.respawn_ready_tick
                &&& match r {
                    Some(lagging) => {
                        &&& final(self).players@ == all.update(
                            k as int,
                            (Player { chunks: q.chunks, ..back }),
                        )
                        &&& heard.is_prefix_of(said(final(out)@))
                        &&& streams(
                            p.id,
                            old(live)@.grid,
                            entities.entries@,
                            p.chunks@,
                            place.cell,
                            room as nat,
                            (Streamed {
                                chunks: q.chunks@,
                                lagging,
                                told: said(final(out)@).skip(heard.len() as int),
                            }),
                        )
                    },
                    None => {
                        &&& final(self).players@ == all
                        &&& *final(live) == *old(live)
                        &&& final(out)@ == old(out)@
                    },
                }
            }),
    {
        let ghost all = self.players@;
        let ghost p = all[k as int];
        let ghost base = said(out@);
        let bed: Option<(u32, u32)> = self.players[k].bed_spawn;
        if !respawn_player(&mut self.players[k], &live.world, by_bed.pos, at_spawn.pos, tick) {
            assert(self.players@ =~= all);
            return None;
        }
        let place: Place = match bed_spawn_pos(&live.world, bed) {
            ReturnAt::Bed(_) => by_bed,
            ReturnAt::WorldSpawn => at_spawn,
        };
        let id: u32 = self.players[k].id;
        let motion: Motion = self.players[k].motion;
        let ghost back = self.players@[k as int];
        self.tell_all(&Notice::Respawned { id, pos: place.pos }, out);
        tell(out, id, Notice::Moved { id, motion: Motion { anim: 0, ..motion } });
        self.sync_health(k, out);
        proof {
            lemma_same_ids(all, self.players@, Said::Respawned { id, pos: place.pos });
            lemma_same_ids(all, self.players@, health_of(back));
            assert(said(out@) =~= base + to_all(all, Said::Respawned { id, pos: place.pos })
                + seq![
                Message {
                    to: id,
                    what: Said::Moved { id, motion: Motion { anim: 0, ..back.motion } },
                },
            ] + to_all(all, health_of(back)));
        }
        let lagging = self.update_player_chunks(k, live, entities, place.cell, room, out);
        assert(self.players@ =~= all.update(
            k as int,
            Player { chunks: self.players@[k as int].chunks, ..back },
        ));
        Some(lagging)
    }
}

/// A player who dies keeps everything but half of the coins, sheds what ailed them, stops
/// swinging, and waits.
pub proof fn law_the_dead_lose_their_coins(
    before: Player,
    after: Player,
    tick: u64,
    boss_alive: bool,
)
    requires
        killed(before, after, tick, boss_alive),
        tick <= u64::MAX - RESPAWN_TICKS_BOSS_ALIVE,
    ensures
        after.id == before.id,
        after.vitals.dead && after.vitals.hp == 0,
        after.swing is None,
        after.debuffs@.len() == 0,
        after.motion == before.motion,
        after.inventory@.len() == before.inventory@.len(),
        forall|i: int|
            50 <= i < before.inventory@.len() ==> #[trigger] after.inventory@[i]
                == before.inventory@[i],
        boss_alive ==> after.vitals.respawn_ready_tick == tick + 1200,
        !boss_alive ==> after.vitals.respawn_ready_tick == tick + 600,
{
}

/// A blow throws the player it hits, and nobody else; harm without a blow throws nobody.
pub proof fn law_blows_throw_the_player(id: u32, how: Hurt, push: Option<Point>)
    ensures
        how is Hit && push is Some ==> pushed(id, how, push) == seq![
            Message { to: id, what: Said::Knockback { vel: push->Some_0 } },
        ],
        !(how is Hit) || push is None ==> pushed(id, how, push).len() == 0,
{
}

/// Of a death the player hears which slots changed, and everyone that nothing ails the dead any
/// more and that they died.
pub proof fn law_deaths_are_told(players: Seq<Player>, before: Player, after: Player, k: int)
    requires
        0 <= k < players.len(),
    ensures
        ({
            let news = death_news(players, before, after);
            let told = slots_said(
                before.id,
                differences(before.inventory@, after.inventory@, before.inventory@.len()),
            );
            let n = players.len() as int;
            &&& news.len() == told.len() + 2 * n
            &&& news.take(told.len() as int) == told
            &&& news[told.len() + n + k] == (Message {
                to: players[k].id,
                what: Said::Died { id: before.id },
            })
            &&& news[told.len() + k].to == players[k].id
            &&& news[told.len() + k].what is Debuffs && news[told.len() + k].what->Debuffs_id
                == before.id && news[told.len() + k].what->debuffs.len() == 0
        }),
{
    let news = death_news(players, before, after);
    let told = slots_said(
        before.id,
        differences(before.inventory@, after.inventory@, before.inventory@.len()),
    );
    assert(news.take(told.len() as int) =~= told);
}

} // verus!
