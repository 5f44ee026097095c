//! The part of the world that a player receives, and how it reaches them.

use vstd::prelude::*;

use crate::grid::Grid;
use crate::sim::chunks::{
    cells_for, chunk_window, missing_chunks, player_chunk, seen_by, spec_clamped_chunk,
    spec_chunks, subscribe, within, batch_cells, CHUNK_SUB_HYSTERESIS, CHUNK_SUB_RADIUS_X,
    CHUNK_SUB_RADIUS_Y,
};
use crate::sim::entities::{in_chunk, Entity, EntityStore};
use crate::sim::live::{tidied, Live, LiveView};
use crate::sim::player::{Motion, Player};
use crate::sim::roster::{
    lemma_same_ids_news, said, tell, Message, Notice, Outgoing, Roster, Said,
};
use crate::sim::stream::chunk_content;
use crate::tile::Tile;

verus! {

/// `c` is near enough to `center` to be received.
pub open spec fn wanted(g: Grid, center: (u32, u32), c: (u32, u32)) -> bool {
    within(
        g.width as u32,
        g.height as u32,
        center,
        CHUNK_SUB_RADIUS_X as int,
        CHUNK_SUB_RADIUS_Y as int,
        c,
    )
}

/// `c` is near enough to `center` to be received on.
pub open spec fn retained(g: Grid, center: (u32, u32), c: (u32, u32)) -> bool {
    within(
        g.width as u32,
        g.height as u32,
        center,
        CHUNK_SUB_RADIUS_X + CHUNK_SUB_HYSTERESIS,
        CHUNK_SUB_RADIUS_Y + CHUNK_SUB_HYSTERESIS,
        c,
    )
}

/// The chunk around the cell, the last one where that lies beyond the world.
pub open spec fn center_chunk(g: Grid, cell: (u32, u32)) -> (u32, u32) {
    (spec_clamped_chunk(cell.0, g.width as u32), spec_clamped_chunk(cell.1, g.height as u32))
}

/// The wanted chunks that are not among `have`, row by row.
pub open spec fn all_missing(
    g: Grid,
    center: (u32, u32),
    have: Seq<(u32, u32)>,
    missing: Seq<(u32, u32)>,
) -> bool {
    &&& forall|c: (u32, u32)| #[trigger]
        missing.contains(c) <==> wanted(g, center, c) && !have.contains(c)
    &&& forall|i: int, j: int|
        0 <= i < j < missing.len() ==> (#[trigger] missing[i]).1 < (#[trigger] missing[j]).1 || (
        missing[i].1 == missing[j].1 && missing[i].0 < missing[j].0)
}

/// What lives in the first `n` of `cells`, chunk by chunk.
pub open spec fn arrivals(entities: Seq<(u32, Entity)>, cells: Seq<(u32, u32)>, n: nat) -> Seq<
    (u32, Entity),
>
    decreases n,
{
    if n == 0 {
        seq![]
    } else {
        arrivals(entities, cells, (n - 1) as nat) + in_chunk(
            entities,
            cells[n - 1],
            entities.len(),
        )
    }
}

/// The chunks `cells` as they are told to `to`.
pub open spec fn chunk_messages(to: u32, g: Grid, cells: Seq<(u32, u32)>) -> Seq<Message> {
    Seq::new(
        cells.len(),
        |i: int|
            Message {
                to,
                what: Said::Chunk {
                    cx: cells[i].0,
                    cy: cells[i].1,
                    tiles: chunk_content(g, cells[i]),
                },
            },
    )
}

/// Entities as they are told to `to`.
pub open spec fn spawn_messages(to: u32, list: Seq<(u32, Entity)>) -> Seq<Message> {
    Seq::new(
        list.len(),
        |i: int| Message { to, what: Said::Spawned { id: list[i].0, entity: list[i].1 } },
    )
}

/// All that a player who lacks the chunks `missing` is to be told: the chunks,
/// then what lives in them.
pub open spec fn window_messages(
    to: u32,
    g: Grid,
    entities: Seq<(u32, Entity)>,
    missing: Seq<(u32, u32)>,
) -> Seq<Message> {
    chunk_messages(to, g, missing) + spawn_messages(
        to,
        arrivals(entities, missing, missing.len()),
    )
}

pub open spec fn least(a: nat, b: nat) -> nat {
    if a < b {
        a
    } else {
        b
    }
}

/// What became of a player's window.
pub struct Streamed {
    /// The chunks received now.
    pub chunks: Seq<(u32, u32)>,
    /// There was more to tell than the queue took.
    pub lagging: bool,
    pub told: Seq<Message>,
}

/// The player `to`, who receives `have`, stands at `cell`, and their queue
/// takes `room` notices: what is missing is sent as far as there is room, what
/// was sent is received from now on, and what is too far away no longer.
pub open spec fn streams(
    to: u32,
    g: Grid,
    entities: Seq<(u32, Entity)>,
    have: Seq<(u32, u32)>,
    cell: (u32, u32),
    room: nat,
    r: Streamed,
) -> bool {
    exists|missing: Seq<(u32, u32)>| #[trigger]
        all_missing(g, center_chunk(g, cell), have, missing) && streams_missing(
            to,
            g,
            entities,
            have,
            cell,
            room,
            missing,
            r,
        )
}

pub open spec fn streams_missing(
    to: u32,
    g: Grid,
    entities: Seq<(u32, Entity)>,
    have: Seq<(u32, u32)>,
    cell: (u32, u32),
    room: nat,
    missing: Seq<(u32, u32)>,
    r: Streamed,
) -> bool {
    let all = window_messages(to, g, entities, missing);
    let sent = missing.take(least(missing.len(), room) as int);
    &&& r.told == all.take(least(all.len(), room) as int)
    &&& r.lagging == (all.len() > room)
    &&& forall|c: (u32, u32)| #[trigger]
        r.chunks.contains(c) <==> (have.contains(c) || sent.contains(c)) && retained(
            g,
            center_chunk(g, cell),
            c,
        )
}

/// A player whose queue takes everything receives every chunk near to them,
/// and of the others only those that they received before and that are not
/// too far away. A newcomer receives the window around them and nothing else.
pub proof fn law_the_window_is_received(
    to: u32,
    g: Grid,
    entities: Seq<(u32, Entity)>,
    have: Seq<(u32, u32)>,
    cell: (u32, u32),
    room: nat,
    r: Streamed,
    c: (u32, u32),
)
    requires
        streams(to, g, entities, have, cell, room, r),
        !r.lagging,
    ensures
        r.chunks.contains(c) <==> wanted(g, center_chunk(g, cell), c) || (have.contains(c)
            && retained(g, center_chunk(g, cell), c)),
        have.len() == 0 ==> (r.chunks.contains(c) <==> wanted(g, center_chunk(g, cell), c)),
{
    let missing = choose|missing: Seq<(u32, u32)>| #[trigger]
        all_missing(g, center_chunk(g, cell), have, missing) && streams_missing(
            to,
            g,
            entities,
            have,
            cell,
            room,
            missing,
            r,
        );
    assert(missing.take(missing.len() as int) =~= missing);
    assert(missing.contains(c) <==> wanted(g, center_chunk(g, cell), c) && !have.contains(c));
}

/// Sends a player what is missing around the cell where they stand, as far as
/// their queue has `room`. Returns the chunks that they receive now, and
/// whether the queue was too short.
pub(crate) fn stream(
    live: &mut Live,
    entities: &EntityStore,
    have: &Vec<(u32, u32)>,
    to: u32,
    cell: (u32, u32),
    room: usize,
    out: &mut Vec<Outgoing>,
) -> (r: (Vec<(u32, u32)>, bool))
    requires
        old(live).wf(),
        old(live).world.width > 0,
        old(live).world.height > 0,
    ensures
        final(live).wf(),
        *final(live) == (Live { cache: final(live).cache, ..*old(live) }),
        said(old(out)@).is_prefix_of(said(final(out)@)),
        streams(
            to,
            old(live)@.grid,
            entities.entries@,
            have@,
            cell,
            room as nat,
            (Streamed {
                chunks: r.0@,
                lagging: r.1,
                told: said(final(out)@).skip(said(old(out)@).len() as int),
            }),
        ),
{
    let ghost g = live.world@;
    let ghost before = *live;
    let ghost base = said(out@);
    let center: (u32, u32) = player_chunk(&live.world, cell.0, cell.1);
    assert(spec_chunks(live.world.width) <= 0x400_0000);
    assert(spec_chunks(live.world.height) <= 0x400_0000);
    let want = chunk_window(&live.world, center, CHUNK_SUB_RADIUS_X, CHUNK_SUB_RADIUS_Y);
    let keep = chunk_window(
        &live.world,
        center,
        CHUNK_SUB_RADIUS_X + CHUNK_SUB_HYSTERESIS,
        CHUNK_SUB_RADIUS_Y + CHUNK_SUB_HYSTERESIS,
    );
    let missing = missing_chunks(want, have);
    assert(all_missing(g, center_chunk(g, cell), have@, missing@));
    let ghost all = window_messages(to, g, entities.entries@, missing@);
    let ghost chunks = chunk_messages(to, g, missing@);
    let mut i: usize = 0;
    assert(said(out@) =~= base + chunks.take(0));
    while i < missing.len() && i < room
        invariant
            i <= missing.len(),
            i <= room,
            live.wf(),
            *live == (Live { cache: live.cache, ..before }),
            g == live.world@,
            chunks == chunk_messages(to, g, missing@),
            forall|c: (u32, u32)| #[trigger] missing@.contains(c) ==> want.spec_contains(c),
            want.x.1 <= 0x400_0000,
            want.y.1 <= 0x400_0000,
            said(out@) == base + chunks.take(i as int),
        decreases missing.len() - i,
    {
        let c: (u32, u32) = missing[i];
        assert(missing@.contains(missing@[i as int]));
        let tiles = live.chunk_frame(c);
        tell(out, to, Notice::Chunk { cx: c.0, cy: c.1, tiles });
        assert(chunks.take(i + 1) =~= chunks.take(i as int).push(chunks[i as int]));
        i = i + 1;
        assert(said(out@) =~= base + chunks.take(i as int));
    }
    let delivered: usize = i;
    let mut lagging: bool = delivered < missing.len();
    let mut list: Vec<(u32, Entity)> = Vec::new();
    let mut k: usize = 0;
    while k < missing.len()
        invariant
            k <= missing.len(),
            list@ == arrivals(entities.entries@, missing@, k as nat),
        decreases missing.len() - k,
    {
        let mut here = entities.spawn_messages_in_chunk(missing[k]);
        list.append(&mut here);
        k = k + 1;
    }
    let ghost spawns = spawn_messages(to, list@);
    let ghost mid = said(out@);
    let rest: usize = room - delivered;
    let mut j: usize = 0;
    assert(said(out@) =~= mid + spawns.take(0));
    if !lagging {
        while j < list.len() && j < rest
            invariant
                j <= list.len(),
                j <= rest,
                spawns == spawn_messages(to, list@),
                said(out@) == mid + spawns.take(j as int),
            decreases list.len() - j,
        {
            let (id, entity): (u32, Entity) = list[j];
            tell(out, to, Notice::Spawned { id, entity });
            assert(spawns.take(j + 1) =~= spawns.take(j as int).push(spawns[j as int]));
            j = j + 1;
            assert(said(out@) =~= mid + spawns.take(j as int));
        }
        lagging = j < list.len();
    } else {
        lagging = true;
    }
    let now = subscribe(have, &missing, delivered, keep);
    proof {
        let told = said(out@).skip(base.len() as int);
        assert(all == chunks + spawns);
        assert(told =~= chunks.take(delivered as int) + spawns.take(j as int));
        assert(told =~= all.take(least(all.len(), room as nat) as int));
        let r = Streamed { chunks: now@, lagging, told };
        assert(streams_missing(
            to,
            g,
            entities.entries@,
            have@,
            cell,
            room as nat,
            missing@,
            r,
        ));
    }
    (now, lagging)
}

impl Roster {
    /// Keeps the window of the player at index `i` around the cell where they
    /// stand. Returns whether their queue, which has `room`, was too short, so
    /// that they are to be dropped.
    pub fn update_player_chunks(
        &mut self,
        i: usize,
        live: &mut Live,
        entities: &EntityStore,
        cell: (u32, u32),
        room: usize,
        out: &mut Vec<Outgoing>,
    ) -> (lagging: bool)
        requires
            old(self).wf(),
            i < old(self).players.len(),
            old(live).wf(),
            old(live).world.width > 0,
            old(live).world.height > 0,
        ensures
            final(self).wf(),
            final(self).offline == old(self).offline,
            final(self).next_player_id == old(self).next_player_id,
            final(self).next_epoch == old(self).next_epoch,
            final(self).players@ == old(self).players@.update(
                i as int,
                (Player {
                    chunks: final(self).players@[i as int].chunks,
                    ..old(self).players@[i as int]
                }),
            ),
            final(live).wf(),
            *final(live) == (Live { cache: final(live).cache, ..*old(live) }),
            said(old(out)@).is_prefix_of(said(final(out)@)),
            streams(
                old(self).players@[i as int].id,
                old(live)@.grid,
                entities.entries@,
                old(self).players@[i as int].chunks@,
                cell,
                room as nat,
                (Streamed {
                    chunks: final(self).players@[i as int].chunks@,
                    lagging,
                    told: said(final(out)@).skip(said(old(out)@).len() as int),
                }),
            ),
    {
        let id: u32 = self.players[i].id;
        let (chunks, lagging): (Vec<(u32, u32)>, bool) = stream(
            live,
            entities,
            &self.players[i].chunks,
            id,
            cell,
            room,
            out,
        );
        self.players[i].chunks = chunks;
        lagging
    }
}

/// A motion that everyone was told of.
pub open spec fn shared(m: Motion) -> Motion {
    Motion { moved: false, ..m }
}

impl Roster {
    /// Where the player at index `i` moved since they were last looked at,
    /// everyone else is told, and their window follows them to the cell where
    /// they stand. Returns whether their queue, which has `room`, was too
    /// short for that.
    pub fn share_move(
        &mut self,
        i: usize,
        live: &mut Live,
        entities: &EntityStore,
        cell: (u32, u32),
        room: usize,
        out: &mut Vec<Outgoing>,
    ) -> (lagging: bool)
        requires
            old(self).wf(),
            i < old(self).players.len(),
            old(live).wf(),
            old(live).world.width > 0,
            old(live).world.height > 0,
        ensures
            final(self).wf(),
            final(self).offline == old(self).offline,
            final(self).next_player_id == old(self).next_player_id,
            final(self).next_epoch == old(self).next_epoch,
            final(live).wf(),
            *final(live) == (Live { cache: final(live).cache, ..*old(live) }),
            ({
                let p = old(self).players@[i as int];
                let news = said(old(out)@) + old(self).news(
                    Said::Moved { id: p.id, motion: shared(p.motion) },
                    Some(p.id),
                    old(self).players@.len(),
                );
                let now = final(self).players@[i as int];
                if p.motion.moved {
                    &&& final(self).players@ == old(self).players@.update(
                        i as int,
                        (Player { motion: shared(p.motion), chunks: now.chunks, ..p }),
                    )
                    &&& news.is_prefix_of(said(final(out)@))
                    &&& streams(
                        p.id,
                        old(live)@.grid,
                        entities.entries@,
                        p.chunks@,
                        cell,
                        room as nat,
                        (Streamed {
                            chunks: now.chunks@,
                            lagging,
                            told: said(final(out)@).skip(news.len() as int),
                        }),
                    )
                } else {
                    &&& !lagging
                    &&& *final(self) == *old(self)
                    &&& *final(live) == *old(live)
                    &&& final(out)@ == old(out)@
                }
            }),
    {
        let mut motion: Motion = self.players[i].motion;
        if !motion.moved {
            return false;
        }
        motion.moved = false;
        let id: u32 = self.players[i].id;
        let ghost before = *self;
        self.players[i].motion = motion;
        proof {
            lemma_same_ids_news(
                before,
                *self,
                Said::Moved { id, motion },
                Some(id),
                before.players@.len(),
            );
        }
        self.broadcast(&Notice::Moved { id, motion }, Some(id), out);
        self.update_player_chunks(i, live, entities, cell, room, out)
    }
}

/// The cells as they are now.
pub open spec fn as_changes(g: Grid, cells: Seq<(u32, u32)>) -> Seq<(u32, u32, Tile)> {
    Seq::new(
        cells.len(),
        |i: int| (cells[i].0, cells[i].1, g.at(cells[i].0 as int, cells[i].1 as int)),
    )
}

/// The changes of a tick as they are told to the first `n` players: to each
/// those in their chunks, in one notice, and nothing where there are none.
pub open spec fn batch_news(
    players: Seq<Player>,
    g: Grid,
    cells: Seq<(u32, u32)>,
    n: nat,
) -> Seq<Message>
    decreases n,
{
    if n == 0 {
        seq![]
    } else {
        let before = batch_news(players, g, cells, (n - 1) as nat);
        let p = players[n - 1];
        let mine = seen_by(cells, p.chunks@, cells.len());
        if mine.len() == 0 {
            before
        } else {
            before.push(
                Message { to: p.id, what: Said::Tiles { changes: as_changes(g, mine) } },
            )
        }
    }
}

impl Live {
    /// Reads the tiles of cells of the world.
    fn read(&self, cells: &Vec<(u32, u32)>) -> (changes: Vec<(u32, u32, Tile)>)
        requires
            self.wf(),
            forall|i: int|
                0 <= i < cells.len() ==> self.world@.inside(
                    (#[trigger] cells@[i]).0 as int,
                    cells@[i].1 as int,
                ),
        ensures
            changes@ == as_changes(self.world@, cells@),
    {
        let mut changes: Vec<(u32, u32, Tile)> = Vec::new();
        let mut i: usize = 0;
        while i < cells.len()
            invariant
                i <= cells.len(),
                self.wf(),
                forall|k: int|
                    0 <= k < cells.len() ==> self.world@.inside(
                        (#[trigger] cells@[k]).0 as int,
                        cells@[k].1 as int,
                    ),
                changes@ == as_changes(self.world@, cells@.take(i as int)),
            decreases cells.len() - i,
        {
            let (x, y): (u32, u32) = cells[i];
            changes.push((x, y, self.world.tile(x, y)));
            i = i + 1;
            assert(changes@ =~= as_changes(self.world@, cells@.take(i as int)));
        }
        assert(cells@.take(i as int) =~= cells@);
        changes
    }

    /// Tells everyone of the changes of the tick that lie in their chunks.
    pub fn flush_tile_batch(&mut self, roster: &Roster, out: &mut Vec<Outgoing>)
        requires
            old(self).wf(),
        ensures
            final(self).wf(),
            final(self)@ == (LiveView { staged: seq![], ..old(self)@ }),
            final(self).world == old(self).world,
            exists|cells: Seq<(u32, u32)>| #[trigger]
                tidied(old(self)@.grid, old(self)@.staged, cells) && said(final(out)@) == said(
                    old(out)@,
                ) + batch_news(roster.players@, old(self)@.grid, cells, roster.players@.len()),
    {
        let ghost raw = self.staged@;
        let mut batch: Vec<(u32, u32)> = Vec::new();
        std::mem::swap(&mut batch, &mut self.staged);
        let cells = batch_cells(&self.world, batch);
        let ghost g = self.world@;
        let ghost base = said(out@);
        assert(tidied(g, raw, cells@));
        let mut i: usize = 0;
        assert(said(out@) =~= base + batch_news(roster.players@, g, cells@, 0));
        while i < roster.players.len()
            invariant
                i <= roster.players.len(),
                self.wf(),
                g == self.world@,
                tidied(g, raw, cells@),
                said(out@) == base + batch_news(roster.players@, g, cells@, i as nat),
            decreases roster.players.len() - i,
        {
            let mine = cells_for(&cells, &roster.players[i].chunks);
            if mine.len() > 0 {
                proof {
                    assert forall|k: int| 0 <= k < mine.len() implies g.inside(
                        (#[trigger] mine@[k]).0 as int,
                        mine@[k].1 as int,
                    ) by {
                        crate::sim::stream::lemma_seen(
                            cells@,
                            roster.players@[i as int].chunks@,
                            cells@.len(),
                        );
                        assert(mine@.contains(mine@[k]));
                        assert(cells@.take(cells@.len() as int) =~= cells@);
                    }
                }
                let changes = self.read(&mine);
                tell(out, roster.players[i].id, Notice::Tiles { changes });
            }
            i = i + 1;
            assert(said(out@) =~= base + batch_news(roster.players@, g, cells@, i as nat));
        }
        assert(tidied(old(self)@.grid, old(self)@.staged, cells@));
    }
}

/// A player is wanted the chunks up to two to the sides and one above and below
/// of their own, as far as the world has any; a chunk is kept one further out.
pub proof fn law_the_window_follows_the_player(g: Grid, center: (u32, u32), c: (u32, u32))
    requires
        0 <= g.width <= u32::MAX,
        0 <= g.height <= u32::MAX,
        c.0 * 64 < g.width,
        c.1 * 64 < g.height,
    ensures
        wanted(g, center, c) <==> -2 <= c.0 - center.0 <= 2 && -1 <= c.1 - center.1 <= 1,
        retained(g, center, c) <==> -3 <= c.0 - center.0 <= 3 && -2 <= c.1 - center.1 <= 2,
        wanted(g, center, c) ==> retained(g, center, c),
{
}

/// With each chunk come its tiles, and after the chunks the things in them, to
/// the player alone.
pub proof fn law_chunks_come_with_their_things(
    to: u32,
    g: Grid,
    entities: Seq<(u32, Entity)>,
    missing: Seq<(u32, u32)>,
    i: int,
)
    requires
        0 <= i < window_messages(to, g, entities, missing).len(),
    ensures
        ({
            let m = window_messages(to, g, entities, missing)[i];
            &&& m.to == to
            &&& i < missing.len() ==> (m.what matches Said::Chunk { cx, cy, tiles } && (cx, cy)
                == missing[i] && tiles == chunk_content(g, missing[i]))
            &&& i >= missing.len() ==> m.what is Spawned
        }),
{
}

/// What moved is told once: the mark that it moved goes, the rest of the
/// motion stays.
pub proof fn law_moves_are_shared_once(m: Motion)
    ensures
        !shared(m).moved,
        shared(m).pos == m.pos && shared(m).vel == m.vel && shared(m).facing == m.facing
            && shared(m).anim == m.anim,
{
}

/// A player whom changes concern gets one message with all of them, as the
/// world is now; nobody else gets any.
pub proof fn law_batches_go_to_whom_they_concern(
    players: Seq<Player>,
    g: Grid,
    cells: Seq<(u32, u32)>,
    n: nat,
    k: int,
)
    requires
        n <= players.len(),
        0 <= k < batch_news(players, g, cells, n).len(),
    ensures
        ({
            let m = batch_news(players, g, cells, n)[k];
            exists|i: int|
                0 <= i < n && (#[trigger] players[i]).id == m.to && seen_by(
                    cells,
                    players[i].chunks@,
                    cells.len(),
                ).len() > 0 && (m.what matches Said::Tiles { changes } && changes == as_changes(
                    g,
                    seen_by(cells, players[i].chunks@, cells.len()),
                ))
        }),
        batch_news(players, g, cells, n).len() <= n,
    decreases n,
{
    lemma_batch_len(players, g, cells, n);
    if n > 0 {
        let before = batch_news(players, g, cells, (n - 1) as nat);
        if k < before.len() {
            law_batches_go_to_whom_they_concern(players, g, cells, (n - 1) as nat, k);
            let m = before[k];
            let i = choose|i: int|
                0 <= i < n - 1 && (#[trigger] players[i]).id == m.to && seen_by(
                    cells,
                    players[i].chunks@,
                    cells.len(),
                ).len() > 0 && (m.what matches Said::Tiles { changes } && changes == as_changes(
                    g,
                    seen_by(cells, players[i].chunks@, cells.len()),
                ));
            assert(players[i].id == m.to);
        } else {
            assert(players[n - 1].id == batch_news(players, g, cells, n)[k].to);
        }
    }
}

proof fn lemma_batch_len(players: Seq<Player>, g: Grid, cells: Seq<(u32, u32)>, n: nat)
    ensures
        batch_news(players, g, cells, n).len() <= n,
    decreases n,
{
    if n > 0 {
        lemma_batch_len(players, g, cells, (n - 1) as nat);
    }
}

/// A change is told with the tile that the world has at its cell.
pub proof fn law_changes_tell_the_tile(g: Grid, cells: Seq<(u32, u32)>, i: int)
    requires
        0 <= i < cells.len(),
    ensures
        as_changes(g, cells).len() == cells.len(),
        as_changes(g, cells)[i].0 == cells[i].0 && as_changes(g, cells)[i].1 == cells[i].1,
        as_changes(g, cells)[i].2 == g.at(cells[i].0 as int, cells[i].1 as int),
{
}

/// No more is sent than there is room for, first things first, and whoever could not be sent all
/// lags behind. They hold what they had and what they were sent, as far as it is near.
pub proof fn law_room_limits_what_is_sent(
    to: u32,
    g: Grid,
    entities: Seq<(u32, Entity)>,
    have: Seq<(u32, u32)>,
    cell: (u32, u32),
    room: nat,
    missing: Seq<(u32, u32)>,
    r: Streamed,
    c: (u32, u32),
)
    requires
        streams_missing(to, g, entities, have, cell, room, missing, r),
    ensures
        ({
            let all = window_messages(to, g, entities, missing);
            &&& r.told.len() <= room
            &&& r.lagging <==> room < all.len()
            &&& !r.lagging ==> r.told == all
            &&& r.told.is_prefix_of(all)
            &&& r.chunks.contains(c) ==> have.contains(c) || missing.contains(c)
            &&& r.chunks.contains(c) ==> retained(g, center_chunk(g, cell), c)
            &&& have.contains(c) && retained(g, center_chunk(g, cell), c) ==> r.chunks.contains(c)
            &&& missing.len() <= room && missing.contains(c) && retained(
                g,
                center_chunk(g, cell),
                c,
            ) ==> r.chunks.contains(c)
        }),
{
    let all = window_messages(to, g, entities, missing);
    let sent = missing.take(least(missing.len(), room) as int);
    assert(all.take(all.len() as int) =~= all);
    if missing.len() <= room {
        assert(sent =~= missing);
    }
    if sent.contains(c) {
        let i = choose|i: int| 0 <= i < sent.len() && sent[i] == c;
        assert(missing[i] == c);
    }
}

} // verus!
