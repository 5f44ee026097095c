//! That what players are told keeps their copies of the world true.

use vstd::prelude::*;

use crate::grid::{group_grid, Grid};
use crate::sim::chunks::{chunk_of, seen_by};
use crate::sim::edits::{edited, edits_fit, lemma_edited};
use crate::sim::player::Player;
use crate::sim::roster::{distinct_ids, Message, Said};
use crate::sim::session::{cell_news, change_news, edit_news, receivers};
use crate::sim::stream::{law_changes_reach_their_clients, mirrors, told};
use crate::sim::window::{as_changes, batch_news};
use crate::tile::Tile;

verus! {

/// What `m` does to the copy of the player `id`.
pub open spec fn heard(copy: Grid, m: Message, id: u32) -> Grid {
    match m.what {
        Said::Tile { x, y, tile } if m.to == id => copy.put(x as int, y as int, tile),
        Said::Tiles { changes } if m.to == id => edited(copy, changes),
        _ => copy,
    }
}

/// The copy of the player `id` after the messages.
pub open spec fn after_hearing(copy: Grid, msgs: Seq<Message>, id: u32) -> Grid
    decreases msgs.len(),
{
    if msgs.len() == 0 {
        copy
    } else {
        heard(after_hearing(copy, msgs.drop_last(), id), msgs.last(), id)
    }
}

proof fn lemma_hearing_twice(copy: Grid, first: Seq<Message>, second: Seq<Message>, id: u32)
    ensures
        after_hearing(copy, first + second, id) == after_hearing(
            after_hearing(copy, first, id),
            second,
            id,
        ),
    decreases second.len(),
{
    if second.len() == 0 {
        assert(first + second =~= first);
    } else {
        lemma_hearing_twice(copy, first, second.drop_last(), id);
        assert((first + second).drop_last() =~= first + second.drop_last());
        assert((first + second).last() == second.last());
    }
}

/// Who receives a chunk is told of it, and nobody else.
proof fn lemma_receivers(players: Seq<Player>, c: (u32, u32), n: nat, k: int)
    requires
        distinct_ids(players),
        0 <= k < players.len(),
        n <= players.len(),
    ensures
        receivers(players, c, n).contains(players[k].id) <==> k < n && players[k].chunks@.contains(
            c,
        ),
    decreases n,
{
    if n > 0 {
        let m = (n - 1) as nat;
        lemma_receivers(players, c, m, k);
        let (r0, r1) = (receivers(players, c, m), receivers(players, c, n));
        let id = players[k].id;
        if players[m as int].chunks@.contains(c) {
            assert(r1[r0.len() as int] == players[m as int].id);
            if r0.contains(id) {
                let j = r0.index_of(id);
                assert(r1[j] == id);
            }
            if r1.contains(id) {
                let j = r1.index_of(id);
                if j < r0.len() {
                    assert(r0[j] == id);
                }
            }
            if m != k {
                assert(players[m as int].id != id);
            }
        }
    }
}

proof fn lemma_cell_news(copy: Grid, ids: Seq<u32>, e: (u32, u32, Tile), n: nat, id: u32)
    requires
        copy.wf(),
        copy.inside(e.0 as int, e.1 as int),
        e.2.wf(),
        n <= ids.len(),
    ensures
        ({
            let after = after_hearing(copy, cell_news(ids, e, n), id);
            &&& after.wf()
            &&& after.width == copy.width
            &&& after.height == copy.height
            &&& forall|a: int, b: int|
                copy.inside(a, b) ==> #[trigger] after.at(a, b) == (if ids.take(
                    n as int,
                ).contains(id) && a == e.0 && b == e.1 {
                    e.2
                } else {
                    copy.at(a, b)
                })
        }),
    decreases n,
{
    broadcast use group_grid;

    let t1 = ids.take(n as int);
    if n > 0 {
        let m = (n - 1) as nat;
        lemma_cell_news(copy, ids, e, m, id);
        assert(cell_news(ids, e, n).drop_last() =~= cell_news(ids, e, m));
        let t0 = ids.take(m as int);
        assert(t1 =~= t0.push(ids[m as int]));
        let mid = after_hearing(copy, cell_news(ids, e, m), id);
        let after = after_hearing(copy, cell_news(ids, e, n), id);
        if t0.contains(id) {
            let j = t0.index_of(id);
            assert(t1[j] == id);
        }
        if t1.contains(id) && ids[m as int] != id {
            let j = t1.index_of(id);
            assert(t0[j] == id);
        }
        if ids[m as int] == id {
            assert(t1[m as int] == id);
            assert(after == mid.put(e.0 as int, e.1 as int, e.2));
            let one = seq![e];
            assert(one.drop_last() =~= Seq::<(u32, u32, Tile)>::empty());
            assert(edited(mid, one.drop_last()) == mid);
            assert(edits_fit(mid, one));
            lemma_edited(mid, one);
            assert(edited(mid, one) == after);
        } else {
            assert(after == mid);
        }
        assert forall|a: int, b: int| copy.inside(a, b) implies #[trigger] after.at(a, b) == (
        if t1.contains(id) && a == e.0 && b == e.1 {
            e.2
        } else {
            copy.at(a, b)
        }) by {
            assert(mid.at(a, b) == mid.at(a, b));
            assert(mid.inside(a, b));
        }
    } else {
        assert(t1 =~= Seq::<u32>::empty());
    }
}

/// Cells that are put one after the other reach every player who receives
/// them: a copy that takes over what its player is told still shows the world
/// in all of that player's chunks.
pub proof fn law_edits_reach_their_clients(
    players: Seq<Player>,
    k: int,
    copy: Grid,
    world: Grid,
    edits: Seq<(u32, u32, Tile)>,
)
    requires
        distinct_ids(players),
        0 <= k < players.len(),
        copy.wf(),
        world.wf(),
        world.width <= u32::MAX,
        world.height <= u32::MAX,
        mirrors(copy, world, players[k].chunks@.to_set()),
        edits_fit(world, edits),
    ensures
        after_hearing(copy, edit_news(players, edits), players[k].id).wf(),
        mirrors(
            after_hearing(copy, edit_news(players, edits), players[k].id),
            edited(world, edits),
            players[k].chunks@.to_set(),
        ),
    decreases edits.len(),
{
    broadcast use group_grid;

    let id = players[k].id;
    let chunks = players[k].chunks@.to_set();
    if edits.len() > 0 {
        let less = edits.drop_last();
        let e = edits.last();
        assert(edits_fit(world, less)) by {
            assert forall|i: int| 0 <= i < less.len() implies world.inside(
                (#[trigger] less[i]).0 as int,
                less[i].1 as int,
            ) && less[i].2.wf() by {
                assert(edits[i] == less[i]);
            }
        }
        law_edits_reach_their_clients(players, k, copy, world, less);
        lemma_edited(world, less);
        lemma_edited(world, edits);
        assert(edits[edits.len() - 1] == e);
        let (w0, w1) = (edited(world, less), edited(world, edits));
        let mid = after_hearing(copy, edit_news(players, less), id);
        let c = chunk_of(e.0, e.1);
        let ids = receivers(players, c, players.len());
        lemma_hearing_twice(copy, edit_news(players, less), change_news(players, e), id);
        lemma_receivers(players, c, players.len(), k);
        lemma_cell_news(mid, ids, e, ids.len(), id);
        assert(ids.take(ids.len() as int) =~= ids);
        let end = after_hearing(copy, edit_news(players, edits), id);
        assert forall|x: int, y: int|
            w1.inside(x, y) && chunks.contains(
                chunk_of(x as u32, y as u32),
            ) implies #[trigger] end.at(x, y) == w1.at(x, y) by {
            assert(mid.inside(x, y));
            assert(w0.inside(x, y));
            assert(mid.at(x, y) == w0.at(x, y));
            if x == e.0 && y == e.1 {
                assert(chunk_of(x as u32, y as u32) == c);
                assert(players[k].chunks@.contains(c));
            }
        }
    } else {
        assert(edit_news(players, edits) =~= Seq::<Message>::empty());
    }
}

proof fn lemma_as_changes(copy: Grid, world: Grid, cells: Seq<(u32, u32)>, n: nat)
    requires
        n <= cells.len(),
    ensures
        edited(copy, as_changes(world, cells.take(n as int))) == told(copy, world, cells, n),
    decreases n,
{
    let now = as_changes(world, cells.take(n as int));
    if n > 0 {
        let m = (n - 1) as nat;
        lemma_as_changes(copy, world, cells, m);
        assert(now.drop_last() =~= as_changes(world, cells.take(m as int)));
    }
}

/// Nobody is told of a batch but the one player each notice is for.
proof fn lemma_batch_news(
    players: Seq<Player>,
    g: Grid,
    cells: Seq<(u32, u32)>,
    n: nat,
    k: int,
    copy: Grid,
)
    requires
        distinct_ids(players),
        0 <= k < players.len(),
        n <= players.len(),
    ensures
        ({
            let mine = seen_by(cells, players[k].chunks@, cells.len());
            after_hearing(copy, batch_news(players, g, cells, n), players[k].id) == (if k < n {
                edited(copy, as_changes(g, mine))
            } else {
                copy
            })
        }),
    decreases n,
{
    if n > 0 {
        let m = (n - 1) as nat;
        lemma_batch_news(players, g, cells, m, k, copy);
        let before = batch_news(players, g, cells, m);
        let now = batch_news(players, g, cells, n);
        let p = players[m as int];
        let mine = seen_by(cells, p.chunks@, cells.len());
        if mine.len() > 0 {
            assert(now.drop_last() =~= before);
            if m != k {
                assert(p.id != players[k].id);
            }
        } else if m == k {
            assert(as_changes(g, mine) =~= Seq::<(u32, u32, Tile)>::empty());
        }
    }
}

/// The changes of a tick reach every player who receives them: a copy that
/// takes over what its player is told when the tick ends shows the changed
/// world in all of that player's chunks.
pub proof fn law_batches_reach_their_clients(
    players: Seq<Player>,
    k: int,
    copy: Grid,
    before: Grid,
    after: Grid,
    cells: Seq<(u32, u32)>,
)
    requires
        distinct_ids(players),
        0 <= k < players.len(),
        copy.wf(),
        after.wf(),
        before.width <= u32::MAX,
        before.height <= u32::MAX,
        mirrors(copy, before, players[k].chunks@.to_set()),
        after.width == before.width,
        after.height == before.height,
        forall|i: int|
            0 <= i < cells.len() ==> after.inside(
                (#[trigger] cells[i]).0 as int,
                cells[i].1 as int,
            ),
        forall|x: int, y: int|
            before.inside(x, y) && !cells.contains((x as u32, y as u32)) ==> #[trigger] after.at(
                x,
                y,
            ) == before.at(x, y),
    ensures
        mirrors(
            after_hearing(
                copy,
                batch_news(players, after, cells, players.len()),
                players[k].id,
            ),
            after,
            players[k].chunks@.to_set(),
        ),
{
    let mine = seen_by(cells, players[k].chunks@, cells.len());
    lemma_batch_news(players, after, cells, players.len(), k, copy);
    lemma_as_changes(copy, after, mine, mine.len());
    assert(mine.take(mine.len() as int) =~= mine);
    law_changes_reach_their_clients(copy, before, after, cells, players[k].chunks@);
}

/// A copy changes by the tiles that its owner is told of, and by nothing that others hear.
pub proof fn law_copies_change_by_what_is_heard(copy: Grid, m: Message, id: u32)
    ensures
        m.to != id ==> heard(copy, m, id) == copy,
        m.to == id && m.what is Tile ==> heard(copy, m, id) == copy.put(
            m.what->Tile_x as int,
            m.what->Tile_y as int,
            m.what->Tile_tile,
        ),
        !(m.what is Tile) && !(m.what is Tiles) ==> heard(copy, m, id) == copy,
        after_hearing(copy, seq![], id) == copy,
        after_hearing(copy, seq![m], id) == heard(copy, m, id),
{
    reveal_with_fuel(after_hearing, 2);
    assert(seq![m].drop_last() =~= Seq::<Message>::empty());
}

} // verus!
