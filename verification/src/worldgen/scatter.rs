//! The placement passes: each request brings the positions drawn for it, and
//! takes the first that is any good.

use vstd::prelude::*;

use crate::chest::ChestStore;
use crate::grid::{
    box_vacant, group_grid, in_box, lemma_only_brings_all, lemma_only_brings_twice, only_brings,
    with_object, Grid, World,
};
use crate::item::InvSlot;
use crate::tile::{Tile, TileId, TileState};
use crate::worldgen::caves::{is_surface, surface_scan};
use crate::worldgen::kept::{
    built, lemma_adorned_kept, lemma_pockets_webbed_kept, lemma_ruins_kept, lemma_stood_kept,
    lemma_surface_stood_kept, lemma_web_run_kept,
};
use crate::worldgen::params::GenParams;
use crate::worldgen::pockets::Pockets;
use crate::worldgen::structures::{
    build_ruin, choose_ruin_site, clear_box, cluster_count, cluster_grid, crystal_site, distance_sq,
    far_enough, find_floor_spot, first_chest_floor, fits_floor, in_webbed_pocket, is_nook,
    place_life_crystal, place_pot, pot_site, ruin_built, ruin_site, scan_hit, small_pocket,
    solid_around, spaced, spec_small_pocket, spin_cluster, surface_chest_floor, underworld_floor,
    web_pockets, webbable, webbed, webs_before, band_floor, chest_floor,
};

verus! {

/// What is scattered over single cells.
#[derive(Debug, Clone, Copy, PartialEq, Eq, Structural)]
pub enum Ornament {
    LifeCrystal,
    Pot,
}

impl Ornament {
    /// Whether the ornament can stand at a cell.
    pub open spec fn fits(self, g: Grid, x: int, y: int) -> bool {
        match self {
            Ornament::LifeCrystal => crystal_site(g, x, y),
            Ornament::Pot => pot_site(g, x, y),
        }
    }

    /// The tile that it makes of a cell: wall and liquid stay.
    pub open spec fn over(self, t: Tile) -> Tile {
        match self {
            Ornament::LifeCrystal => Tile {
                id: TileId::LifeCrystal,
                state: TileState::spec_clear(),
                ..t
            },
            Ornament::Pot => Tile { id: TileId::Pot, state: TileState::spec_clear(), ..t },
        }
    }

    /// What it takes the place of.
    pub open spec fn ground(self) -> TileId {
        match self {
            Ornament::LifeCrystal => TileId::Stone,
            Ornament::Pot => TileId::Air,
        }
    }
}

/// A cell with a neighbor on every side.
pub open spec fn inner(g: Grid, c: (u32, u32)) -> bool {
    1 <= c.0 < g.width - 1 && 1 <= c.1 < g.height - 1
}

/// The first cell from index `from` on that the ornament fits takes it.
pub open spec fn adorn_once(g: Grid, what: Ornament, tries: Seq<(u32, u32)>, from: int) -> Grid
    decreases tries.len() - from,
{
    if from < 0 || from >= tries.len() {
        g
    } else {
        let (x, y) = (tries[from].0 as int, tries[from].1 as int);
        if what.fits(g, x, y) {
            g.put(x, y, what.over(g.at(x, y)))
        } else {
            adorn_once(g, what, tries, from + 1)
        }
    }
}

/// The grid after the first `n` requests.
pub open spec fn adorned(
    g: Grid,
    what: Ornament,
    requests: Seq<Vec<(u32, u32)>>,
    n: nat,
) -> Grid
    decreases n,
{
    if n == 0 {
        g
    } else {
        adorn_once(adorned(g, what, requests, (n - 1) as nat), what, requests[n - 1]@, 0)
    }
}

fn place_ornament(world: &mut World, what: Ornament, x: u32, y: u32) -> (done: bool)
    requires
        old(world).wf(),
        inner(old(world)@, (x, y)),
    ensures
        final(world).wf(),
        final(world).width == old(world).width,
        final(world).height == old(world).height,
        final(world).spawn == old(world).spawn,
        done == what.fits(old(world)@, x as int, y as int),
        final(world)@ == (if done {
            old(world)@.put(
                x as int,
                y as int,
                what.over(old(world)@.at(x as int, y as int)),
            )
        } else {
            old(world)@
        }),
{
    match what {
        Ornament::LifeCrystal => place_life_crystal(world, x, y),
        Ornament::Pot => place_pot(world, x, y),
    }
}

fn adorn(world: &mut World, what: Ornament, tries: &Vec<(u32, u32)>)
    requires
        old(world).wf(),
        forall|i: int| 0 <= i < tries.len() ==> inner(old(world)@, #[trigger] tries@[i]),
    ensures
        final(world).wf(),
        final(world).width == old(world).width,
        final(world).height == old(world).height,
        final(world).spawn == old(world).spawn,
        final(world)@ == adorn_once(old(world)@, what, tries@, 0),
{
    let ghost g = world@;
    let mut i: usize = 0;
    while i < tries.len()
        invariant
            world.wf(),
            world@ == g,
            g == old(world)@,
            world.width == old(world).width,
            world.height == old(world).height,
            world.spawn == old(world).spawn,
            i <= tries.len(),
            forall|k: int| 0 <= k < tries.len() ==> inner(g, #[trigger] tries@[k]),
            adorn_once(g, what, tries@, 0) == adorn_once(g, what, tries@, i as int),
        decreases tries.len() - i,
    {
        let (x, y) = tries[i];
        assert(inner(g, tries@[i as int]));
        if place_ornament(world, what, x, y) {
            return ;
        }
        i = i + 1;
    }
}

fn scatter(world: &mut World, what: Ornament, requests: &Vec<Vec<(u32, u32)>>)
    requires
        old(world).wf(),
        forall|i: int, j: int|
            0 <= i < requests.len() && 0 <= j < requests@[i].len() ==> inner(
                old(world)@,
                #[trigger] requests@[i]@[j],
            ),
    ensures
        final(world).wf(),
        final(world).width == old(world).width,
        final(world).height == old(world).height,
        final(world).spawn == old(world).spawn,
        final(world)@ == adorned(old(world)@, what, requests@, requests@.len()),
{
    let mut i: usize = 0;
    while i < requests.len()
        invariant
            world.wf(),
            world.width == old(world).width,
            world.height == old(world).height,
            world.spawn == old(world).spawn,
            i <= requests.len(),
            forall|k: int, j: int|
                0 <= k < requests.len() && 0 <= j < requests@[k].len() ==> inner(
                    old(world)@,
                    #[trigger] requests@[k]@[j],
                ),
            world@ == adorned(old(world)@, what, requests@, i as nat),
        decreases requests.len() - i,
    {
        adorn(world, what, &requests[i]);
        i = i + 1;
    }
}

/// Embeds the life crystals, one for each request that holds a stone cell
/// touching air.
pub fn life_crystals(world: &mut World, requests: &Vec<Vec<(u32, u32)>>)
    requires
        old(world).wf(),
        forall|i: int, j: int|
            0 <= i < requests.len() && 0 <= j < requests@[i].len() ==> inner(
                old(world)@,
                #[trigger] requests@[i]@[j],
            ),
    ensures
        final(world).wf(),
        final(world).width == old(world).width,
        final(world).height == old(world).height,
        final(world).spawn == old(world).spawn,
        final(world)@ == adorned(
            old(world)@,
            Ornament::LifeCrystal,
            requests@,
            requests@.len(),
        ),
{
    scatter(world, Ornament::LifeCrystal, requests)
}

/// Puts the pots on cave floors, one for each request that holds a dry cell
/// of air on a solid one.
pub fn pots(world: &mut World, requests: &Vec<Vec<(u32, u32)>>)
    requires
        old(world).wf(),
        forall|i: int, j: int|
            0 <= i < requests.len() && 0 <= j < requests@[i].len() ==> inner(
                old(world)@,
                #[trigger] requests@[i]@[j],
            ),
    ensures
        final(world).wf(),
        final(world).width == old(world).width,
        final(world).height == old(world).height,
        final(world).spawn == old(world).spawn,
        final(world)@ == adorned(old(world)@, Ornament::Pot, requests@, requests@.len()),
{
    scatter(world, Ornament::Pot, requests)
}

proof fn lemma_adorn_once(
    g: Grid,
    what: Ornament,
    tries: Seq<(u32, u32)>,
    from: int,
    x: int,
    y: int,
)
    requires
        g.wf(),
        g.inside(x, y),
        forall|i: int| 0 <= i < tries.len() ==> inner(g, #[trigger] tries[i]),
    ensures
        ({
            let after = adorn_once(g, what, tries, from);
            &&& after.width == g.width
            &&& after.height == g.height
            &&& after.cells.len() == g.cells.len()
            &&& after.wf()
            &&& after.at(x, y) == g.at(x, y) || (g.at(x, y).id == what.ground() && after.at(x, y)
                == what.over(g.at(x, y)))
        }),
    decreases tries.len() - from,
{
    broadcast use group_grid;

    if from < 0 || from >= tries.len() {
    } else {
        let (a, b) = (tries[from].0 as int, tries[from].1 as int);
        assert(inner(g, tries[from]));
        assert(g.inside(a, b));
        if what.fits(g, a, b) {
        } else {
            lemma_adorn_once(g, what, tries, from + 1, x, y);
        }
    }
}

/// Scattering changes only what it may: a crystal stands where stone was, a
/// pot where air was, and walls and liquids stay.
pub proof fn law_ornaments_take_their_ground(
    g: Grid,
    what: Ornament,
    requests: Seq<Vec<(u32, u32)>>,
    n: nat,
    x: int,
    y: int,
)
    requires
        g.wf(),
        g.inside(x, y),
        n <= requests.len(),
        forall|i: int, j: int|
            0 <= i < requests.len() && 0 <= j < requests[i].len() ==> inner(
                g,
                #[trigger] requests[i]@[j],
            ),
    ensures
        ({
            let after = adorned(g, what, requests, n);
            &&& after.width == g.width
            &&& after.height == g.height
            &&& after.wf()
            &&& after.at(x, y) == g.at(x, y) || (g.at(x, y).id == what.ground() && after.at(x, y)
                == what.over(g.at(x, y)))
        }),
    decreases n,
{
    if n > 0 {
        law_ornaments_take_their_ground(g, what, requests, (n - 1) as nat, x, y);
        let m = adorned(g, what, requests, (n - 1) as nat);
        assert forall|j: int| 0 <= j < requests[n - 1].len() implies inner(
            m,
            #[trigger] requests[n - 1]@[j],
        ) by {
            assert(inner(g, requests[n - 1]@[j]));
        }
        lemma_adorn_once(m, what, requests[n - 1]@, 0, x, y);
    }
}

/// Candidates `(x, floor)` within the world for something `w` cells wide.
pub open spec fn scan_ok(g: Grid, scan: Seq<(u32, u32)>, w: int) -> bool {
    forall|i: int|
        0 <= i < scan.len() ==> (#[trigger] scan[i]).0 + w <= g.width && scan[i].1 < g.height
}

pub open spec fn scans_ok(g: Grid, scans: Seq<Vec<(u32, u32)>>, w: int) -> bool {
    forall|i: int| 0 <= i < scans.len() ==> scan_ok(g, (#[trigger] scans[i])@, w)
}

/// The spot that a request takes: of each scan the first candidate that
/// fits, of these the first that keeps its distance from what is placed.
pub open spec fn chosen_spot(
    g: Grid,
    scans: Seq<Vec<(u32, u32)>>,
    placed: Seq<(u32, u32)>,
    spacing: int,
    size: (u32, u32),
    from: int,
) -> Option<(u32, u32)>
    decreases scans.len() - from,
{
    if from < 0 || from >= scans.len() {
        None
    } else {
        match scan_hit(g, scans[from]@, size.0, size.1, 0) {
            Some(s) if spaced(placed, s, spacing) => Some(s),
            _ => chosen_spot(g, scans, placed, spacing, size, from + 1),
        }
    }
}

pub proof fn lemma_scan_hit_vacant(g: Grid, scan: Seq<(u32, u32)>, w: u32, h: u32, from: int)
    requires
        scan_ok(g, scan, w as int),
        scan_hit(g, scan, w, h, from) is Some,
    ensures
        ({
            let s = scan_hit(g, scan, w, h, from)->Some_0;
            &&& fits_floor(g, s.0 as int, s.1 + h, w as int, h as int)
            &&& box_vacant(g, s.0 as int, s.1 as int, w as int, h as int)
        }),
    decreases scan.len() - from,
{
    if from < 0 || from >= scan.len() {
    } else {
        let (x, floor) = scan[from];
        if fits_floor(g, x as int, floor as int, w as int, h as int) {
            assert forall|a: int, b: int| #[trigger]
                in_box(x as int, floor - h, w as int, h as int, a, b) implies g.vacant(a, b) by {
                assert(clear_box(g, x as int, floor - h, w as int, h as int, false));
            }
        } else {
            lemma_scan_hit_vacant(g, scan, w, h, from + 1);
        }
    }
}

proof fn lemma_chosen_spot(
    g: Grid,
    scans: Seq<Vec<(u32, u32)>>,
    placed: Seq<(u32, u32)>,
    spacing: int,
    size: (u32, u32),
    from: int,
)
    requires
        chosen_spot(g, scans, placed, spacing, size, from) is Some,
    ensures
        spaced(placed, chosen_spot(g, scans, placed, spacing, size, from)->Some_0, spacing),
    decreases scans.len() - from,
{
    if from < 0 || from >= scans.len() {
    } else {
        match scan_hit(g, scans[from]@, size.0, size.1, 0) {
            Some(s) if spaced(placed, s, spacing) => {},
            _ => {
                lemma_chosen_spot(g, scans, placed, spacing, size, from + 1);
            },
        }
    }
}

/// Chooses the spot for a request and puts the object there.
fn stand(
    world: &mut World,
    id: TileId,
    size: (u32, u32),
    scans: &Vec<Vec<(u32, u32)>>,
    placed: &Vec<(u32, u32)>,
    spacing: u32,
) -> (spot: Option<(u32, u32)>)
    requires
        old(world).wf(),
        1 <= size.0 <= 256,
        1 <= size.1 <= 256,
        scans_ok(old(world)@, scans@, size.0 as int),
    ensures
        final(world).wf(),
        final(world).width == old(world).width,
        final(world).height == old(world).height,
        final(world).spawn == old(world).spawn,
        spot == chosen_spot(old(world)@, scans@, placed@, spacing as int, size, 0),
        match spot {
            Some(s) => with_object(
                old(world)@,
                final(world)@,
                id,
                s.0 as int,
                s.1 as int,
                size.0 as int,
                size.1 as int,
            ),
            None => final(world)@ == old(world)@,
        },
{
    let mut i: usize = 0;
    while i < scans.len()
        invariant
            world.wf(),
            world@ == old(world)@,
            world.width == old(world).width,
            world.height == old(world).height,
            world.spawn == old(world).spawn,
            1 <= size.0 <= 256,
            1 <= size.1 <= 256,
            i <= scans.len(),
            scans_ok(world@, scans@, size.0 as int),
            chosen_spot(world@, scans@, placed@, spacing as int, size, 0) == chosen_spot(
                world@,
                scans@,
                placed@,
                spacing as int,
                size,
                i as int,
            ),
        decreases scans.len() - i,
    {
        assert(scan_ok(world@, scans@[i as int]@, size.0 as int));
        match find_floor_spot(world, &scans[i], size.0, size.1) {
            Some(s) => {
                proof {
                    lemma_scan_hit_vacant(world@, scans@[i as int]@, size.0, size.1, 0);
                }
                if far_enough(placed, s, spacing) {
                    world.place_multitile(s.0, s.1, id, size.0, size.1);
                    return Some(s);
                }
            },
            None => {},
        }
        i = i + 1;
    }
    None
}

/// The spots taken by the first `n` requests.
pub open spec fn taken(spots: Seq<Option<(u32, u32)>>, n: int) -> Seq<(u32, u32)>
    decreases n,
{
    if n <= 0 {
        Seq::empty()
    } else {
        match spots[n - 1] {
            Some(s) => taken(spots, n - 1).push(s),
            None => taken(spots, n - 1),
        }
    }
}

proof fn lemma_taken_push(spots: Seq<Option<(u32, u32)>>, more: Option<(u32, u32)>, n: int)
    requires
        n <= spots.len(),
    ensures
        taken(spots.push(more), n) == taken(spots, n),
    decreases n,
{
    if n > 0 {
        lemma_taken_push(spots, more, n - 1);
    }
}

/// A pass over the requests: `trail` holds the grid before each and after
/// the last, `spots` where each request put its object.
pub open spec fn stands(
    trail: Seq<Grid>,
    spots: Seq<Option<(u32, u32)>>,
    requests: Seq<Vec<Vec<(u32, u32)>>>,
    id: TileId,
    size: (u32, u32),
    spacing: int,
) -> bool {
    &&& trail.len() == spots.len() + 1
    &&& forall|i: int| 0 <= i < trail.len() ==> (#[trigger] trail[i]).wf()
    &&& forall|i: int|
        0 <= i < spots.len() ==> {
            &&& #[trigger] spots[i] == chosen_spot(
                trail[i],
                requests[i]@,
                taken(spots, i),
                spacing,
                size,
                0,
            )
            &&& put_down(trail[i], trail[i + 1], id, size, spots[i])
        }
}

/// `after` is `before` with the object at its spot, if it has one.
pub open spec fn put_down(
    before: Grid,
    after: Grid,
    id: TileId,
    size: (u32, u32),
    spot: Option<(u32, u32)>,
) -> bool {
    match spot {
        Some(s) => with_object(
            before,
            after,
            id,
            s.0 as int,
            s.1 as int,
            size.0 as int,
            size.1 as int,
        ),
        None => after == before,
    }
}

/// The objects of one pass, given the grids before and after it.
pub open spec fn stood(
    before: Grid,
    after: Grid,
    spots: Seq<Option<(u32, u32)>>,
    requests: Seq<Vec<Vec<(u32, u32)>>>,
    id: TileId,
    size: (u32, u32),
    spacing: int,
) -> bool {
    exists|trail: Seq<Grid>|
        {
            &&& #[trigger] stands(trail, spots, requests, id, size, spacing)
            &&& trail[0] == before
            &&& trail[spots.len() as int] == after
        }
}

/// Every request's candidates lie within the world.
pub open spec fn requests_ok(g: Grid, requests: Seq<Vec<Vec<(u32, u32)>>>, w: int) -> bool {
    forall|i: int| 0 <= i < requests.len() ==> scans_ok(g, (#[trigger] requests[i])@, w)
}

proof fn lemma_scans_ok_shape(g: Grid, h: Grid, scans: Seq<Vec<(u32, u32)>>, w: int)
    requires
        scans_ok(g, scans, w),
        h.width == g.width,
        h.height == g.height,
    ensures
        scans_ok(h, scans, w),
{
    assert forall|i: int| 0 <= i < scans.len() implies scan_ok(h, (#[trigger] scans[i])@, w) by {
        assert(scan_ok(g, scans[i]@, w));
    }
}

/// Puts one object for each request; gives back where each stands.
fn stand_all(
    world: &mut World,
    id: TileId,
    size: (u32, u32),
    requests: &Vec<Vec<Vec<(u32, u32)>>>,
    spacing: u32,
) -> (spots: Vec<Option<(u32, u32)>>)
    requires
        old(world).wf(),
        1 <= size.0 <= 256,
        1 <= size.1 <= 256,
        requests_ok(old(world)@, requests@, size.0 as int),
    ensures
        final(world).wf(),
        final(world).width == old(world).width,
        final(world).height == old(world).height,
        final(world).spawn == old(world).spawn,
        spots.len() == requests.len(),
        stood(
            old(world)@,
            final(world)@,
            spots@,
            requests@,
            id,
            size,
            spacing as int,
        ),
{
    let mut spots: Vec<Option<(u32, u32)>> = Vec::new();
    let mut placed: Vec<(u32, u32)> = Vec::new();
    let ghost mut trail: Seq<Grid> = seq![world@];
    let mut i: usize = 0;
    while i < requests.len()
        invariant
            world.wf(),
            world.width == old(world).width,
            world.height == old(world).height,
            world.spawn == old(world).spawn,
            1 <= size.0 <= 256,
            1 <= size.1 <= 256,
            requests_ok(old(world)@, requests@, size.0 as int),
            i <= requests.len(),
            spots.len() == i,
            placed@ == taken(spots@, i as int),
            stands(trail, spots@, requests@, id, size, spacing as int),
            trail[0] == old(world)@,
            trail[i as int] == world@,
        decreases requests.len() - i,
    {
        proof {
            assert(scans_ok(old(world)@, requests@[i as int]@, size.0 as int));
            lemma_scans_ok_shape(
                old(world)@,
                world@,
                requests@[i as int]@,
                size.0 as int,
            );
        }
        let spot = stand(world, id, size, &requests[i], &placed, spacing);
        let ghost before = spots@;
        let ghost trail_before = trail;
        if let Some(s) = spot {
            placed.push(s);
        }
        spots.push(spot);
        proof {
            trail = trail.push(world@);
            lemma_taken_push(before, spot, i as int);
            assert forall|k: int| 0 <= k < spots@.len() implies {
                &&& #[trigger] spots@[k] == chosen_spot(
                    trail[k],
                    requests@[k]@,
                    taken(spots@, k),
                    spacing as int,
                    size,
                    0,
                )
                &&& put_down(trail[k], trail[k + 1], id, size, spots@[k])
            } by {
                lemma_taken_push(before, spot, k);
                if k < i {
                    assert(before[k] == spots@[k]);
                    assert(trail[k] == trail_before[k]);
                    assert(trail[k + 1] == trail_before[k + 1]);
                }
            }
        }
        i = i + 1;
    }
    spots
}

/// A ritual altar is three cells wide and two high.
pub open spec fn altar_size() -> (u32, u32) {
    (3, 2)
}

/// A chest is two cells wide and two high.
pub open spec fn chest_size() -> (u32, u32) {
    (2, 2)
}

/// Puts the ritual altars on cavern floors, one for each request that finds
/// a floor.
pub fn ritual_altars(world: &mut World, requests: &Vec<Vec<Vec<(u32, u32)>>>) -> (spots: Vec<
    Option<(u32, u32)>,
>)
    requires
        old(world).wf(),
        requests_ok(old(world)@, requests@, 3),
    ensures
        final(world).wf(),
        final(world).width == old(world).width,
        final(world).height == old(world).height,
        final(world).spawn == old(world).spawn,
        spots.len() == requests.len(),
        stood(
            old(world)@,
            final(world)@,
            spots@,
            requests@,
            TileId::RitualAltar,
            altar_size(),
            0,
        ),
{
    stand_all(world, TileId::RitualAltar, (3, 2), requests, 0)
}

/// The chests with those of the first `n` spots stocked.
pub open spec fn stocked(
    chests: Map<(u32, u32), Seq<Option<InvSlot>>>,
    spots: Seq<Option<(u32, u32)>>,
    loots: Seq<Vec<Option<InvSlot>>>,
    n: int,
) -> Map<(u32, u32), Seq<Option<InvSlot>>>
    decreases n,
{
    if n <= 0 {
        chests
    } else {
        match spots[n - 1] {
            Some(s) => stocked(chests, spots, loots, n - 1).insert(s, loots[n - 1]@),
            None => stocked(chests, spots, loots, n - 1),
        }
    }
}

/// Puts the loot drawn for each request into the chest that it placed.
fn stock(
    chests: &mut ChestStore,
    spots: &Vec<Option<(u32, u32)>>,
    loots: Vec<Vec<Option<InvSlot>>>,
)
    requires
        old(chests).wf(),
        loots.len() == spots.len(),
    ensures
        final(chests).wf(),
        final(chests)@ == stocked(old(chests)@, spots@, loots@, spots@.len() as int),
{
    let ghost all = loots@;
    let mut i: usize = 0;
    for loot in it: loots
        invariant
            chests.wf(),
            it.seq() == all,
            all.len() == spots.len(),
            i == it.index(),
            chests@ == stocked(old(chests)@, spots@, all, i as int),
    {
        if let Some(s) = spots[i] {
            chests.insert(s, loot);
        }
        i = i + 1;
    }
}

/// Puts the underground chests on cave floors, apart from each other, and
/// fills each with the loot drawn for it.
pub fn underground_chests(
    world: &mut World,
    chests: &mut ChestStore,
    params: &GenParams,
    requests: &Vec<Vec<Vec<(u32, u32)>>>,
    loots: Vec<Vec<Option<InvSlot>>>,
) -> (spots: Vec<Option<(u32, u32)>>)
    requires
        old(world).wf(),
        old(chests).wf(),
        requests_ok(old(world)@, requests@, 2),
        loots.len() == requests.len(),
    ensures
        final(world).wf(),
        final(world).width == old(world).width,
        final(world).height == old(world).height,
        final(world).spawn == old(world).spawn,
        final(chests).wf(),
        spots.len() == requests.len(),
        stood(
            old(world)@,
            final(world)@,
            spots@,
            requests@,
            TileId::Chest,
            chest_size(),
            params.chest_spacing as int,
        ),
        final(chests)@ == stocked(old(chests)@, spots@, loots@, spots@.len() as int),
{
    let spots = stand_all(world, TileId::Chest, (2, 2), requests, params.chest_spacing);
    stock(chests, &spots, loots);
    spots
}

proof fn lemma_taken_holds(spots: Seq<Option<(u32, u32)>>, n: int, i: int)
    requires
        0 <= i < n <= spots.len(),
        spots[i] is Some,
    ensures
        taken(spots, n).contains(spots[i]->Some_0),
    decreases n,
{
    let rest = taken(spots, n - 1);
    if i == n - 1 {
        assert(taken(spots, n).last() == spots[i]->Some_0);
    } else {
        lemma_taken_holds(spots, n - 1, i);
        let k = choose|k: int| 0 <= k < rest.len() && rest[k] == spots[i]->Some_0;
        assert(taken(spots, n)[k] == rest[k]);
    }
}

/// Objects placed in one pass keep their distance from each other.
pub proof fn law_chests_keep_apart(
    before: Grid,
    after: Grid,
    spots: Seq<Option<(u32, u32)>>,
    requests: Seq<Vec<Vec<(u32, u32)>>>,
    id: TileId,
    size: (u32, u32),
    spacing: int,
    i: int,
    j: int,
)
    requires
        stood(before, after, spots, requests, id, size, spacing),
        0 <= i < j < spots.len(),
        spots[i] is Some,
        spots[j] is Some,
    ensures
        distance_sq(spots[i]->Some_0, spots[j]->Some_0) >= spacing * spacing,
{
    let trail = choose|trail: Seq<Grid>|
        {
            &&& #[trigger] stands(trail, spots, requests, id, size, spacing)
            &&& trail[0] == before
            &&& trail[spots.len() as int] == after
        };
    assert(spots[j] == chosen_spot(trail[j], requests[j]@, taken(spots, j), spacing, size, 0));
    lemma_chosen_spot(trail[j], requests[j]@, taken(spots, j), spacing, size, 0);
    lemma_taken_holds(spots, j, i);
    let k = choose|k: int|
        0 <= k < taken(spots, j).len() && taken(spots, j)[k] == spots[i]->Some_0;
    assert(spaced(taken(spots, j), spots[j]->Some_0, spacing));
    assert(taken(spots, j)[k] == spots[i]->Some_0);
}

/// The spot of a surface chest: in the first column from index `from` on that
/// has a floor for it, on the first such floor below the surface.
pub open spec fn column_spot(
    g: Grid,
    surface: Seq<u32>,
    limit: int,
    columns: Seq<u32>,
    from: int,
) -> Option<(u32, u32)>
    decreases columns.len() - from,
{
    if from < 0 || from >= columns.len() {
        None
    } else {
        let x = columns[from];
        match first_chest_floor(g, x as int, surface[x as int] as int, limit) {
            Some(f) => Some((x, (f - 2) as u32)),
            None => column_spot(g, surface, limit, columns, from + 1),
        }
    }
}

pub proof fn lemma_first_chest_floor(g: Grid, x: int, top: int, limit: int)
    requires
        0 <= x,
        x + 2 <= g.width,
        limit <= g.height,
        first_chest_floor(g, x, top, limit) is Some,
    ensures
        ({
            let f = first_chest_floor(g, x, top, limit)->Some_0;
            2 <= f < limit && box_vacant(g, x, f - 2, 2, 2)
        }),
    decreases limit - top,
{
    if top < limit {
        if chest_floor(g, x, top) {
            assert forall|a: int, b: int| #[trigger] in_box(x, top - 2, 2, 2, a, b) implies g.vacant(
                a,
                b,
            ) by {
                assert(clear_box(g, x, top - 2, 2, 2, false));
            }
        } else {
            lemma_first_chest_floor(g, x, top + 1, limit);
        }
    }
}

/// Columns in which a chest has room beside.
pub open spec fn columns_ok(g: Grid, columns: Seq<u32>) -> bool {
    forall|i: int| 0 <= i < columns.len() ==> (#[trigger] columns[i]) + 2 <= g.width
}

/// Puts one chest near the surface.
fn stand_on_surface(
    world: &mut World,
    surface: &Vec<u32>,
    limit: u32,
    columns: &Vec<u32>,
) -> (spot: Option<(u32, u32)>)
    requires
        old(world).wf(),
        surface.len() == old(world).width,
        limit <= old(world).height,
        columns_ok(old(world)@, columns@),
    ensures
        final(world).wf(),
        final(world).width == old(world).width,
        final(world).height == old(world).height,
        final(world).spawn == old(world).spawn,
        spot == column_spot(old(world)@, surface@, limit as int, columns@, 0),
        put_down(old(world)@, final(world)@, TileId::Chest, chest_size(), spot),
{
    let mut i: usize = 0;
    while i < columns.len()
        invariant
            world.wf(),
            world@ == old(world)@,
            world.width == old(world).width,
            world.height == old(world).height,
            world.spawn == old(world).spawn,
            surface.len() == world.width,
            limit <= world.height,
            columns_ok(world@, columns@),
            i <= columns.len(),
            column_spot(world@, surface@, limit as int, columns@, 0) == column_spot(
                world@,
                surface@,
                limit as int,
                columns@,
                i as int,
            ),
        decreases columns.len() - i,
    {
        let x = columns[i];
        assert(columns@[i as int] + 2 <= world@.width);
        match surface_chest_floor(world, x, surface[x as usize], limit) {
            Some(f) => {
                proof {
                    lemma_first_chest_floor(
                        world@,
                        x as int,
                        surface@[x as int] as int,
                        limit as int,
                    );
                }
                world.place_multitile(x, f - 2, TileId::Chest, 2, 2);
                return Some((x, f - 2));
            },
            None => {},
        }
        i = i + 1;
    }
    None
}

/// The pass of the surface chests, as `stands` is of objects on cave floors.
pub open spec fn surface_stands(
    trail: Seq<Grid>,
    spots: Seq<Option<(u32, u32)>>,
    requests: Seq<Vec<u32>>,
    surface: Seq<u32>,
    limit: int,
) -> bool {
    &&& trail.len() == spots.len() + 1
    &&& forall|i: int| 0 <= i < trail.len() ==> (#[trigger] trail[i]).wf()
    &&& forall|i: int|
        0 <= i < spots.len() ==> {
            &&& #[trigger] spots[i] == column_spot(trail[i], surface, limit, requests[i]@, 0)
            &&& put_down(trail[i], trail[i + 1], TileId::Chest, chest_size(), spots[i])
        }
}

/// The surface chests of one pass, given the grids before and after it.
pub open spec fn surface_stood(
    before: Grid,
    after: Grid,
    spots: Seq<Option<(u32, u32)>>,
    requests: Seq<Vec<u32>>,
    surface: Seq<u32>,
    limit: int,
) -> bool {
    exists|trail: Seq<Grid>|
        {
            &&& #[trigger] surface_stands(trail, spots, requests, surface, limit)
            &&& trail[0] == before
            &&& trail[spots.len() as int] == after
        }
}

/// Puts the surface chests, on the surface or in caves right below it.
pub fn surface_chests(
    world: &mut World,
    chests: &mut ChestStore,
    params: &GenParams,
    surface: &Vec<u32>,
    requests: &Vec<Vec<u32>>,
    loots: Vec<Vec<Option<InvSlot>>>,
) -> (spots: Vec<Option<(u32, u32)>>)
    requires
        old(world).wf(),
        old(chests).wf(),
        surface.len() == old(world).width,
        params.underground_chest_rows.0 <= old(world).height,
        forall|i: int|
            0 <= i < requests.len() ==> columns_ok(old(world)@, (#[trigger] requests@[i])@),
        loots.len() == requests.len(),
    ensures
        final(world).wf(),
        final(world).width == old(world).width,
        final(world).height == old(world).height,
        final(world).spawn == old(world).spawn,
        final(chests).wf(),
        spots.len() == requests.len(),
        surface_stood(
            old(world)@,
            final(world)@,
            spots@,
            requests@,
            surface@,
            params.underground_chest_rows.0 as int,
        ),
        final(chests)@ == stocked(old(chests)@, spots@, loots@, spots@.len() as int),
{
    let limit: u32 = params.underground_chest_rows.0;
    let mut spots: Vec<Option<(u32, u32)>> = Vec::new();
    let ghost mut trail: Seq<Grid> = seq![world@];
    let mut i: usize = 0;
    while i < requests.len()
        invariant
            world.wf(),
            world.width == old(world).width,
            world.height == old(world).height,
            world.spawn == old(world).spawn,
            surface.len() == world.width,
            limit <= world.height,
            forall|k: int|
                0 <= k < requests.len() ==> columns_ok(old(world)@, (#[trigger] requests@[k])@),
            i <= requests.len(),
            spots.len() == i,
            surface_stands(trail, spots@, requests@, surface@, limit as int),
            trail[0] == old(world)@,
            trail[i as int] == world@,
        decreases requests.len() - i,
    {
        assert(columns_ok(world@, requests@[i as int]@)) by {
            assert(columns_ok(old(world)@, requests@[i as int]@));
        }
        let ghost before = spots@;
        let ghost trail_before = trail;
        let spot = stand_on_surface(world, surface, limit, &requests[i]);
        spots.push(spot);
        proof {
            trail = trail.push(world@);
            assert forall|k: int| 0 <= k < spots@.len() implies {
                &&& #[trigger] spots@[k] == column_spot(
                    trail[k],
                    surface@,
                    limit as int,
                    requests@[k]@,
                    0,
                )
                &&& put_down(trail[k], trail[k + 1], TileId::Chest, chest_size(), spots@[k])
            } by {
                if k < i {
                    assert(before[k] == spots@[k]);
                    assert(trail[k] == trail_before[k]);
                    assert(trail[k + 1] == trail_before[k + 1]);
                }
            }
        }
        i = i + 1;
    }
    stock(chests, &spots, loots);
    spots
}

/// The columns `[lo, hi)` in which the left edge of ruin `i` is drawn: every
/// ruin has a slice of the world of its own.
pub open spec fn spec_ruin_slice(p: GenParams, i: int) -> (int, int) {
    let slice = p.width as int / p.ruins as int;
    let most = p.width - p.ruin_size.0 - 2;
    let lo = if i * slice + 2 <= most {
        i * slice + 2
    } else {
        most
    };
    let end = (i + 1) * slice - p.ruin_size.0 - 2;
    (
        lo,
        if end > lo + 1 {
            end
        } else {
            lo + 1
        },
    )
}

/// The slice of a ruin; a ruin drawn in it lies inside of the world.
pub fn ruin_slice(params: &GenParams, i: u32) -> (range: (u32, u32))
    requires
        params.width >= params.ruin_size.0 + 4,
        i < params.ruins,
    ensures
        (range.0 as int, range.1 as int) == spec_ruin_slice(*params, i as int),
        range.0 < range.1,
        range.1 + params.ruin_size.0 < params.width,
{
    let slice: u32 = params.width / params.ruins;
    let rw: u32 = params.ruin_size.0;
    proof {
        assert(i * slice <= (i + 1) * slice <= params.ruins * slice <= params.width) by (nonlinear_arith)
            requires
                0 <= i < params.ruins,
                slice == params.width / params.ruins,
                params.ruins > 0,
        ;
    }
    let most: u32 = params.width - rw - 2;
    let start: u64 = i as u64 * slice as u64 + 2;
    let lo: u32 = if start <= most as u64 {
        start as u32
    } else {
        most
    };
    let end: u32 = ((i + 1) * slice).saturating_sub(rw + 2);
    let hi: u32 = if end > lo + 1 {
        end
    } else {
        lo + 1
    };
    (lo, hi)
}

/// The floors of the underworld under the middle of ruins that start at the
/// columns `xs`.
pub open spec fn surveyed(
    g: Grid,
    p: GenParams,
    xs: Seq<u32>,
    found: Seq<(u32, Option<u32>)>,
) -> bool {
    &&& found.len() == xs.len()
    &&& forall|i: int|
        0 <= i < xs.len() ==> {
            &&& (#[trigger] found[i]).0 == xs[i]
            &&& match found[i].1 {
                Some(f) => f < g.height && band_floor(
                    g,
                    xs[i] + p.ruin_size.0 / 2,
                    p.stone_to_ash as int,
                    f as int,
                ),
                None => band_floor(
                    g,
                    xs[i] + p.ruin_size.0 / 2,
                    p.stone_to_ash as int,
                    g.height,
                ),
            }
        }
}

/// One ruin of the pass: built on the site chosen out of what was surveyed,
/// its chest stocked where there is room for one.
pub open spec fn ruin_raised(
    before: Grid,
    after: Grid,
    p: GenParams,
    forge: (u32, u32),
    found: Seq<(u32, Option<u32>)>,
    chests: Map<(u32, u32), Seq<Option<InvSlot>>>,
    after_chests: Map<(u32, u32), Seq<Option<InvSlot>>>,
    loot: Seq<Option<InvSlot>>,
) -> bool {
    match ruin_site(p, found, found.len() as int) {
        Some((x0, base)) => exists|shell: Grid, forged: Grid|
            {
                &&& #[trigger] ruin_built(
                    before,
                    shell,
                    forged,
                    after,
                    x0 as int,
                    base as int,
                    p.ruin_size,
                    forge,
                )
                &&& after_chests == (if box_vacant(
                    forged,
                    x0 + p.ruin_size.0 - 3,
                    base - 2,
                    2,
                    2,
                ) {
                    chests.insert(
                        ((x0 + p.ruin_size.0 - 3) as u32, (base - 2) as u32),
                        loot,
                    )
                } else {
                    chests
                })
            },
        None => after == before && after_chests == chests,
    }
}

/// One ruin of the pass, from the columns drawn for it.
pub open spec fn ruin_step(
    before: Grid,
    after: Grid,
    p: GenParams,
    forge: (u32, u32),
    xs: Seq<u32>,
    chests: Map<(u32, u32), Seq<Option<InvSlot>>>,
    after_chests: Map<(u32, u32), Seq<Option<InvSlot>>>,
    loot: Seq<Option<InvSlot>>,
) -> bool {
    exists|found: Seq<(u32, Option<u32>)>|
        {
            &&& #[trigger] surveyed(before, p, xs, found)
            &&& ruin_raised(before, after, p, forge, found, chests, after_chests, loot)
        }
}

pub proof fn lemma_ruin_site(p: GenParams, found: Seq<(u32, Option<u32>)>, n: int)
    requires
        n <= found.len(),
        ruin_site(p, found, n) is Some,
    ensures
        ({
            let (x0, base) = ruin_site(p, found, n)->Some_0;
            &&& base + 2 < p.height
            &&& base >= p.stone_to_ash + p.ruin_size.1
            &&& exists|i: int| 0 <= i < n && (#[trigger] found[i]).0 == x0
        }),
    decreases n,
{
    if n > 0 {
        if ruin_site(p, found, n - 1) is Some {
            lemma_ruin_site(p, found, n - 1);
        }
        assert(found[n - 1].0 == found[n - 1].0);
    }
}

/// Builds one ruin.
fn raise_ruin(
    world: &mut World,
    chests: &mut ChestStore,
    params: &GenParams,
    forge: (u32, u32),
    xs: &Vec<u32>,
    loot: Vec<Option<InvSlot>>,
)
    requires
        old(world).wf(),
        old(chests).wf(),
        params.width == old(world).width,
        params.height == old(world).height,
        params.stone_to_ash <= params.height,
        3 <= params.ruin_size.0,
        2 <= params.ruin_size.1,
        1 <= forge.0 <= 256,
        1 <= forge.1 <= 256,
        forall|i: int|
            0 <= i < xs.len() ==> (#[trigger] xs@[i]) + params.ruin_size.0 <= params.width,
    ensures
        final(world).wf(),
        final(world).width == old(world).width,
        final(world).height == old(world).height,
        final(world).spawn == old(world).spawn,
        final(chests).wf(),
        ruin_step(
            old(world)@,
            final(world)@,
            *params,
            forge,
            xs@,
            old(chests)@,
            final(chests)@,
            loot@,
        ),
{
    let mut found: Vec<(u32, Option<u32>)> = Vec::new();
    let mut i: usize = 0;
    while i < xs.len()
        invariant
            world.wf(),
            world@ == old(world)@,
            params.width == world.width,
            params.height == world.height,
            params.stone_to_ash <= params.height,
            3 <= params.ruin_size.0,
            i <= xs.len(),
            found.len() == i,
            forall|k: int|
                0 <= k < xs.len() ==> (#[trigger] xs@[k]) + params.ruin_size.0 <= params.width,
            surveyed(world@, *params, xs@.subrange(0, i as int), found@),
        decreases xs.len() - i,
    {
        let x = xs[i];
        let ghost before = found@;
        let floor = underworld_floor(world, params.stone_to_ash, x + params.ruin_size.0 / 2);
        found.push((x, floor));
        i = i + 1;
        proof {
            let seen = xs@.subrange(0, i as int);
            assert forall|k: int| 0 <= k < seen.len() implies {
                &&& (#[trigger] found@[k]).0 == seen[k]
                &&& match found@[k].1 {
                    Some(f) => f < world@.height && band_floor(
                        world@,
                        seen[k] + params.ruin_size.0 / 2,
                        params.stone_to_ash as int,
                        f as int,
                    ),
                    None => band_floor(
                        world@,
                        seen[k] + params.ruin_size.0 / 2,
                        params.stone_to_ash as int,
                        world@.height,
                    ),
                }
            } by {
                if k < i - 1 {
                    assert(found@[k] == before[k]);
                    assert(xs@.subrange(0, i - 1)[k] == seen[k]);
                }
            }
        }
    }
    assert(xs@.subrange(0, xs@.len() as int) =~= xs@);
    let ghost all = found@;
    match choose_ruin_site(params, &found) {
        Some((x0, base)) => {
            proof {
                lemma_ruin_site(*params, all, all.len() as int);
                let k = choose|k: int| 0 <= k < all.len() && (#[trigger] all[k]).0 == x0;
                assert(xs@[k] + params.ruin_size.0 <= params.width);
            }
            build_ruin(world, chests, params.ruin_size, forge, x0, base, loot);
        },
        None => {},
    }
    assert(surveyed(old(world)@, *params, xs@, all));
}

/// The pass of the ruins: `worlds` and `stores` hold the grid and the chests
/// before each ruin and after the last.
pub open spec fn ruins_rise(
    worlds: Seq<Grid>,
    stores: Seq<Map<(u32, u32), Seq<Option<InvSlot>>>>,
    p: GenParams,
    forge: (u32, u32),
    draws: Seq<Vec<u32>>,
    loots: Seq<Vec<Option<InvSlot>>>,
    n: int,
) -> bool {
    &&& worlds.len() == n + 1
    &&& stores.len() == n + 1
    &&& forall|i: int| 0 <= i <= n ==> (#[trigger] worlds[i]).wf()
    &&& forall|i: int|
        0 <= i < n ==> ruin_step(
            #[trigger] worlds[i],
            worlds[i + 1],
            p,
            forge,
            draws[i]@,
            stores[i],
            stores[i + 1],
            loots[i]@,
        )
}

/// The ruins of the pass, given the world and the chests before and after.
pub open spec fn ruins_stand(
    before: Grid,
    after: Grid,
    chests: Map<(u32, u32), Seq<Option<InvSlot>>>,
    after_chests: Map<(u32, u32), Seq<Option<InvSlot>>>,
    p: GenParams,
    forge: (u32, u32),
    draws: Seq<Vec<u32>>,
    loots: Seq<Vec<Option<InvSlot>>>,
) -> bool {
    if p.width < p.ruin_size.0 + 4 {
        after == before && after_chests == chests
    } else {
        exists|
            worlds: Seq<Grid>,
            stores: Seq<Map<(u32, u32), Seq<Option<InvSlot>>>>,
        |
            {
                &&& #[trigger] ruins_rise(
                    worlds,
                    stores,
                    p,
                    forge,
                    draws,
                    loots,
                    draws.len() as int,
                )
                &&& worlds[0] == before
                &&& stores[0] == chests
                &&& worlds[draws.len() as int] == after
                &&& stores[draws.len() as int] == after_chests
            }
    }
}

/// Builds the ruins of the underworld, each in its slice of the world; a
/// world too narrow for one gets none. `draws` holds the columns drawn for
/// each ruin.
pub fn underworld_ruins(
    world: &mut World,
    chests: &mut ChestStore,
    params: &GenParams,
    forge: (u32, u32),
    draws: &Vec<Vec<u32>>,
    loots: Vec<Vec<Option<InvSlot>>>,
)
    requires
        old(world).wf(),
        old(chests).wf(),
        params.width == old(world).width,
        params.height == old(world).height,
        params.stone_to_ash <= params.height,
        3 <= params.ruin_size.0 <= u32::MAX - 4,
        2 <= params.ruin_size.1,
        1 <= forge.0 <= 256,
        1 <= forge.1 <= 256,
        forall|i: int, j: int|
            0 <= i < draws.len() && 0 <= j < draws@[i].len() ==> (#[trigger] draws@[i]@[j])
                + params.ruin_size.0 <= params.width,
        loots.len() == draws.len(),
    ensures
        final(world).wf(),
        final(world).width == old(world).width,
        final(world).height == old(world).height,
        final(world).spawn == old(world).spawn,
        final(chests).wf(),
        ruins_stand(
            old(world)@,
            final(world)@,
            old(chests)@,
            final(chests)@,
            *params,
            forge,
            draws@,
            loots@,
        ),
{
    if params.width < params.ruin_size.0 + 4 {
        return ;
    }
    let ghost mut worlds: Seq<Grid> = seq![world@];
    let ghost mut stores: Seq<Map<(u32, u32), Seq<Option<InvSlot>>>> = seq![chests@];
    let ghost all = loots@;
    let mut i: usize = 0;
    for loot in it: loots
        invariant
            it.seq() == all,
            i == it.index(),
            all.len() == draws.len(),
            world.wf(),
            chests.wf(),
            world.width == old(world).width,
            world.height == old(world).height,
            world.spawn == old(world).spawn,
            params.width == world.width,
            params.height == world.height,
            params.stone_to_ash <= params.height,
            3 <= params.ruin_size.0,
            2 <= params.ruin_size.1,
            1 <= forge.0 <= 256,
            1 <= forge.1 <= 256,
            forall|k: int, j: int|
                0 <= k < draws.len() && 0 <= j < draws@[k].len() ==> (#[trigger] draws@[k]@[j])
                    + params.ruin_size.0 <= params.width,
            ruins_rise(worlds, stores, *params, forge, draws@, all, i as int),
            worlds[0] == old(world)@,
            stores[0] == old(chests)@,
            worlds[i as int] == world@,
            stores[i as int] == chests@,
    {
        let ghost (w0, s0) = (worlds, stores);
        raise_ruin(world, chests, params, forge, &draws[i], loot);
        proof {
            worlds = worlds.push(world@);
            stores = stores.push(chests@);
            assert forall|k: int| 0 <= k < i + 1 implies ruin_step(
                #[trigger] worlds[k],
                worlds[k + 1],
                *params,
                forge,
                draws@[k]@,
                stores[k],
                stores[k + 1],
                all[k]@,
            ) by {
                if k < i {
                    assert(worlds[k] == w0[k] && worlds[k + 1] == w0[k + 1]);
                    assert(stores[k] == s0[k] && stores[k + 1] == s0[k + 1]);
                }
            }
        }
        i = i + 1;
    }
}

/// The seed of a cobweb cluster, with a coin for each further cell.
pub struct WebSeed {
    pub x: u32,
    pub y: u32,
    pub coins: Vec<bool>,
}

impl WebSeed {
    pub open spec fn fits(self, g: Grid) -> bool {
        &&& 1 <= self.x < g.width - 1
        &&& 1 <= self.y < g.height
        &&& self.coins.len() == 6
    }
}

/// The grid and the number of webs after the seeds from index `from` on:
/// nooks are spun until there are enough webs.
pub open spec fn web_run(
    g: Grid,
    placed: nat,
    target: nat,
    seeds: Seq<WebSeed>,
    from: int,
) -> (Grid, nat)
    decreases seeds.len() - from,
{
    if from < 0 || from >= seeds.len() || placed >= target {
        (g, placed)
    } else {
        let (x, y, coins) = (
            seeds[from].x as int,
            seeds[from].y as int,
            seeds[from].coins@,
        );
        if webbable(g, x, y) && solid_around(g, x, y) >= 4 {
            web_run(
                cluster_grid(g, x, y, coins, 7),
                placed + cluster_count(g, x, y, coins, 7),
                target,
                seeds,
                from + 1,
            )
        } else {
            web_run(g, placed, target, seeds, from + 1)
        }
    }
}

/// Which pockets are webbed as a whole: the small ones, by coin.
pub fn choose_webbed(params: &GenParams, pockets: &Pockets, coins: &Vec<bool>) -> (fill: Vec<bool>)
    requires
        coins.len() == pockets.regions.len(),
    ensures
        fill.len() == coins.len(),
        forall|i: int|
            0 <= i < fill.len() ==> #[trigger] fill@[i] == (spec_small_pocket(
                *params,
                pockets.regions@[i],
            ) && coins@[i]),
{
    let mut fill: Vec<bool> = Vec::new();
    let mut i: usize = 0;
    while i < coins.len()
        invariant
            coins.len() == pockets.regions.len(),
            i <= coins.len(),
            fill.len() == i,
            forall|k: int|
                0 <= k < i ==> #[trigger] fill@[k] == (spec_small_pocket(
                    *params,
                    pockets.regions@[k],
                ) && coins@[k]),
        decreases coins.len() - i,
    {
        fill.push(small_pocket(params, &pockets.regions[i]) && coins[i]);
        i = i + 1;
    }
    fill
}

/// Tops up the cobwebs with clusters in nooks; gives back how many webs there
/// are.
pub fn top_up_webs(world: &mut World, placed: u32, target: u32, seeds: &Vec<WebSeed>) -> (n: u64)
    requires
        old(world).wf(),
        forall|i: int| 0 <= i < seeds.len() ==> (#[trigger] seeds@[i]).fits(old(world)@),
    ensures
        final(world).wf(),
        final(world).width == old(world).width,
        final(world).height == old(world).height,
        final(world).spawn == old(world).spawn,
        (final(world)@, n as nat) == web_run(
            old(world)@,
            placed as nat,
            target as nat,
            seeds@,
            0,
        ),
{
    let ghost all = web_run(world@, placed as nat, target as nat, seeds@, 0);
    let mut n: u64 = placed as u64;
    let mut i: usize = 0;
    while i < seeds.len() && n < target as u64
        invariant
            world.wf(),
            world.width == old(world).width,
            world.height == old(world).height,
            world.spawn == old(world).spawn,
            i <= seeds.len(),
            n <= u32::MAX + 7,
            forall|k: int| 0 <= k < seeds.len() ==> (#[trigger] seeds@[k]).fits(old(world)@),
            all == web_run(world@, n as nat, target as nat, seeds@, i as int),
        decreases seeds.len() - i,
    {
        let seed = &seeds[i];
        assert(seeds@[i as int].fits(old(world)@));
        let (x, y): (u32, u32) = (seed.x, seed.y);
        if is_nook(world, x, y) {
            let more = spin_cluster(world, x, y, &seed.coins);
            n = n + more as u64;
        }
        i = i + 1;
    }
    n
}

/// The cobwebs of a world: its small pockets as the coins say, then clusters
/// in nooks until the target is met or the seeds are used up.
pub fn cobwebs(
    world: &mut World,
    params: &GenParams,
    pockets: &Pockets,
    coins: &Vec<bool>,
    seeds: &Vec<WebSeed>,
) -> (n: u64)
    requires
        old(world).wf(),
        pockets.label.len() == old(world)@.cells.len(),
        coins.len() == pockets.regions.len(),
        forall|i: int|
            0 <= i < pockets.label.len() ==> #[trigger] pockets.label@[i] <= coins.len(),
        forall|i: int| 0 <= i < seeds.len() ==> (#[trigger] seeds@[i]).fits(old(world)@),
    ensures
        final(world).wf(),
        final(world).width == old(world).width,
        final(world).height == old(world).height,
        final(world).spawn == old(world).spawn,
        webs_spun(old(world)@, final(world)@, n as nat, *params, *pockets, coins@, seeds@),
        only_brings(old(world)@, final(world)@, built()),
{
    let fill = choose_webbed(params, pockets, coins);
    let placed = web_pockets(world, params, &pockets.label, &fill);
    let ghost m = world@;
    assert forall|i: int| 0 <= i < seeds.len() implies (#[trigger] seeds@[i]).fits(world@) by {
        assert(seeds@[i].fits(old(world)@));
    }
    let n = top_up_webs(world, placed, params.cobweb_target, seeds);
    proof {
        assert(pockets_webbed(old(world)@, m, *params, pockets.label@, fill@));
        assert(fill@ =~= webbed_regions(*params, *pockets, coins@));
        lemma_pockets_webbed_kept(old(world)@, m, *params, pockets.label@, fill@);
        lemma_web_run_kept(m, placed as nat, params.cobweb_target as nat, seeds@, 0);
        lemma_only_brings_twice(old(world)@, m, world@, built());
    }
    n
}

/// The pockets webbed as a whole.
pub open spec fn webbed_regions(p: GenParams, pockets: Pockets, coins: Seq<bool>) -> Seq<bool> {
    Seq::new(coins.len(), |i: int| spec_small_pocket(p, pockets.regions@[i]) && coins[i])
}

/// `after` is `before` with the cells of the marked pockets webbed.
pub open spec fn pockets_webbed(
    before: Grid,
    after: Grid,
    p: GenParams,
    label: Seq<u32>,
    fill: Seq<bool>,
) -> bool {
    &&& after.width == before.width
    &&& after.height == before.height
    &&& forall|x: int, y: int|
        before.inside(x, y) ==> #[trigger] after.at(x, y) == (if in_webbed_pocket(
            p,
            before,
            label,
            fill,
            x,
            y,
        ) {
            webbed(before.at(x, y))
        } else {
            before.at(x, y)
        })
}

/// The cobweb pass.
pub open spec fn webs_spun(
    before: Grid,
    after: Grid,
    n: nat,
    p: GenParams,
    pockets: Pockets,
    coins: Seq<bool>,
    seeds: Seq<WebSeed>,
) -> bool {
    let fill = webbed_regions(p, pockets, coins);
    exists|m: Grid|
        {
            &&& #[trigger] pockets_webbed(before, m, p, pockets.label@, fill)
            &&& m.wf()
            &&& (after, n) == web_run(
                m,
                webs_before(p, before, pockets.label@, fill, before.cells.len()) as nat,
                p.cobweb_target as nat,
                seeds,
                0,
            )
        }
}

proof fn lemma_cluster_count(g: Grid, x: int, y: int, coins: Seq<bool>, n: nat)
    ensures
        cluster_count(g, x, y, coins, n) <= n,
    decreases n,
{
    if n > 0 {
        lemma_cluster_count(g, x, y, coins, (n - 1) as nat);
    }
}

/// Topping up stops at the target: the last cluster may go over it by less
/// than its own size.
pub proof fn law_webs_stop_at_target(
    g: Grid,
    placed: nat,
    target: nat,
    seeds: Seq<WebSeed>,
    from: int,
)
    ensures
        web_run(g, placed, target, seeds, from).1 >= placed,
        web_run(g, placed, target, seeds, from).1 < target + 7 || web_run(
            g,
            placed,
            target,
            seeds,
            from,
        ).1 == placed,
    decreases seeds.len() - from,
{
    if from < 0 || from >= seeds.len() || placed >= target {
    } else {
        let (x, y, coins) = (
            seeds[from].x as int,
            seeds[from].y as int,
            seeds[from].coins@,
        );
        if webbable(g, x, y) && solid_around(g, x, y) >= 4 {
            lemma_cluster_count(g, x, y, coins, 7);
            law_webs_stop_at_target(
                cluster_grid(g, x, y, coins, 7),
                placed + cluster_count(g, x, y, coins, 7),
                target,
                seeds,
                from + 1,
            );
        } else {
            law_webs_stop_at_target(g, placed, target, seeds, from + 1);
        }
    }
}

/// Everything drawn for the structures of a world.
pub struct StructureDraws {
    /// The size of an infernal forge.
    pub forge: (u32, u32),
    /// The left columns tried for each ruin, and the loot of its chest.
    pub ruins: Vec<Vec<u32>>,
    pub ruin_loots: Vec<Vec<Option<InvSlot>>>,
    /// The scans for each underground chest, and its loot.
    pub underground: Vec<Vec<Vec<(u32, u32)>>>,
    pub underground_loots: Vec<Vec<Option<InvSlot>>>,
    /// The columns tried for each surface chest, and its loot.
    pub surface: Vec<Vec<u32>>,
    pub surface_loots: Vec<Vec<Option<InvSlot>>>,
    pub altars: Vec<Vec<Vec<(u32, u32)>>>,
    pub crystals: Vec<Vec<(u32, u32)>>,
    pub pots: Vec<Vec<(u32, u32)>>,
    /// A coin for each pocket, and the seeds of clusters.
    pub web_coins: Vec<bool>,
    pub web_seeds: Vec<WebSeed>,
}

impl StructureDraws {
    /// Everything drawn lies within the world.
    pub open spec fn fit(self, g: Grid, p: GenParams, pockets: Pockets) -> bool {
        &&& 1 <= self.forge.0 <= 256
        &&& 1 <= self.forge.1 <= 256
        &&& self.ruin_loots.len() == self.ruins.len()
        &&& forall|i: int, j: int|
            0 <= i < self.ruins.len() && 0 <= j < self.ruins@[i].len() ==> (
            #[trigger] self.ruins@[i]@[j]) + p.ruin_size.0 <= p.width
        &&& requests_ok(g, self.underground@, 2)
        &&& self.underground_loots.len() == self.underground.len()
        &&& forall|i: int|
            0 <= i < self.surface.len() ==> columns_ok(g, (#[trigger] self.surface@[i])@)
        &&& self.surface_loots.len() == self.surface.len()
        &&& requests_ok(g, self.altars@, 3)
        &&& forall|i: int, j: int|
            0 <= i < self.crystals.len() && 0 <= j < self.crystals@[i].len() ==> inner(
                g,
                #[trigger] self.crystals@[i]@[j],
            )
        &&& forall|i: int, j: int|
            0 <= i < self.pots.len() && 0 <= j < self.pots@[i].len() ==> inner(
                g,
                #[trigger] self.pots@[i]@[j],
            )
        &&& self.web_coins.len() == pockets.regions.len()
        &&& forall|i: int| 0 <= i < self.web_seeds.len() ==> (#[trigger] self.web_seeds@[i]).fits(g)
    }
}

proof fn lemma_requests_ok_shape(g: Grid, h: Grid, requests: Seq<Vec<Vec<(u32, u32)>>>, w: int)
    requires
        requests_ok(g, requests, w),
        h.width == g.width,
        h.height == g.height,
    ensures
        requests_ok(h, requests, w),
{
    assert forall|i: int| 0 <= i < requests.len() implies scans_ok(
        h,
        (#[trigger] requests[i])@,
        w,
    ) by {
        lemma_scans_ok_shape(g, h, requests[i]@, w);
    }
}

/// The worlds and the chests between the passes, and the spots that the
/// objects took.
#[verifier::ext_equal]
pub struct Passes {
    pub worlds: Seq<Grid>,
    pub ruin_chests: Map<(u32, u32), Seq<Option<InvSlot>>>,
    pub underground_chests: Map<(u32, u32), Seq<Option<InvSlot>>>,
    pub underground_spots: Seq<Option<(u32, u32)>>,
    pub surface_spots: Seq<Option<(u32, u32)>>,
    pub altar_spots: Seq<Option<(u32, u32)>>,
    pub webs: nat,
}

/// The passes in their order, from the world before the first to the world
/// after the last.
pub open spec fn passes_run(
    s: Passes,
    p: GenParams,
    pockets: Pockets,
    d: StructureDraws,
    surface: Seq<u32>,
    chests: Map<(u32, u32), Seq<Option<InvSlot>>>,
    after_chests: Map<(u32, u32), Seq<Option<InvSlot>>>,
) -> bool {
    let limit = p.underground_chest_rows.0 as int;
    &&& s.worlds.len() == 8
    &&& forall|i: int| 0 <= i < 8 ==> (#[trigger] s.worlds[i]).wf()
    &&& ruins_stand(
        s.worlds[0],
        s.worlds[1],
        chests,
        s.ruin_chests,
        p,
        d.forge,
        d.ruins@,
        d.ruin_loots@,
    )
    &&& s.underground_spots.len() == d.underground@.len()
    &&& stood(
        s.worlds[1],
        s.worlds[2],
        s.underground_spots,
        d.underground@,
        TileId::Chest,
        chest_size(),
        p.chest_spacing as int,
    )
    &&& s.underground_chests == stocked(
        s.ruin_chests,
        s.underground_spots,
        d.underground_loots@,
        s.underground_spots.len() as int,
    )
    &&& s.surface_spots.len() == d.surface@.len()
    &&& surface_stood(s.worlds[2], s.worlds[3], s.surface_spots, d.surface@, surface, limit)
    &&& after_chests == stocked(
        s.underground_chests,
        s.surface_spots,
        d.surface_loots@,
        s.surface_spots.len() as int,
    )
    &&& s.altar_spots.len() == d.altars@.len()
    &&& stood(
        s.worlds[3],
        s.worlds[4],
        s.altar_spots,
        d.altars@,
        TileId::RitualAltar,
        altar_size(),
        0,
    )
    &&& s.worlds[5] == adorned(
        s.worlds[4],
        Ornament::LifeCrystal,
        d.crystals@,
        d.crystals@.len(),
    )
    &&& s.worlds[6] == adorned(s.worlds[5], Ornament::Pot, d.pots@, d.pots@.len())
    &&& webs_spun(
        s.worlds[6],
        s.worlds[7],
        s.webs,
        p,
        pockets,
        d.web_coins@,
        d.web_seeds@,
    )
}

/// The structures bring only what they are made of.
proof fn lemma_passes_kept(
    s: Passes,
    p: GenParams,
    pockets: Pockets,
    d: StructureDraws,
    surface: Seq<u32>,
    chests: Map<(u32, u32), Seq<Option<InvSlot>>>,
    after_chests: Map<(u32, u32), Seq<Option<InvSlot>>>,
)
    requires
        passes_run(s, p, pockets, d, surface, chests, after_chests),
        only_brings(s.worlds[4], s.worlds[5], built()),
        only_brings(s.worlds[5], s.worlds[6], built()),
        only_brings(s.worlds[6], s.worlds[7], built()),
    ensures
        only_brings(s.worlds[0], s.worlds[7], built()),
{
    let w = s.worlds;
    let limit = p.underground_chest_rows.0 as int;
    lemma_ruins_kept(w[0], w[1], chests, s.ruin_chests, p, d.forge, d.ruins@, d.ruin_loots@);
    lemma_stood_kept(
        w[1],
        w[2],
        s.underground_spots,
        d.underground@,
        TileId::Chest,
        chest_size(),
        p.chest_spacing as int,
    );
    lemma_surface_stood_kept(w[2], w[3], s.surface_spots, d.surface@, surface, limit);
    lemma_stood_kept(
        w[3],
        w[4],
        s.altar_spots,
        d.altars@,
        TileId::RitualAltar,
        altar_size(),
        0,
    );
    assert forall|i: int| 0 <= i < 7 implies only_brings(#[trigger] w[i], w[i + 1], built()) by {
        assert(i == 0 || i == 1 || i == 2 || i == 3 || i == 4 || i == 5 || i == 6);
    }
    lemma_only_brings_all(w, 7, built());
}

/// Places all structures: ruins, underground chests, surface chests, altars,
/// crystals, pots and cobwebs, in this order. The surface is that before the
/// first of them.
pub fn place_structures(
    world: &mut World,
    chests: &mut ChestStore,
    params: &GenParams,
    pockets: &Pockets,
    draws: StructureDraws,
)
    requires
        old(world).wf(),
        old(chests).wf(),
        params.width == old(world).width,
        params.height == old(world).height,
        params.stone_to_ash <= params.height,
        params.underground_chest_rows.0 <= params.height,
        3 <= params.ruin_size.0 <= u32::MAX - 4,
        2 <= params.ruin_size.1,
        pockets.label.len() == old(world)@.cells.len(),
        forall|i: int|
            0 <= i < pockets.label.len() ==> #[trigger] pockets.label@[i] <= pockets.regions.len(),
        draws.fit(old(world)@, *params, *pockets),
    ensures
        final(world).wf(),
        final(world).width == old(world).width,
        final(world).height == old(world).height,
        final(world).spawn == old(world).spawn,
        final(chests).wf(),
        exists|s: Passes, surface: Seq<u32>|
            {
                &&& #[trigger] passes_run(
                    s,
                    *params,
                    *pockets,
                    draws,
                    surface,
                    old(chests)@,
                    final(chests)@,
                )
                &&& is_surface(old(world)@, surface)
                &&& s.worlds[0] == old(world)@
                &&& s.worlds[7] == final(world)@
            },
        only_brings(old(world)@, final(world)@, built()),
{
    let ghost d = draws;
    let ghost g0 = world@;
    let surface = surface_scan(world);
    underworld_ruins(world, chests, params, draws.forge, &draws.ruins, draws.ruin_loots);
    let ghost (g1, c1) = (world@, chests@);
    proof {
        lemma_requests_ok_shape(g0, g1, d.underground@, 2);
    }
    let underground = underground_chests(
        world,
        chests,
        params,
        &draws.underground,
        draws.underground_loots,
    );
    let ghost (g2, c2) = (world@, chests@);
    assert forall|i: int| 0 <= i < d.surface.len() implies columns_ok(
        g2,
        (#[trigger] d.surface@[i])@,
    ) by {
        assert(columns_ok(g0, d.surface@[i]@));
    }
    let on_surface = surface_chests(
        world,
        chests,
        params,
        &surface,
        &draws.surface,
        draws.surface_loots,
    );
    let ghost g3 = world@;
    proof {
        lemma_requests_ok_shape(g0, g3, d.altars@, 3);
    }
    let altars = ritual_altars(world, &draws.altars);
    let ghost g4 = world@;
    assert forall|i: int, j: int|
        0 <= i < d.crystals.len() && 0 <= j < d.crystals@[i].len() implies inner(
        g4,
        #[trigger] d.crystals@[i]@[j],
    ) by {
        assert(inner(g0, d.crystals@[i]@[j]));
    }
    life_crystals(world, &draws.crystals);
    let ghost g5 = world@;
    proof {
        lemma_adorned_kept(g4, Ornament::LifeCrystal, d.crystals@);
    }
    assert forall|i: int, j: int|
        0 <= i < d.pots.len() && 0 <= j < d.pots@[i].len() implies inner(
        g5,
        #[trigger] d.pots@[i]@[j],
    ) by {
        assert(inner(g0, d.pots@[i]@[j]));
    }
    pots(world, &draws.pots);
    let ghost g6 = world@;
    proof {
        lemma_adorned_kept(g5, Ornament::Pot, d.pots@);
    }
    assert forall|i: int| 0 <= i < d.web_seeds.len() implies (#[trigger] d.web_seeds@[i]).fits(
        g6,
    ) by {
        assert(d.web_seeds@[i].fits(g0));
    }
    let n = cobwebs(world, params, pockets, &draws.web_coins, &draws.web_seeds);
    proof {
        assert(g0.wf() && g1.wf() && g2.wf() && g3.wf() && g4.wf() && g5.wf() && g6.wf());
        let s = Passes {
            worlds: seq![g0, g1, g2, g3, g4, g5, g6, world@],
            ruin_chests: c1,
            underground_chests: c2,
            underground_spots: underground@,
            surface_spots: on_surface@,
            altar_spots: altars@,
            webs: n as nat,
        };
        assert(passes_run(s, *params, *pockets, d, surface@, old(chests)@, chests@));
        lemma_passes_kept(s, *params, *pockets, d, surface@, old(chests)@, chests@);
    }
}

// ---- Where what was asked for ends up --------------------------------------

/// A life crystal takes stone next to air, a pot air on solid ground; each is
/// what it is afterwards, and the wall behind it stays.
pub proof fn law_ornaments_are_what_they_are(what: Ornament, g: Grid, x: int, y: int, t: Tile)
    ensures
        what is LifeCrystal ==> what.over(t).id == TileId::LifeCrystal && (what.fits(g, x, y)
            ==> g.at(x, y).id == TileId::Stone),
        what is Pot ==> what.over(t).id == TileId::Pot && (what.fits(g, x, y) ==> g.at(x, y).id
            == TileId::Air && g.at(x, y + 1).solid()),
        what.over(t).wall == t.wall && what.over(t).liquid == t.liquid,
{
}

/// Of the places that are tried the first that fits is taken, and nothing else
/// changes; if none fits nothing does.
pub proof fn law_the_first_try_that_fits_counts(
    g: Grid,
    what: Ornament,
    tries: Seq<(u32, u32)>,
    from: int,
    i: int,
)
    requires
        0 <= from <= i <= tries.len(),
        forall|k: int|
            from <= k < i ==> !what.fits(g, (#[trigger] tries[k]).0 as int, tries[k].1 as int),
        i < tries.len() ==> what.fits(g, tries[i].0 as int, tries[i].1 as int),
    ensures
        i < tries.len() ==> adorn_once(g, what, tries, from) == g.put(
            tries[i].0 as int,
            tries[i].1 as int,
            what.over(g.at(tries[i].0 as int, tries[i].1 as int)),
        ),
        i == tries.len() ==> adorn_once(g, what, tries, from) == g,
    decreases i - from,
{
    if from < i {
        assert(!what.fits(g, tries[from].0 as int, tries[from].1 as int));
        law_the_first_try_that_fits_counts(g, what, tries, from + 1, i);
    }
}

/// A place that is chosen is one that a scan hit, and far enough from all that
/// were chosen before; if none is chosen, no scan hit such a place.
pub proof fn law_chosen_places_are_apart(
    g: Grid,
    scans: Seq<Vec<(u32, u32)>>,
    placed: Seq<(u32, u32)>,
    spacing: int,
    size: (u32, u32),
    from: int,
)
    requires
        0 <= from <= scans.len(),
    ensures
        match chosen_spot(g, scans, placed, spacing, size, from) {
            Some(s) => spaced(placed, s, spacing) && exists|i: int|
                from <= i < scans.len() && scan_hit(
                    g,
                    (#[trigger] scans[i])@,
                    size.0,
                    size.1,
                    0,
                ) == Some(s),
            None => forall|i: int|
                from <= i < scans.len() ==> match scan_hit(
                    g,
                    (#[trigger] scans[i])@,
                    size.0,
                    size.1,
                    0,
                ) {
                    Some(s) => !spaced(placed, s, spacing),
                    None => true,
                },
        },
    decreases scans.len() - from,
{
    if from < scans.len() {
        law_chosen_places_are_apart(g, scans, placed, spacing, size, from + 1);
        assert(scans[from] == scans[from]);
        if let Some(s) = chosen_spot(g, scans, placed, spacing, size, from) {
            if scan_hit(g, scans[from]@, size.0, size.1, 0) == Some(s) && spaced(
                placed,
                s,
                spacing,
            ) {
            } else {
                let i = choose|i: int|
                    from + 1 <= i < scans.len() && scan_hit(
                        g,
                        (#[trigger] scans[i])@,
                        size.0,
                        size.1,
                        0,
                    ) == Some(s);
                assert(scan_hit(g, scans[i]@, size.0, size.1, 0) == Some(s));
            }
        }
    }
}

/// Altars are three cells wide and two high, chests two by two.
pub proof fn law_furnishings_have_their_sizes()
    ensures
        altar_size().0 == 3 && altar_size().1 == 2,
        chest_size().0 == 2 && chest_size().1 == 2,
{
}

/// Every chest that was put down holds what was rolled for it, unless a later
/// one stands in the same place; no other chest changes.
pub proof fn law_chests_get_their_loot(
    chests: Map<(u32, u32), Seq<Option<InvSlot>>>,
    spots: Seq<Option<(u32, u32)>>,
    loots: Seq<Vec<Option<InvSlot>>>,
    n: int,
    i: int,
    o: (u32, u32),
)
    requires
        0 <= n <= spots.len(),
        n <= loots.len(),
    ensures
        0 <= i < n && spots[i] == Some(o) && (forall|k: int|
            i < k < n ==> #[trigger] spots[k] != Some(o)) ==> stocked(
            chests,
            spots,
            loots,
            n,
        ).dom().contains(o) && stocked(chests, spots, loots, n)[o] == loots[i]@,
        (forall|k: int| 0 <= k < n ==> #[trigger] spots[k] != Some(o)) ==> (stocked(
            chests,
            spots,
            loots,
            n,
        ).dom().contains(o) <==> chests.dom().contains(o)),
    decreases n,
{
    if n > 0 {
        law_chests_get_their_loot(chests, spots, loots, n - 1, i, o);
        assert(spots[n - 1] == spots[n - 1]);
    }
}

/// A surface chest stands in the first column that has a floor for it, right
/// on that floor.
pub proof fn law_surface_chests_take_the_first_column(
    g: Grid,
    surface: Seq<u32>,
    limit: int,
    columns: Seq<u32>,
    from: int,
    f: int,
)
    requires
        0 <= from < columns.len(),
        first_chest_floor(g, columns[from] as int, surface[columns[from] as int] as int, limit)
            == Some(f),
    ensures
        column_spot(g, surface, limit, columns, from) == Some((columns[from], (f - 2) as u32)),
{
}

/// Webs are spun in dry nooks with at least four solid cells around, until
/// there are enough.
pub proof fn law_webs_hang_in_nooks(g: Grid, placed: nat, target: nat, seeds: Seq<WebSeed>, from: int)
    requires
        0 <= from < seeds.len(),
    ensures
        placed >= target ==> web_run(g, placed, target, seeds, from) == (g, placed),
        placed < target && (solid_around(g, seeds[from].x as int, seeds[from].y as int) <= 3
            || !webbable(g, seeds[from].x as int, seeds[from].y as int)) ==> web_run(
            g,
            placed,
            target,
            seeds,
            from,
        ) == web_run(g, placed, target, seeds, from + 1),
        placed < target && solid_around(g, seeds[from].x as int, seeds[from].y as int) >= 4
            && webbable(g, seeds[from].x as int, seeds[from].y as int) ==> web_run(
            g,
            placed,
            target,
            seeds,
            from,
        ) == web_run(
            cluster_grid(g, seeds[from].x as int, seeds[from].y as int, seeds[from].coins@, 7),
            placed + cluster_count(
                g,
                seeds[from].x as int,
                seeds[from].y as int,
                seeds[from].coins@,
                7,
            ),
            target,
            seeds,
            from + 1,
        ),
{
}

/// A pocket is webbed when it is small enough and its coin says so.
pub proof fn law_coins_choose_pockets(p: GenParams, pockets: Pockets, coins: Seq<bool>, i: int)
    requires
        0 <= i < coins.len(),
    ensures
        webbed_regions(p, pockets, coins).len() == coins.len(),
        webbed_regions(p, pockets, coins)[i] ==> coins[i] && !pockets.regions@[i].open_to_sky
            && pockets.regions@[i].cells <= p.cobweb_max_pocket,
        !coins[i] ==> !webbed_regions(p, pockets, coins)[i],
{
}

/// Every ruin is sought in its own slice of the world, two cells in from the
/// start of it.
pub proof fn law_ruins_have_their_slices(p: GenParams, i: int)
    requires
        p.ruins > 0,
        0 <= i < p.ruins,
        p.width >= p.ruin_size.0 + 4,
    ensures
        spec_ruin_slice(p, i).0 < spec_ruin_slice(p, i).1,
        spec_ruin_slice(p, i).0 + p.ruin_size.0 + 2 <= p.width,
        i * (p.width as int / p.ruins as int) + 2 + p.ruin_size.0 + 2 <= p.width
            ==> spec_ruin_slice(p, i).0 == i * (p.width as int / p.ruins as int) + 2,
{
}

} // verus!
