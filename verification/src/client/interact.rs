//! The mouse on the world: mining, placing, doors and chests, and the cracks
//! in what is being mined.

use vstd::prelude::*;

use crate::cellmap::CellMap;
use crate::client::message::ClientMessage;
use crate::grid::{spec_origin, Grid, World};
use crate::sim::chunks::lemma_push_contains;
use crate::tile::{TileId, WallId};

verus! {

/// Damage of a cell as it came, and when.
#[derive(Debug, Clone, Copy, PartialEq, Eq, Structural)]
pub struct Crack {
    /// Share of the damage that breaks it, of 255.
    pub frac: u8,
    /// Grows with the time.
    pub at: u64,
}

/// Which of the three pictures of a crack is shown.
pub open spec fn spec_crack_stage(frac: u8) -> int {
    1 + if frac * 3 / 256 < 2 {
        frac * 3 / 256
    } else {
        2
    }
}

pub fn crack_stage(frac: u8) -> (stage: u32)
    ensures
        stage == spec_crack_stage(frac),
        1 <= stage <= 3,
{
    let third: u32 = frac as u32 * 3 / 256;
    if third < 2 {
        1 + third
    } else {
        3
    }
}

/// More damage never looks like less.
pub proof fn law_cracks_grow(a: u8, b: u8)
    requires
        a <= b,
    ensures
        spec_crack_stage(a) <= spec_crack_stage(b),
{
}

/// The cracks that are shown.
pub struct Interact {
    pub cracks: CellMap<Crack>,
}

impl Interact {
    pub fn new() -> (i: Interact)
        ensures
            i.cracks@ == Map::<(u32, u32), Crack>::empty(),
    {
        Interact { cracks: CellMap::new() }
    }

    /// A cell was damaged.
    pub fn on_block_crack(&mut self, x: u32, y: u32, frac: u8, at: u64)
        ensures
            final(self).cracks@ == old(self).cracks@.insert((x, y), (Crack { frac, at })),
    {
        self.cracks.insert((x, y), Crack { frac, at });
    }

    /// A cell changed: what was seen of its damage is over.
    pub fn on_tile_changed(&mut self, x: u32, y: u32)
        ensures
            final(self).cracks@ == old(self).cracks@.remove((x, y)),
    {
        self.cracks.remove((x, y));
    }

    /// Drops the cracks that came before `oldest`.
    pub fn prune(&mut self, oldest: u64)
        ensures
            forall|c: (u32, u32)| #[trigger]
                final(self).cracks@.dom().contains(c) <==> old(self).cracks@.dom().contains(c)
                    && old(self).cracks@[c].at >= oldest,
            forall|c: (u32, u32)| #[trigger]
                final(self).cracks@.dom().contains(c) ==> final(self).cracks@[c] == old(
                    self,
                ).cracks@[c],
    {
        let ghost before = self.cracks@;
        let cells = self.cracks.cells();
        let mut i: usize = 0;
        assert(cells@.take(0) =~= Seq::<(u32, u32)>::empty());
        while i < cells.len()
            invariant
                i <= cells.len(),
                before == old(self).cracks@,
                cells@.no_duplicates(),
                forall|c: (u32, u32)| #[trigger] cells@.contains(c) <==> before.dom().contains(c),
                forall|c: (u32, u32)| #[trigger]
                    self.cracks@.dom().contains(c) <==> before.dom().contains(c) && !(cells@.take(
                        i as int,
                    ).contains(c) && before[c].at < oldest),
                forall|c: (u32, u32)| #[trigger]
                    self.cracks@.dom().contains(c) ==> self.cracks@[c] == before[c],
            decreases cells.len() - i,
        {
            let c: (u32, u32) = cells[i];
            proof {
                let t0 = cells@.take(i as int);
                assert(cells@.contains(cells@[i as int]));
                assert(cells@.take(i + 1) =~= t0.push(c));
                lemma_push_contains(t0, c);
                if t0.contains(c) {
                    let k = t0.index_of(c);
                    assert(cells@[k] == cells@[i as int]);
                }
            }
            if let Some(crack) = self.cracks.get(c) {
                if crack.at < oldest {
                    self.cracks.remove(c);
                }
            }
            i = i + 1;
        }
        assert(cells@.take(i as int) =~= cells@);
    }
}

/// What the held item puts down.
#[derive(Debug, Clone, Copy, PartialEq, Eq, Structural)]
pub enum Places {
    Nothing,
    Tile,
    Wall,
}

/// What a frame looks at.
#[derive(Debug, Clone, Copy, PartialEq, Eq, Structural)]
pub struct Hand {
    pub hammer: bool,
    pub places: Places,
    /// Selected slot of the hotbar.
    pub slot: u8,
    /// The last swing is long enough ago.
    pub may_swing: bool,
    /// The last placement is long enough ago.
    pub may_place: bool,
    pub left_down: bool,
    pub right_pressed: bool,
    pub right_down: bool,
}

/// What a frame sends.
#[derive(Debug, Clone, Copy, PartialEq, Eq, Structural)]
pub struct Deeds {
    /// A swing; the wait for the next begins.
    pub swing: Option<ClientMessage>,
    /// A door or a chest.
    pub touch: Option<ClientMessage>,
    /// A placement; the wait for the next begins.
    pub place: Option<ClientMessage>,
}

/// The swing at a cell: at its foreground, or with a hammer at its wall.
pub open spec fn swing_at(g: Grid, x: u32, y: u32, h: Hand) -> Option<ClientMessage> {
    let t = g.at(x as int, y as int);
    if !h.left_down || !h.may_swing {
        None
    } else if t.id != TileId::Air {
        Some(ClientMessage::HitTile { x, y })
    } else if h.hammer && t.wall != WallId::Air {
        Some(ClientMessage::HitWall { x, y })
    } else {
        None
    }
}

/// The door or chest that a click is on.
pub open spec fn touch_at(g: Grid, x: u32, y: u32, h: Hand) -> Option<ClientMessage> {
    let t = g.at(x as int, y as int);
    if !h.right_pressed {
        None
    } else if t.id == TileId::Door {
        Some(ClientMessage::ToggleDoor { x, y })
    } else if t.id == TileId::Chest {
        let o = spec_origin(g, x, y);
        Some(ClientMessage::OpenChest { x: o.0, y: o.1 })
    } else {
        None
    }
}

/// The placement at a cell with room for it, unless the click was for a door
/// or a chest.
pub open spec fn place_at(g: Grid, x: u32, y: u32, h: Hand) -> Option<ClientMessage> {
    let t = g.at(x as int, y as int);
    if !h.right_down || !h.may_place || touch_at(g, x, y, h) is Some {
        None
    } else if h.places == Places::Tile && t.id == TileId::Air {
        Some(ClientMessage::PlaceTile { x, y, hotbar_slot: h.slot })
    } else if h.places == Places::Wall && t.wall == WallId::Air {
        Some(ClientMessage::PlaceWall { x, y, hotbar_slot: h.slot })
    } else {
        None
    }
}

/// What the mouse does to the cell it is on, if that is in reach.
pub fn frame(world: &World, aim: Option<(u32, u32)>, in_reach: bool, h: Hand) -> (d: Deeds)
    requires
        world.wf(),
        aim is Some ==> world@.inside(aim->Some_0.0 as int, aim->Some_0.1 as int),
    ensures
        match aim {
            Some((x, y)) => if in_reach {
                d == (Deeds {
                    swing: swing_at(world@, x, y, h),
                    touch: touch_at(world@, x, y, h),
                    place: place_at(world@, x, y, h),
                })
            } else {
                d == (Deeds { swing: None, touch: None, place: None })
            },
            None => d == (Deeds { swing: None, touch: None, place: None }),
        },
{
    let mut d = Deeds { swing: None, touch: None, place: None };
    let (x, y): (u32, u32) = match aim {
        Some(c) => c,
        None => {
            return d;
        },
    };
    if !in_reach {
        return d;
    }
    let t = world.tile(x, y);
    if h.left_down && h.may_swing {
        if t.id != TileId::Air {
            d.swing = Some(ClientMessage::HitTile { x, y });
        } else if h.hammer && t.wall != WallId::Air {
            d.swing = Some(ClientMessage::HitWall { x, y });
        }
    }
    if h.right_pressed {
        if t.id == TileId::Door {
            d.touch = Some(ClientMessage::ToggleDoor { x, y });
            return d;
        }
        if t.id == TileId::Chest {
            let o: (u32, u32) = world.multitile_origin(x, y);
            d.touch = Some(ClientMessage::OpenChest { x: o.0, y: o.1 });
            return d;
        }
    }
    if h.right_down && h.may_place {
        if h.places == Places::Tile && t.id == TileId::Air {
            d.place = Some(ClientMessage::PlaceTile { x, y, hotbar_slot: h.slot });
        } else if h.places == Places::Wall && t.wall == WallId::Air {
            d.place = Some(ClientMessage::PlaceWall { x, y, hotbar_slot: h.slot });
        }
    }
    d
}

/// A left click in reach hits what is there: a tile with anything in hand, a bare wall only with
/// a hammer, and nothing while the arm still swings.
pub proof fn law_clicks_hit_what_is_there(g: Grid, x: u32, y: u32, h: Hand)
    ensures
        ({
            let t = g.at(x as int, y as int);
            let ready = h.left_down && h.may_swing;
            &&& swing_at(g, x, y, h) == Some(ClientMessage::HitTile { x, y }) <==> ready && t.id
                != TileId::Air
            &&& swing_at(g, x, y, h) == Some(ClientMessage::HitWall { x, y }) <==> ready
                && h.hammer && t.id == TileId::Air && t.wall != WallId::Air
            &&& swing_at(g, x, y, h) is None <==> !ready || (t.id == TileId::Air && (!h.hammer
                || t.wall == WallId::Air))
        }),
{
}

/// A right click works doors and opens chests, wherever in the chest it lands.
pub proof fn law_right_clicks_work_things(g: Grid, x: u32, y: u32, h: Hand)
    ensures
        ({
            let id = g.at(x as int, y as int).id;
            &&& h.right_pressed && id == TileId::Door ==> touch_at(g, x, y, h) == Some(
                ClientMessage::ToggleDoor { x, y },
            )
            &&& h.right_pressed && id == TileId::Chest ==> touch_at(g, x, y, h) == Some(
                ClientMessage::OpenChest { x: spec_origin(g, x, y).0, y: spec_origin(g, x, y).1 },
            )
            &&& touch_at(g, x, y, h) is Some ==> h.right_pressed && (id == TileId::Door || id
                == TileId::Chest)
        }),
{
}

/// What is held goes where there is room for it: a tile into air, a wall where none stands. A
/// click that works a door or a chest places nothing.
pub proof fn law_right_clicks_place(g: Grid, x: u32, y: u32, h: Hand)
    ensures
        ({
            let t = g.at(x as int, y as int);
            let free = h.right_down && h.may_place && touch_at(g, x, y, h) is None;
            &&& place_at(g, x, y, h) == Some(
                ClientMessage::PlaceTile { x, y, hotbar_slot: h.slot },
            ) <==> free && h.places is Tile && t.id == TileId::Air
            &&& place_at(g, x, y, h) == Some(
                ClientMessage::PlaceWall { x, y, hotbar_slot: h.slot },
            ) <==> free && h.places is Wall && t.wall == WallId::Air
            &&& h.places is Nothing ==> place_at(g, x, y, h) is None
            &&& touch_at(g, x, y, h) is Some ==> place_at(g, x, y, h) is None
            &&& !h.right_down || !h.may_place ==> place_at(g, x, y, h) is None
        }),
{
}

/// Damage shows in three stages: up to a third, up to two thirds, and beyond.
pub proof fn law_cracks_come_in_thirds(frac: u8)
    ensures
        spec_crack_stage(frac) == 1 <==> 3 * frac < 256,
        spec_crack_stage(frac) == 2 <==> 256 <= 3 * frac < 512,
        spec_crack_stage(frac) == 3 <==> 512 <= 3 * frac,
{
}

} // verus!
