//! The inventory screen: where the slots are, what a click on one does, and
//! what is carried on the mouse.
//!
//! The screen changes no slot by itself. It asks the server, and the server's
//! answers change what is shown.

use vstd::prelude::*;

use crate::client::message::ClientMessage;
use crate::item::{
    InvSlot, ACCESSORY_START, ARMOR_START, CHEST_SLOTS, HOTBAR, INVENTORY_SLOTS, TRASH,
};

verus! {

/// Side of a slot in pixels.
pub const SLOT: i32 = 40;

pub const GAP: i32 = 4;

/// From one slot to the next.
pub const STEP: i32 = 44;

/// Left and top of the hotbar.
pub const ORIGIN_X: i32 = 12;

pub const ORIGIN_Y: i32 = 58;

pub const COLS: usize = 10;

/// A slot on the screen.
#[derive(Debug, Clone, Copy, PartialEq, Eq, Structural)]
pub enum UiAddr {
    Inv(usize),
    Chest(usize),
}

/// How much of a stack the mouse carries.
#[derive(Debug, Clone, Copy, PartialEq, Eq, Structural)]
pub enum Carry {
    All,
    Half,
}

/// What the mouse carries, and from where. The items stay where they are until
/// the server moves them.
#[derive(Debug, Clone, Copy, PartialEq, Eq, Structural)]
pub struct Carried {
    pub from: UiAddr,
    pub amount: Carry,
}

/// What kind of item a slot takes.
#[derive(Debug, Clone, Copy, PartialEq, Eq, Structural)]
pub enum SlotRole {
    Plain,
    Armor,
    Accessory,
    Trash,
}

pub open spec fn role_of(a: UiAddr) -> SlotRole {
    match a {
        UiAddr::Chest(_) => SlotRole::Plain,
        UiAddr::Inv(i) => if ARMOR_START <= i < ACCESSORY_START {
            SlotRole::Armor
        } else if ACCESSORY_START <= i < TRASH {
            SlotRole::Accessory
        } else if i == TRASH {
            SlotRole::Trash
        } else {
            SlotRole::Plain
        },
    }
}

pub fn slot_role(a: UiAddr) -> (r: SlotRole)
    ensures
        r == role_of(a),
{
    match a {
        UiAddr::Chest(_) => SlotRole::Plain,
        UiAddr::Inv(i) => {
            if ARMOR_START <= i && i < ACCESSORY_START {
                SlotRole::Armor
            } else if ACCESSORY_START <= i && i < TRASH {
                SlotRole::Accessory
            } else if i == TRASH {
                SlotRole::Trash
            } else {
                SlotRole::Plain
            }
        },
    }
}

// ---- Where slots are -------------------------------------------------------

#[derive(Debug, Clone, Copy, PartialEq, Eq, Structural)]
pub struct Rect {
    pub x: i32,
    pub y: i32,
    pub w: i32,
    pub h: i32,
}

/// Where the mouse is: the whole pixels next to it on each side.
#[derive(Debug, Clone, Copy, PartialEq, Eq, Structural)]
pub struct Mouse {
    pub x_floor: i32,
    pub x_ceil: i32,
    pub y_floor: i32,
    pub y_ceil: i32,
}

impl Rect {
    /// The mouse is on the rectangle, edges included.
    pub open spec fn spec_contains(self, m: Mouse) -> bool {
        self.x <= m.x_floor && m.x_ceil <= self.x + self.w && self.y <= m.y_floor && m.y_ceil
            <= self.y + self.h
    }

    pub fn contains(self, m: Mouse) -> (b: bool)
        requires
            self.x + self.w <= i32::MAX,
            self.y + self.h <= i32::MAX,
            0 <= self.w,
            0 <= self.h,
        ensures
            b == self.spec_contains(m),
    {
        self.x <= m.x_floor && m.x_ceil <= self.x + self.w && self.y <= m.y_floor && m.y_ceil
            <= self.y + self.h
    }
}

/// The slots there are.
pub open spec fn on_screen(a: UiAddr) -> bool {
    match a {
        UiAddr::Inv(i) => i < INVENTORY_SLOTS,
        UiAddr::Chest(i) => i < CHEST_SLOTS,
    }
}

/// Hotbar and backpack in rows of ten, the equipment in a column beside them
/// with a little room between its groups, the chest right of that.
pub open spec fn spec_slot_rect(a: UiAddr) -> Rect {
    let (x, y) = match a {
        UiAddr::Inv(i) => if i < ARMOR_START {
            (ORIGIN_X + (i % COLS) * STEP, ORIGIN_Y + (i / COLS) * STEP)
        } else {
            let n = i - ARMOR_START;
            let gap = if n <= 2 {
                0int
            } else if n <= 5 {
                8
            } else {
                16
            };
            (ORIGIN_X + COLS * STEP + 12, ORIGIN_Y + n * STEP + gap)
        },
        UiAddr::Chest(i) => (
            ORIGIN_X + (COLS + 1) * STEP + 24 + (i % COLS) * STEP,
            ORIGIN_Y + STEP + (i / COLS) * STEP,
        ),
    };
    Rect { x: x as i32, y: y as i32, w: SLOT, h: SLOT }
}

/// Where a slot is drawn.
pub fn slot_rect(a: UiAddr) -> (r: Rect)
    requires
        on_screen(a),
    ensures
        r == spec_slot_rect(a),
{
    let (x, y): (i32, i32) = match a {
        UiAddr::Inv(i) => {
            if i < ARMOR_START {
                (ORIGIN_X + (i % COLS) as i32 * STEP, ORIGIN_Y + (i / COLS) as i32 * STEP)
            } else {
                let n: i32 = (i - ARMOR_START) as i32;
                let gap: i32 = if n <= 2 {
                    0
                } else if n <= 5 {
                    8
                } else {
                    16
                };
                (ORIGIN_X + COLS as i32 * STEP + 12, ORIGIN_Y + n * STEP + gap)
            }
        },
        UiAddr::Chest(i) => (
            ORIGIN_X + (COLS as i32 + 1) * STEP + 24 + (i % COLS) as i32 * STEP,
            ORIGIN_Y + STEP + (i / COLS) as i32 * STEP,
        ),
    };
    Rect { x, y, w: SLOT, h: SLOT }
}

/// Two rectangles with room between them.
pub open spec fn clear_of(a: Rect, b: Rect) -> bool {
    a.x + a.w < b.x || b.x + b.w < a.x || a.y + a.h < b.y || b.y + b.h < a.y
}

/// No two slots touch, so the mouse is on one slot at most.
pub proof fn law_slots_are_apart(a: UiAddr, b: UiAddr)
    requires
        on_screen(a),
        on_screen(b),
        a != b,
    ensures
        clear_of(spec_slot_rect(a), spec_slot_rect(b)),
{
    match (a, b) {
        (UiAddr::Inv(i), UiAddr::Inv(j)) => {
            if i < ARMOR_START && j < ARMOR_START {
                lemma_grid_apart(i as int, j as int);
            }
        },
        (UiAddr::Chest(i), UiAddr::Chest(j)) => {
            lemma_grid_apart(i as int, j as int);
        },
        _ => {},
    }
}

proof fn lemma_grid_apart(i: int, j: int)
    requires
        0 <= i < 50,
        0 <= j < 50,
        i != j,
    ensures
        i % 10 != j % 10 || i / 10 != j / 10,
{
}

// ---- What is in slots ------------------------------------------------------

/// The open chest.
#[derive(Debug)]
pub struct ChestMirror {
    pub origin: (u32, u32),
    pub slots: Vec<Option<InvSlot>>,
}

impl ChestMirror {
    pub open spec fn wf(&self) -> bool {
        self.slots@.len() == CHEST_SLOTS
    }

    /// A chest with as many slots as it should have: more are cut off, and
    /// missing ones are empty.
    pub fn new(origin: (u32, u32), slots: Vec<Option<InvSlot>>) -> (m: ChestMirror)
        ensures
            m.wf(),
            m.origin == origin,
            forall|i: int|
                0 <= i < CHEST_SLOTS ==> #[trigger] m.slots@[i] == (if i < slots@.len() {
                    slots@[i]
                } else {
                    None
                }),
    {
        let mut out: Vec<Option<InvSlot>> = Vec::new();
        let mut i: usize = 0;
        while i < CHEST_SLOTS
            invariant
                i <= CHEST_SLOTS,
                out@.len() == i,
                forall|k: int|
                    0 <= k < i ==> #[trigger] out@[k] == (if k < slots@.len() {
                        slots@[k]
                    } else {
                        None
                    }),
            decreases CHEST_SLOTS - i,
        {
            if i < slots.len() {
                out.push(slots[i]);
            } else {
                out.push(None);
            }
            i = i + 1;
        }
        ChestMirror { origin, slots: out }
    }
}

/// What a slot holds; slots that are not there hold nothing.
pub open spec fn held_at(inv: Seq<Option<InvSlot>>, chest: Option<Seq<Option<InvSlot>>>, a: UiAddr) -> Option<
    InvSlot,
> {
    match a {
        UiAddr::Inv(i) => if i < inv.len() {
            inv[i as int]
        } else {
            None
        },
        UiAddr::Chest(i) => match chest {
            Some(c) => if i < c.len() {
                c[i as int]
            } else {
                None
            },
            None => None,
        },
    }
}

pub open spec fn chest_slots(chest: Option<&ChestMirror>) -> Option<Seq<Option<InvSlot>>> {
    match chest {
        Some(c) => Some(c.slots@),
        None => None,
    }
}

pub fn slot_at(inv: &Vec<Option<InvSlot>>, chest: Option<&ChestMirror>, a: UiAddr) -> (s: Option<
    InvSlot,
>)
    ensures
        s == held_at(inv@, chest_slots(chest), a),
{
    match a {
        UiAddr::Inv(i) => {
            if i < inv.len() {
                inv[i]
            } else {
                None
            }
        },
        UiAddr::Chest(i) => match chest {
            Some(c) => {
                if i < c.slots.len() {
                    c.slots[i]
                } else {
                    None
                }
            },
            None => None,
        },
    }
}

/// How many items of a stack the mouse shows: half is rounded up.
pub fn carried_count(count: u16, amount: Carry) -> (n: u16)
    ensures
        n == (match amount {
            Carry::All => count,
            Carry::Half => ((count + 1) / 2) as u16,
        }),
        amount is All ==> n == count,
        amount is Half ==> n + n == count || n + n == count + 1,
{
    match amount {
        Carry::All => count,
        Carry::Half => count / 2 + count % 2,
    }
}

// ---- Clicks ----------------------------------------------------------------

/// What dropping the carried stack on a slot asks for. Half a stack moves
/// within the inventory only.
pub open spec fn slot_op(c: Carried, to: UiAddr) -> Option<ClientMessage> {
    match (c.from, to) {
        (UiAddr::Inv(f), UiAddr::Inv(t)) => Some(
            match c.amount {
                Carry::All => ClientMessage::MoveSlot { from: f as u8, to: t as u8 },
                Carry::Half => ClientMessage::SplitSlot { from: f as u8, to: t as u8 },
            },
        ),
        (UiAddr::Inv(f), UiAddr::Chest(t)) => if c.amount == Carry::All {
            Some(
                ClientMessage::ChestMoveSlot {
                    chest_slot: t as u8,
                    inv_slot: f as u8,
                    to_chest: true,
                },
            )
        } else {
            None
        },
        (UiAddr::Chest(f), UiAddr::Inv(t)) => if c.amount == Carry::All {
            Some(
                ClientMessage::ChestMoveSlot {
                    chest_slot: f as u8,
                    inv_slot: t as u8,
                    to_chest: false,
                },
            )
        } else {
            None
        },
        (UiAddr::Chest(_), UiAddr::Chest(_)) => None,
    }
}

pub fn push_slot_op(c: Carried, to: UiAddr) -> (m: Option<ClientMessage>)
    requires
        on_screen(c.from),
        on_screen(to),
    ensures
        m == slot_op(c, to),
{
    match (c.from, to) {
        (UiAddr::Inv(f), UiAddr::Inv(t)) => Some(
            match c.amount {
                Carry::All => ClientMessage::MoveSlot { from: f as u8, to: t as u8 },
                Carry::Half => ClientMessage::SplitSlot { from: f as u8, to: t as u8 },
            },
        ),
        (UiAddr::Inv(f), UiAddr::Chest(t)) => {
            if c.amount == Carry::All {
                Some(
                    ClientMessage::ChestMoveSlot {
                        chest_slot: t as u8,
                        inv_slot: f as u8,
                        to_chest: true,
                    },
                )
            } else {
                None
            }
        },
        (UiAddr::Chest(f), UiAddr::Inv(t)) => {
            if c.amount == Carry::All {
                Some(
                    ClientMessage::ChestMoveSlot {
                        chest_slot: f as u8,
                        inv_slot: t as u8,
                        to_chest: false,
                    },
                )
            } else {
                None
            }
        },
        (UiAddr::Chest(_), UiAddr::Chest(_)) => None,
    }
}

/// The slots that an item would go to: in the chest, in the hotbar, in the
/// backpack, and in all that is carried.
#[derive(Debug, Clone, Copy, PartialEq, Eq, Structural)]
pub struct Destinations {
    pub chest: Option<u8>,
    pub hotbar: Option<u8>,
    pub backpack: Option<u8>,
    pub carried: Option<u8>,
}

/// Where a quick move goes: between inventory and chest while one is open,
/// else between hotbar and backpack; equipment goes back to what is carried.
pub open spec fn quick(a: UiAddr, chest_open: bool, d: Destinations) -> Option<ClientMessage> {
    match a {
        UiAddr::Chest(i) => match d.carried {
            Some(t) => Some(
                ClientMessage::ChestMoveSlot { chest_slot: i as u8, inv_slot: t, to_chest: false },
            ),
            None => None,
        },
        UiAddr::Inv(i) => if i < ARMOR_START && chest_open {
            match d.chest {
                Some(t) => Some(
                    ClientMessage::ChestMoveSlot {
                        chest_slot: t,
                        inv_slot: i as u8,
                        to_chest: true,
                    },
                ),
                None => None,
            }
        } else {
            let to = if i < HOTBAR {
                d.backpack
            } else if i < ARMOR_START {
                d.hotbar
            } else {
                d.carried
            };
            match to {
                Some(t) => Some(ClientMessage::MoveSlot { from: i as u8, to: t }),
                None => None,
            }
        },
    }
}

pub fn quick_move(a: UiAddr, chest_open: bool, d: Destinations) -> (m: Option<ClientMessage>)
    requires
        on_screen(a),
    ensures
        m == quick(a, chest_open, d),
{
    match a {
        UiAddr::Chest(i) => match d.carried {
            Some(t) => Some(
                ClientMessage::ChestMoveSlot { chest_slot: i as u8, inv_slot: t, to_chest: false },
            ),
            None => None,
        },
        UiAddr::Inv(i) => {
            if i < ARMOR_START && chest_open {
                match d.chest {
                    Some(t) => Some(
                        ClientMessage::ChestMoveSlot {
                            chest_slot: t,
                            inv_slot: i as u8,
                            to_chest: true,
                        },
                    ),
                    None => None,
                }
            } else {
                let to: Option<u8> = if i < HOTBAR {
                    d.backpack
                } else if i < ARMOR_START {
                    d.hotbar
                } else {
                    d.carried
                };
                match to {
                    Some(t) => Some(ClientMessage::MoveSlot { from: i as u8, to: t }),
                    None => None,
                }
            }
        },
    }
}

/// Buttons and keys of a frame.
#[derive(Debug, Clone, Copy, PartialEq, Eq, Structural)]
pub struct Clicks {
    pub left: bool,
    pub right: bool,
    pub shift: bool,
    /// The key that drops a stack to the ground.
    pub drop: bool,
}

/// What clicks do: the stack that is carried afterwards, and what is asked.
pub open spec fn clicked(
    carried: Option<Carried>,
    hovered: Option<UiAddr>,
    stack: Option<InvSlot>,
    k: Clicks,
    quick_op: Option<ClientMessage>,
) -> (Option<Carried>, Option<ClientMessage>) {
    if !k.left && !k.right && !k.drop {
        (carried, None)
    } else {
        match hovered {
            None => (if k.left || k.right {
                None
            } else {
                carried
            }, None),
            Some(a) => match carried {
                None => if k.drop {
                    (
                        None,
                        match (a, stack) {
                            (UiAddr::Inv(i), Some(s)) => Some(
                                ClientMessage::DropItem { slot: i as u8, count: s.count },
                            ),
                            _ => None,
                        },
                    )
                } else {
                    match stack {
                        None => (None, None),
                        Some(s) => if k.shift && k.left {
                            (None, quick_op)
                        } else if k.left {
                            (Some(Carried { from: a, amount: Carry::All }), None)
                        } else {
                            (
                                Some(
                                    Carried {
                                        from: a,
                                        amount: if a is Inv && s.count > 1 {
                                            Carry::Half
                                        } else {
                                            Carry::All
                                        },
                                    },
                                ),
                                None,
                            )
                        },
                    }
                },
                Some(c) => if k.left || k.right {
                    (None, if c.from != a {
                        slot_op(c, a)
                    } else {
                        None
                    })
                } else {
                    (carried, None)
                },
            },
        }
    }
}

/// The screen: whether it is open, and what the mouse carries.
#[derive(Debug, Clone, Copy, PartialEq, Eq, Structural)]
pub struct InventoryUi {
    pub open: bool,
    pub carried: Option<Carried>,
}

impl InventoryUi {
    pub open spec fn wf(self) -> bool {
        self.carried is Some ==> on_screen(self.carried->Some_0.from)
    }

    pub fn new() -> (u: InventoryUi)
        ensures
            u.wf(),
            u == (InventoryUi { open: false, carried: None }),
    {
        InventoryUi { open: false, carried: None }
    }

    pub fn close(&mut self)
        ensures
            *final(self) == (InventoryUi { open: false, carried: None }),
    {
        self.open = false;
        self.carried = None;
    }

    /// Handles the clicks of a frame on the hovered slot.
    pub fn handle_clicks(
        &mut self,
        inv: &Vec<Option<InvSlot>>,
        chest: Option<&ChestMirror>,
        hovered: Option<UiAddr>,
        k: Clicks,
        d: Destinations,
    ) -> (m: Option<ClientMessage>)
        requires
            old(self).wf(),
            hovered is Some ==> on_screen(hovered->Some_0),
        ensures
            final(self).wf(),
            final(self).open == old(self).open,
            (final(self).carried, m) == clicked(
                old(self).carried,
                hovered,
                if hovered is Some {
                    held_at(inv@, chest_slots(chest), hovered->Some_0)
                } else {
                    None
                },
                k,
                if hovered is Some {
                    quick(hovered->Some_0, chest is Some, d)
                } else {
                    None
                },
            ),
    {
        if !k.left && !k.right && !k.drop {
            return None;
        }
        let a: UiAddr = match hovered {
            Some(a) => a,
            None => {
                if k.left || k.right {
                    self.carried = None;
                }
                return None;
            },
        };
        let stack = slot_at(inv, chest, a);
        match self.carried {
            None => {
                if k.drop {
                    return match (a, stack) {
                        (UiAddr::Inv(i), Some(s)) => Some(
                            ClientMessage::DropItem { slot: i as u8, count: s.count },
                        ),
                        _ => None,
                    };
                }
                let s: InvSlot = match stack {
                    Some(s) => s,
                    None => {
                        return None;
                    },
                };
                if k.shift && k.left {
                    return quick_move(a, chest.is_some(), d);
                }
                if k.left {
                    self.carried = Some(Carried { from: a, amount: Carry::All });
                } else {
                    let halves: bool = match a {
                        UiAddr::Inv(_) => s.count > 1,
                        UiAddr::Chest(_) => false,
                    };
                    let amount: Carry = if halves {
                        Carry::Half
                    } else {
                        Carry::All
                    };
                    self.carried = Some(Carried { from: a, amount });
                }
                None
            },
            Some(c) => {
                if k.left || k.right {
                    self.carried = None;
                    if c.from != a {
                        return push_slot_op(c, a);
                    }
                }
                None
            },
        }
    }

    /// After the clicks: a closed screen carries nothing, and neither does
    /// one whose carried stack is gone.
    pub fn settle(&mut self, inv: &Vec<Option<InvSlot>>, chest: Option<&ChestMirror>)
        requires
            old(self).wf(),
        ensures
            final(self).wf(),
            final(self).open == old(self).open,
            final(self).carried == (match old(self).carried {
                Some(c) => if old(self).open && held_at(inv@, chest_slots(chest), c.from) is Some {
                    Some(c)
                } else {
                    None
                },
                None => None,
            }),
    {
        match self.carried {
            Some(c) => {
                if !self.open || slot_at(inv, chest, c.from).is_none() {
                    self.carried = None;
                }
            },
            None => {},
        }
    }
}

/// Dropping a stack where it came from, or outside of all slots, asks for
/// nothing and ends the carrying.
pub proof fn law_put_back_asks_nothing(c: Carried, k: Clicks, stack: Option<InvSlot>)
    requires
        k.left || k.right,
    ensures
        clicked(Some(c), Some(c.from), stack, k, None) == (None::<Carried>, None::<ClientMessage>),
        clicked(Some(c), None, stack, k, None) == (None::<Carried>, None::<ClientMessage>),
{
}

/// Armour, accessories and the bin have their own slots; all others are plain.
pub proof fn law_slots_have_their_roles(i: usize)
    ensures
        role_of(UiAddr::Chest(i)) is Plain,
        role_of(UiAddr::Inv(i)) is Armor <==> 50 <= i <= 52,
        role_of(UiAddr::Inv(i)) is Accessory <==> 53 <= i <= 55,
        role_of(UiAddr::Inv(i)) is Trash <==> i == 56,
        role_of(UiAddr::Inv(i)) is Plain <==> i < 50 || i > 56,
        on_screen(UiAddr::Inv(i)) <==> i < 57,
        on_screen(UiAddr::Chest(i)) <==> i < 40,
{
}

/// The slots stand in rows of ten squares of forty, four apart; those worn stand in a column to
/// the right, in three groups, and those of a chest beyond them.
pub proof fn law_slots_stand_in_rows(i: usize)
    requires
        i < 57,
    ensures
        ({
            let r = spec_slot_rect(UiAddr::Inv(i));
            let first = spec_slot_rect(UiAddr::Inv(0));
            &&& r.w == 40 && r.h == 40
            &&& first.x == 12 && first.y == 58
            &&& i < 49 && i % 10 != 9 ==> {
                let next = spec_slot_rect(UiAddr::Inv((i + 1) as usize));
                next.x == r.x + 44 && next.y == r.y
            }
            &&& i < 40 ==> {
                let below = spec_slot_rect(UiAddr::Inv((i + 10) as usize));
                below.x == r.x && below.y == r.y + 44
            }
            &&& 50 <= i ==> r.x == 464
            &&& 50 <= i <= 52 ==> r.y == 58 + (i - 50) * 44
            &&& 53 <= i <= 55 ==> r.y == 66 + (i - 50) * 44
            &&& i == 56 ==> r.y == 338
            &&& i < 40 ==> {
                let c = spec_slot_rect(UiAddr::Chest(i));
                c.x == r.x + 508 && c.y == r.y + 44 && c.w == 40 && c.h == 40
            }
        }),
{
}

/// A point is in a rectangle where it is between its edges, the edges among them.
pub proof fn law_rectangles_hold_their_points(r: Rect, x: i32, y: i32)
    requires
        0 <= r.w <= 10_000,
        0 <= r.h <= 10_000,
        r.x <= 1_000_000,
        r.y <= 1_000_000,
    ensures
        r.spec_contains(Mouse { x_floor: x, x_ceil: x, y_floor: y, y_ceil: y }) <==> 0 <= x - r.x
            <= r.w && 0 <= y - r.y <= r.h,
{
}

/// A carried stack put down asks to be moved; half a stack is split off, and only within the
/// inventory. Nothing is moved within a chest.
pub proof fn law_carried_stacks_are_put_down(f: u8, t: u8)
    ensures
        ({
            let inv = UiAddr::Inv(f as usize);
            let into = UiAddr::Inv(t as usize);
            let chest = UiAddr::Chest(f as usize);
            let whole = Carried { from: inv, amount: Carry::All };
            let half = Carried { from: inv, amount: Carry::Half };
            &&& slot_op(whole, into) == Some(ClientMessage::MoveSlot { from: f, to: t })
            &&& slot_op(half, into) == Some(ClientMessage::SplitSlot { from: f, to: t })
            &&& slot_op(whole, UiAddr::Chest(t as usize)) == Some(
                ClientMessage::ChestMoveSlot { chest_slot: t, inv_slot: f, to_chest: true },
            )
            &&& slot_op(half, UiAddr::Chest(t as usize)) is None
            &&& slot_op(Carried { from: chest, amount: Carry::All }, into) == Some(
                ClientMessage::ChestMoveSlot { chest_slot: f, inv_slot: t, to_chest: false },
            )
            &&& slot_op(Carried { from: chest, amount: Carry::Half }, into) is None
            &&& slot_op(
                Carried { from: chest, amount: Carry::All },
                UiAddr::Chest(t as usize),
            ) is None
        }),
{
}

/// A quick move goes into the open chest, out of the chest, between the hotbar and the backpack,
/// or from what is worn into the carried slots; where there is no room nothing is asked.
pub proof fn law_quick_moves_find_the_other_side(i: u8, open: bool, d: Destinations)
    ensures
        ({
            let inv = quick(UiAddr::Inv(i as usize), open, d);
            let chest = quick(UiAddr::Chest(i as usize), open, d);
            &&& i < 50 && open ==> inv == (match d.chest {
                Some(t) => Some(
                    ClientMessage::ChestMoveSlot { chest_slot: t, inv_slot: i, to_chest: true },
                ),
                None => None,
            })
            &&& i < 10 && !open ==> inv == (match d.backpack {
                Some(t) => Some(ClientMessage::MoveSlot { from: i, to: t }),
                None => None,
            })
            &&& 10 <= i < 50 && !open ==> inv == (match d.hotbar {
                Some(t) => Some(ClientMessage::MoveSlot { from: i, to: t }),
                None => None,
            })
            &&& i >= 50 ==> inv == (match d.carried {
                Some(t) => Some(ClientMessage::MoveSlot { from: i, to: t }),
                None => None,
            })
            &&& chest == (match d.carried {
                Some(t) => Some(
                    ClientMessage::ChestMoveSlot { chest_slot: i, inv_slot: t, to_chest: false },
                ),
                None => None,
            })
        }),
{
}

/// An empty hand takes the whole stack on a left click and half of it on a right click; a stack
/// of one, or one in a chest, is taken whole either way.
pub proof fn law_clicks_take_stacks(a: UiAddr, s: InvSlot, k: Clicks, q: Option<ClientMessage>)
    requires
        !k.drop,
    ensures
        ({
            let after = clicked(None, Some(a), Some(s), k, q);
            &&& k.left && !k.shift ==> after.0 == Some(Carried { from: a, amount: Carry::All })
                && after.1 is None
            &&& k.left && k.shift ==> after.0 is None && after.1 == q
            &&& k.right && !k.left && s.count > 1 && a is Inv ==> after.0 == Some(
                Carried { from: a, amount: Carry::Half },
            )
            &&& k.right && !k.left && (s.count <= 1 || a is Chest) ==> after.0 == Some(
                Carried { from: a, amount: Carry::All },
            )
            &&& k.right && !k.left ==> after.1 is None
            &&& clicked(None, Some(a), None, k, q) == (None::<Carried>, None::<ClientMessage>)
        }),
{
}

/// A full hand puts its stack down on another slot, and lets go of it anywhere else. The drop key
/// throws the whole stack under the pointer, unless something is carried.
pub proof fn law_clicks_put_down(
    c: Carried,
    a: UiAddr,
    s: Option<InvSlot>,
    k: Clicks,
    q: Option<ClientMessage>,
)
    ensures
        k.left || k.right ==> clicked(Some(c), Some(a), s, k, q).0 is None,
        (k.left || k.right) && c.from != a ==> clicked(Some(c), Some(a), s, k, q).1 == slot_op(
            c,
            a,
        ),
        (k.left || k.right) && c.from == a ==> clicked(Some(c), Some(a), s, k, q).1 is None,
        k.left || k.right ==> clicked(Some(c), None, s, k, q) == (
            None::<Carried>,
            None::<ClientMessage>,
        ),
        !k.left && !k.right ==> clicked(Some(c), Some(a), s, k, q) == (
            Some(c),
            None::<ClientMessage>,
        ) && clicked(Some(c), None, s, k, q) == (Some(c), None::<ClientMessage>),
        k.drop && s is Some && a is Inv ==> clicked(None, Some(a), s, k, q) == (
            None::<Carried>,
            Some(ClientMessage::DropItem { slot: a->Inv_0 as u8, count: s->Some_0.count }),
        ),
        k.drop && (s is None || a is Chest) ==> clicked(None, Some(a), s, k, q) == (
            None::<Carried>,
            None::<ClientMessage>,
        ),
{
}

/// A slot of the inventory or of the open chest shows what it holds, and a slot that is not there
/// nothing.
pub proof fn law_slots_show_what_they_hold(
    inv: Seq<Option<InvSlot>>,
    chest: Option<Seq<Option<InvSlot>>>,
    i: usize,
)
    ensures
        i < inv.len() ==> held_at(inv, chest, UiAddr::Inv(i)) == inv[i as int],
        i >= inv.len() ==> held_at(inv, chest, UiAddr::Inv(i)) is None,
        chest is None ==> held_at(inv, chest, UiAddr::Chest(i)) is None,
        chest is Some && i < chest->Some_0.len() ==> held_at(inv, chest, UiAddr::Chest(i))
            == chest->Some_0[i as int],
        chest is Some && i >= chest->Some_0.len() ==> held_at(inv, chest, UiAddr::Chest(i)) is None,
{
}

} // verus!
