//! Talking to town dwellers: the line they say, the shop, and healing.

use vstd::prelude::*;
use vstd::string::*;

use crate::client::hud::{coins_text, format_coins};
use crate::client::inventory::{Rect, GAP, ORIGIN_X, ORIGIN_Y, SLOT};
use crate::client::message::ClientMessage;
use crate::item::ItemId;
use crate::sim::player::{ActiveDebuff, Debuff};

verus! {

#[derive(Debug, Clone, Copy, PartialEq, Eq, Structural)]
pub enum NpcKind {
    Sage,
    Merchant,
    Nurse,
}

/// What is being said.
#[derive(Debug)]
pub struct ActiveDialogue {
    pub npc_id: u32,
    pub kind: NpcKind,
    pub name: String,
    pub line: String,
}

#[derive(Debug, Clone, Copy, PartialEq, Eq, Structural)]
pub struct ShopEntry {
    pub item: ItemId,
    pub price: u32,
}

/// What the merchant sells.
#[derive(Debug)]
pub struct Shop {
    pub npc_id: u32,
    pub items: Vec<ShopEntry>,
    /// The item bought last, until the server answers.
    pub flash: Option<(ItemId, u64)>,
}

#[derive(Debug)]
pub struct DialogueUi {
    pub active: Option<ActiveDialogue>,
    pub shop: Option<Shop>,
    pub shop_open: bool,
}

/// Where things are sold: to whom, and the window to drop them on.
#[derive(Debug, Clone, Copy, PartialEq, Eq, Structural)]
pub struct SellTarget {
    pub npc_id: u32,
    pub rect: Rect,
}

pub const SHOP_COLS: usize = 4;

pub const SHOP_CELL_W: i32 = 104;

pub const SHOP_CELL_H: i32 = 66;

/// Rows of the shop: four items each, and at least one row.
pub open spec fn shop_rows(items: int) -> int {
    if items == 0 {
        1
    } else {
        (items + 3) / 4
    }
}

pub open spec fn spec_shop_rect(items: int) -> Rect {
    Rect {
        x: (ORIGIN_X + 11 * (SLOT + GAP) + 24) as i32,
        y: ORIGIN_Y,
        w: (4 * SHOP_CELL_W + 16) as i32,
        h: (shop_rows(items) * SHOP_CELL_H + 58) as i32,
    }
}

/// The window of a shop.
pub fn shop_window_rect(items: usize) -> (r: Rect)
    requires
        items <= 0x100_0000,
    ensures
        r == spec_shop_rect(items as int),
{
    let rows: i32 = if items == 0 {
        1
    } else {
        ((items + 3) / 4) as i32
    };
    Rect {
        x: ORIGIN_X + 11 * (SLOT + GAP) + 24,
        y: ORIGIN_Y,
        w: 4 * SHOP_CELL_W + 16,
        h: rows * SHOP_CELL_H + 58,
    }
}

/// Where an item of the shop is shown, four to a row.
pub fn shop_cell_rect(i: usize) -> (r: Rect)
    requires
        i < 0x100_0000,
    ensures
        r.x == spec_shop_rect(1).x + 8 + (i % SHOP_COLS) * SHOP_CELL_W,
        r.y == spec_shop_rect(1).y + 28 + (i / SHOP_COLS) * SHOP_CELL_H,
        r.w == SHOP_CELL_W - 6,
        r.h == SHOP_CELL_H - 4,
        r.x == 528 + 104 * (i % 4),
        r.y == 86 + 66 * (i / 4),
        r.w == 98,
        r.h == 62,
{
    let w = shop_window_rect(1);
    Rect {
        x: w.x + 8 + (i % SHOP_COLS) as i32 * SHOP_CELL_W,
        y: w.y + 28 + (i / SHOP_COLS) as i32 * SHOP_CELL_H,
        w: SHOP_CELL_W - 6,
        h: SHOP_CELL_H - 4,
    }
}

/// Afflictions that the nurse takes away: all but potion sickness.
pub open spec fn curable(list: Seq<ActiveDebuff>, n: nat) -> nat
    decreases n,
{
    if n == 0 {
        0
    } else {
        curable(list, (n - 1) as nat) + if list[n - 1].debuff != Debuff::PotionSickness {
            1nat
        } else {
            0
        }
    }
}

/// How many afflictions the nurse takes away.
pub fn curable_count(list: &Vec<ActiveDebuff>) -> (n: usize)
    ensures
        n == curable(list@, list@.len()),
{
    let mut n: usize = 0;
    let mut i: usize = 0;
    while i < list.len()
        invariant
            i <= list.len(),
            n <= i,
            n == curable(list@, i as nat),
        decreases list.len() - i,
    {
        if list[i].debuff != Debuff::PotionSickness {
            n = n + 1;
        }
        i = i + 1;
    }
    n
}

/// The nurse's button: what it says, and whether it can be clicked.
#[derive(Debug)]
pub struct HealButton {
    pub label: String,
    pub enabled: bool,
}

/// The healthy need no healing; the others see what it costs, and need that
/// much.
pub fn heal_button(hp: u32, max_hp: u32, cost: u64, wallet: u64) -> (b: HealButton)
    ensures
        if hp >= max_hp {
            b.label@ == "Heal (healthy)"@ && !b.enabled
        } else {
            b.label@ == "Heal ("@ + coins_text(cost as nat) + ")"@ && b.enabled == (wallet >= cost)
        },
        b.enabled <==> hp < max_hp && cost <= wallet,
{
    if hp >= max_hp {
        return HealButton { label: String::from_str("Heal (healthy)"), enabled: false };
    }
    let mut label = String::from_str("Heal (");
    let coins = format_coins(cost);
    label.append(coins.as_str());
    label.append(")");
    HealButton { label, enabled: wallet >= cost }
}

/// Clicks of a frame.
#[derive(Debug, Clone, Copy, PartialEq, Eq, Structural)]
pub struct DialogueClicks {
    /// On the button of the dweller, where it can be clicked.
    pub button: bool,
    /// On the panel, buttons included.
    pub panel: bool,
    /// On an item of the shop.
    pub cell: Option<usize>,
    /// Something else took the click already.
    pub spent: bool,
    /// The flash of the last purchase has lasted long enough.
    pub flash_over: bool,
    /// Grows with the time.
    pub now: u64,
}

/// What a frame leads to.
#[derive(Debug, Clone, Copy, PartialEq, Eq, Structural)]
pub struct DialogueDeeds {
    pub heal: bool,
    pub buy: Option<ClientMessage>,
    /// The shop opened.
    pub shop_opened: bool,
}

pub open spec fn no_deeds() -> DialogueDeeds {
    DialogueDeeds { heal: false, buy: None, shop_opened: false }
}

/// The flash that is still on.
pub open spec fn flash_left(shop: Shop, over: bool) -> Option<(ItemId, u64)> {
    if over {
        None
    } else {
        shop.flash
    }
}

/// The entry that a click buys: none while its last purchase is not answered.
pub open spec fn bought(shop: Shop, c: DialogueClicks) -> Option<ShopEntry> {
    match c.cell {
        Some(i) => if i < shop.items@.len() && !c.spent && !(match flash_left(
            shop,
            c.flash_over,
        ) {
            Some((item, _)) => item == shop.items@[i as int].item,
            None => false,
        }) {
            Some(shop.items@[i as int])
        } else {
            None
        },
        None => None,
    }
}

impl DialogueUi {
    pub fn new() -> (d: DialogueUi)
        ensures
            d == (DialogueUi { active: None, shop: None, shop_open: false }),
    {
        DialogueUi { active: None, shop: None, shop_open: false }
    }

    pub fn is_open(&self) -> (b: bool)
        ensures
            b == self.active is Some,
    {
        self.active.is_some()
    }

    pub open spec fn spec_npc_id(&self) -> Option<u32> {
        match self.active {
            Some(a) => Some(a.npc_id),
            None => None,
        }
    }

    pub fn npc_id(&self) -> (id: Option<u32>)
        ensures
            id == self.spec_npc_id(),
    {
        match &self.active {
            Some(a) => Some(a.npc_id),
            None => None,
        }
    }

    /// A dweller says a line. Another dweller's shop closes.
    pub fn open_line(&mut self, npc_id: u32, kind: NpcKind, name: String, line: String)
        ensures
            final(self).active == Some(ActiveDialogue { npc_id, kind, name, line }),
            final(self).shop == old(self).shop,
            final(self).shop_open == (old(self).shop_open && old(self).spec_npc_id() == Some(
                npc_id,
            )),
    {
        let same: bool = match self.npc_id() {
            Some(id) => id == npc_id,
            None => false,
        };
        if !same {
            self.shop_open = false;
        }
        self.active = Some(ActiveDialogue { npc_id, kind, name, line });
    }

    /// The merchant's wares came.
    pub fn set_shop(&mut self, npc_id: u32, items: Vec<ShopEntry>)
        ensures
            final(self).active == old(self).active,
            final(self).shop_open == old(self).shop_open,
            final(self).shop == Some(Shop { npc_id, items, flash: None }),
    {
        self.shop = Some(Shop { npc_id, items, flash: None });
    }

    pub fn close(&mut self)
        ensures
            final(self).active is None,
            !final(self).shop_open,
            final(self).shop == old(self).shop,
    {
        self.active = None;
        self.shop_open = false;
    }

    /// The server changed a slot: the last purchase is answered.
    pub fn reconcile(&mut self)
        ensures
            final(self).active == old(self).active,
            final(self).shop_open == old(self).shop_open,
            final(self).shop == (match old(self).shop {
                Some(s) => Some(Shop { flash: None, ..s }),
                None => None,
            }),
    {
        let mut shop: Option<Shop> = None;
        std::mem::swap(&mut shop, &mut self.shop);
        match shop {
            Some(s) => {
                self.shop = Some(Shop { npc_id: s.npc_id, items: s.items, flash: None });
            },
            None => {},
        }
    }

    /// Where things are sold right now.
    pub fn sell_target(&self) -> (t: Option<SellTarget>)
        requires
            self.shop is Some ==> self.shop->Some_0.items.len() <= 0x100_0000,
        ensures
            t == (if self.shop_open && self.active is Some && self.shop is Some {
                Some(
                    SellTarget {
                        npc_id: self.shop->Some_0.npc_id,
                        rect: spec_shop_rect(self.shop->Some_0.items@.len() as int),
                    },
                )
            } else {
                None
            }),
    {
        if !self.shop_open || !self.is_open() {
            return None;
        }
        match &self.shop {
            Some(s) => Some(
                SellTarget { npc_id: s.npc_id, rect: shop_window_rect(s.items.len()) },
            ),
            None => None,
        }
    }

    /// The panel closes: a click on it that was for no button.
    pub open spec fn closes(&self, c: DialogueClicks) -> bool {
        !c.spent && c.panel && !(c.button && self.active->Some_0.kind != NpcKind::Sage)
    }

    /// A frame of the panel and the shop.
    pub fn frame(&mut self, c: DialogueClicks) -> (d: DialogueDeeds)
        ensures
            match old(self).active {
                None => d == no_deeds() && *final(self) == *old(self),
                Some(a) => {
                    let pressed = c.button && !c.spent;
                    let open = if a.kind == NpcKind::Merchant && pressed {
                        !old(self).shop_open
                    } else {
                        old(self).shop_open
                    };
                    if old(self).closes(c) {
                        &&& final(self).active is None
                        &&& !final(self).shop_open
                        &&& final(self).shop == old(self).shop
                        &&& d == no_deeds()
                    } else {
                        &&& final(self).active == old(self).active
                        &&& final(self).shop_open == open
                        &&& d.heal == (a.kind == NpcKind::Nurse && pressed)
                        &&& d.shop_opened == (a.kind == NpcKind::Merchant && pressed && open)
                        &&& match old(self).shop {
                            Some(s) => if open {
                                &&& d.buy == (match bought(s, c) {
                                    Some(e) => Some(
                                        ClientMessage::BuyItem {
                                            npc_id: s.npc_id,
                                            item: e.item,
                                            count: 1,
                                        },
                                    ),
                                    None => None,
                                })
                                &&& final(self).shop == Some(
                                    Shop {
                                        flash: match bought(s, c) {
                                            Some(e) => Some((e.item, c.now)),
                                            None => flash_left(s, c.flash_over),
                                        },
                                        ..s
                                    },
                                )
                            } else {
                                d.buy is None && final(self).shop == old(self).shop
                            },
                            None => d.buy is None && final(self).shop == old(self).shop,
                        }
                    }
                },
            },
    {
        let mut d = DialogueDeeds { heal: false, buy: None, shop_opened: false };
        let kind: NpcKind = match &self.active {
            Some(a) => a.kind,
            None => {
                return d;
            },
        };
        let pressed: bool = c.button && !c.spent;
        let mut on_button: bool = false;
        match kind {
            NpcKind::Merchant => {
                if pressed {
                    on_button = true;
                    self.shop_open = !self.shop_open;
                    d.shop_opened = self.shop_open;
                }
            },
            NpcKind::Nurse => {
                if pressed {
                    on_button = true;
                    d.heal = true;
                }
            },
            NpcKind::Sage => {},
        }
        if !on_button && !c.spent && c.panel {
            self.close();
            return DialogueDeeds { heal: false, buy: None, shop_opened: false };
        }
        if self.shop_open {
            let mut shop: Option<Shop> = None;
            std::mem::swap(&mut shop, &mut self.shop);
            match shop {
                Some(s) => {
                    let (after, buy) = shop_frame(s, c);
                    self.shop = Some(after);
                    d.buy = buy;
                },
                None => {},
            }
        }
        d
    }
}

/// A frame of the open shop.
fn shop_frame(s: Shop, c: DialogueClicks) -> (r: (Shop, Option<ClientMessage>))
    ensures
        r.1 == (match bought(s, c) {
            Some(e) => Some(
                ClientMessage::BuyItem { npc_id: s.npc_id, item: e.item, count: 1 },
            ),
            None => None,
        }),
        r.0 == (Shop {
            flash: match bought(s, c) {
                Some(e) => Some((e.item, c.now)),
                None => flash_left(s, c.flash_over),
            },
            ..s
        }),
{
    let Shop { npc_id, items, flash } = s;
    let mut flash = flash;
    if c.flash_over {
        flash = None;
    }
    let mut buy: Option<ClientMessage> = None;
    match c.cell {
        Some(i) => {
            if i < items.len() && !c.spent {
                let item: ItemId = items[i].item;
                let waits: bool = match flash {
                    Some((f, _)) => f == item,
                    None => false,
                };
                if !waits {
                    buy = Some(ClientMessage::BuyItem { npc_id, item, count: 1 });
                    flash = Some((item, c.now));
                }
            }
        },
        None => {},
    }
    (Shop { npc_id, items, flash }, buy)
}

/// A click that something else took closes nothing and buys nothing.
pub proof fn law_spent_clicks_do_nothing(ui: DialogueUi, shop: Shop, c: DialogueClicks)
    requires
        c.spent,
    ensures
        !ui.closes(c),
        bought(shop, c) is None,
{
}

// ---- Wrapping --------------------------------------------------------------

/// Lines that are filled word by word.
#[derive(Debug)]
pub struct Wrap {
    pub lines: Vec<String>,
    pub current: String,
}

/// The current line with one more word.
pub open spec fn longer(current: Seq<char>, word: Seq<char>) -> Seq<char> {
    if current.len() == 0 {
        word
    } else {
        current + " "@ + word
    }
}

impl Wrap {
    pub fn new() -> (w: Wrap)
        ensures
            w.lines@.len() == 0,
            w.current@.len() == 0,
    {
        Wrap { lines: Vec::new(), current: String::new() }
    }

    /// The line that the next word would make, to be measured.
    pub fn candidate(&self, word: &str) -> (s: String)
        ensures
            s@ == longer(self.current@, word@),
    {
        let mut s = String::from_str(self.current.as_str());
        if s.as_str().unicode_len() > 0 {
            s.append(" ");
        }
        s.append(word);
        assert(s@ =~= longer(self.current@, word@));
        s
    }

    /// Takes the next word: on the current line, or on a new one where the
    /// candidate is too wide. A word that is too wide alone stays whole.
    pub fn place(&mut self, word: &str, too_wide: bool)
        ensures
            if too_wide && old(self).current@.len() > 0 {
                &&& final(self).lines@ == old(self).lines@.push(old(self).current)
                &&& final(self).current@ == word@
            } else {
                &&& final(self).lines@ == old(self).lines@
                &&& final(self).current@ == longer(old(self).current@, word@)
            },
    {
        if too_wide && self.current.as_str().unicode_len() > 0 {
            let mut line = String::from_str(word);
            std::mem::swap(&mut line, &mut self.current);
            self.lines.push(line);
        } else {
            self.current = self.candidate(word);
        }
    }

    /// All lines: there is at least one.
    pub fn finish(self) -> (lines: Vec<String>)
        ensures
            if self.current@.len() > 0 {
                lines@ == self.lines@.push(self.current)
            } else if self.lines@.len() > 0 {
                lines@ == self.lines@
            } else {
                lines@.len() == 1 && lines@[0]@.len() == 0
            },
    {
        let Wrap { lines, current } = self;
        let mut lines = lines;
        if current.as_str().unicode_len() > 0 {
            lines.push(current);
        } else if lines.len() == 0 {
            lines.push(String::new());
        }
        lines
    }
}

/// A shop shows its goods four to a row, in a window as high as they need, and an empty shop in
/// one of a single row.
pub proof fn law_shops_grow_by_rows(items: int)
    requires
        0 <= items <= 0x100_0000,
    ensures
        shop_rows(0) == 1,
        items > 0 ==> 4 * (shop_rows(items) - 1) < items <= 4 * shop_rows(items),
        spec_shop_rect(items).x == 520,
        spec_shop_rect(items).y == 58,
        spec_shop_rect(items).w == 432,
        spec_shop_rect(items).h == 66 * shop_rows(items) + 58,
{
}

/// Everything that ails a player can be cured but the sickness of potions.
pub proof fn law_all_but_potions_can_be_cured(list: Seq<ActiveDebuff>, n: nat)
    requires
        n <= list.len(),
    ensures
        curable(list, n) == list.take(n as int).filter(
            |d: ActiveDebuff| !(d.debuff is PotionSickness),
        ).len(),
    decreases n,
{
    reveal(Seq::filter);
    let p = |d: ActiveDebuff| !(d.debuff is PotionSickness);
    if n > 0 {
        law_all_but_potions_can_be_cured(list, (n - 1) as nat);
        assert(list.take(n as int).drop_last() =~= list.take(n - 1));
        assert(list.take(n as int).last() == list[n - 1]);
    }
}

/// A click on goods buys them, unless they were just bought or the click was spent elsewhere.
pub proof fn law_clicks_buy_goods(shop: Shop, c: DialogueClicks, i: usize)
    requires
        c.cell == Some(i),
    ensures
        bought(shop, c) is Some ==> i < shop.items@.len() && bought(shop, c)->Some_0
            == shop.items@[i as int] && !c.spent,
        i < shop.items@.len() && !c.spent && (shop.flash is None || c.flash_over) ==> bought(
            shop,
            c,
        ) == Some(shop.items@[i as int]),
        i < shop.items@.len() && shop.flash is Some && !c.flash_over ==> (bought(shop, c) is Some
            <==> !c.spent && shop.flash->Some_0.0 != shop.items@[i as int].item),
        c.spent || i >= shop.items@.len() ==> bought(shop, c) is None,
        bought(shop, (DialogueClicks { cell: None, ..c })) is None,
{
}

/// What was bought stays marked until the mark has run out.
pub proof fn law_marks_run_out(shop: Shop)
    ensures
        flash_left(shop, false) == shop.flash,
        flash_left(shop, true) is None,
{
}

/// A click on the panel ends the talk, but for a click on the button that a merchant or a nurse
/// has.
pub proof fn law_panels_close_on_a_click(d: DialogueUi, c: DialogueClicks)
    requires
        d.active is Some,
    ensures
        d.closes(c) ==> c.panel && !c.spent,
        c.panel && !c.spent && !c.button ==> d.closes(c),
        c.panel && !c.spent && c.button ==> (d.closes(c) <==> d.active->Some_0.kind is Sage),
        no_deeds().buy is None && !no_deeds().heal && !no_deeds().shop_opened,
{
}

/// Words are joined by single blanks.
pub proof fn law_words_are_joined_by_blanks(line: Seq<char>, word: Seq<char>)
    ensures
        longer(Seq::empty(), word) == word,
        line.len() > 0 ==> longer(line, word) == line.push(' ') + word,
{
    reveal_strlit(" ");
    if line.len() > 0 {
        assert(longer(line, word) =~= line.push(' ') + word);
    }
}

} // verus!
