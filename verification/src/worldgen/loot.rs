//! What chests and pots hold.

use vstd::prelude::*;

use crate::item::{InvSlot, ItemId, CHEST_SLOTS};

verus! {

/// `min` to `max` of `item`; with an `alt`, one of the two.
#[derive(Debug, Clone, Copy, PartialEq, Eq, Structural)]
pub struct LootRoll {
    pub item: ItemId,
    pub alt: Option<ItemId>,
    pub min: u16,
    pub max: u16,
}

impl LootRoll {
    pub open spec fn spec_of(item: ItemId, min: u16, max: u16) -> LootRoll {
        LootRoll { item, alt: None, min, max }
    }

    pub fn of(item: ItemId, min: u16, max: u16) -> (r: LootRoll)
        ensures
            r == LootRoll::spec_of(item, min, max),
    {
        LootRoll { item, alt: None, min, max }
    }

    pub open spec fn spec_either(item: ItemId, alt: ItemId, min: u16, max: u16) -> LootRoll {
        LootRoll { item, alt: Some(alt), min, max }
    }

    pub fn either(item: ItemId, alt: ItemId, min: u16, max: u16) -> (r: LootRoll)
        ensures
            r == LootRoll::spec_either(item, alt, min, max),
    {
        LootRoll { item, alt: Some(alt), min, max }
    }

    /// What a roll gives: `swap` picks the alternative where there is one.
    pub open spec fn outcome(self, swap: bool, count: u16) -> InvSlot {
        InvSlot {
            item: match self.alt {
                Some(alt) if swap => alt,
                _ => self.item,
            },
            count,
        }
    }

    /// The least count is not above the highest.
    pub open spec fn wf(self) -> bool {
        self.min <= self.max
    }

    /// How many a throw gives.
    pub open spec fn spec_count(self, spread: u32) -> u16 {
        (self.min + spread as int % (self.max - self.min + 1)) as u16
    }

    /// What a throw gives.
    pub open spec fn thrown(self, t: Throw) -> InvSlot {
        self.outcome(t.swap, self.spec_count(t.spread))
    }

    /// What a throw gives: a count between the two ends.
    pub fn toss(&self, t: Throw) -> (s: InvSlot)
        requires
            self.wf(),
        ensures
            s == self.thrown(t),
            self.min <= s.count <= self.max,
    {
        let span: u32 = (self.max - self.min) as u32 + 1;
        let count: u16 = self.min + (t.spread % span) as u16;
        self.roll(t.swap, count)
    }

    pub fn roll(&self, swap: bool, count: u16) -> (s: InvSlot)
        requires
            self.min <= count <= self.max,
        ensures
            s == self.outcome(swap, count),
    {
        let item: ItemId = match self.alt {
            Some(alt) => if swap {
                alt
            } else {
                self.item
            },
            None => self.item,
        };
        InvSlot { item, count }
    }
}

/// One roll of the dice for an entry.
#[derive(Debug, Clone, Copy)]
pub struct Throw {
    /// Out of a hundred: the entry is taken where this is below its chance.
    pub hit: u32,
    /// The alternative is taken.
    pub swap: bool,
    /// How many there are, counted on from the least.
    pub spread: u32,
}

/// The entries of a chest: one primary by weight, and extras that come each
/// with its own chance in percent.
pub struct ChestLootTable {
    pub primary: Vec<(LootRoll, u32)>,
    pub extras: Vec<(LootRoll, u32)>,
}

pub open spec fn surface_primary() -> Seq<(LootRoll, u32)> {
    seq![
        (LootRoll::spec_of(ItemId::GustJar, 1, 1), 25u32),
        (LootRoll::spec_of(ItemId::SwiftBoots, 1, 1), 25u32),
        (LootRoll::spec_of(ItemId::BandOfVigor, 1, 1), 25u32),
        (LootRoll::spec_of(ItemId::WoodenArrow, 30, 30), 25u32),
    ]
}

pub open spec fn surface_extras() -> Seq<(LootRoll, u32)> {
    seq![
        (LootRoll::spec_of(ItemId::SilverCoin, 1, 10), 100u32),
        (LootRoll::spec_of(ItemId::Torch, 3, 10), 100u32),
        (LootRoll::spec_of(ItemId::LesserHealingPotion, 1, 3), 50u32),
    ]
}

/// Chests on the surface.
pub fn surface_chest() -> (t: ChestLootTable)
    ensures
        t.primary@ == surface_primary(),
        t.extras@ == surface_extras(),
        t.wf(),
{
    let t = ChestLootTable {
        primary: vec![
            (LootRoll::of(ItemId::GustJar, 1, 1), 25),
            (LootRoll::of(ItemId::SwiftBoots, 1, 1), 25),
            (LootRoll::of(ItemId::BandOfVigor, 1, 1), 25),
            (LootRoll::of(ItemId::WoodenArrow, 30, 30), 25),
        ],
        extras: vec![
            (LootRoll::of(ItemId::SilverCoin, 1, 10), 100),
            (LootRoll::of(ItemId::Torch, 3, 10), 100),
            (LootRoll::of(ItemId::LesserHealingPotion, 1, 3), 50),
        ],
    };
    assert(t.primary@ =~= surface_primary());
    assert(t.extras@ =~= surface_extras());
    t
}

pub open spec fn underground_primary() -> Seq<(LootRoll, u32)> {
    seq![
        (LootRoll::spec_of(ItemId::SwiftBoots, 1, 1), 20u32),
        (LootRoll::spec_of(ItemId::GustJar, 1, 1), 20u32),
        (LootRoll::spec_of(ItemId::LuckyCharm, 1, 1), 20u32),
        (LootRoll::spec_of(ItemId::WarpMirror, 1, 1), 15u32),
        (LootRoll::spec_of(ItemId::BandOfVigor, 1, 1), 25u32),
    ]
}

pub open spec fn underground_extras() -> Seq<(LootRoll, u32)> {
    seq![
        (LootRoll::spec_of(ItemId::SilverCoin, 5, 20), 100u32),
        (LootRoll::spec_either(ItemId::SilverBar, ItemId::GoldBar, 3, 8), 50u32),
        (LootRoll::spec_of(ItemId::LesserHealingPotion, 2, 5), 100u32),
        (LootRoll::spec_of(ItemId::Torch, 5, 15), 100u32),
    ]
}

/// Chests in caves.
pub fn underground_chest() -> (t: ChestLootTable)
    ensures
        t.primary@ == underground_primary(),
        t.extras@ == underground_extras(),
        t.wf(),
{
    let t = ChestLootTable {
        primary: vec![
            (LootRoll::of(ItemId::SwiftBoots, 1, 1), 20),
            (LootRoll::of(ItemId::GustJar, 1, 1), 20),
            (LootRoll::of(ItemId::LuckyCharm, 1, 1), 20),
            (LootRoll::of(ItemId::WarpMirror, 1, 1), 15),
            (LootRoll::of(ItemId::BandOfVigor, 1, 1), 25),
        ],
        extras: vec![
            (LootRoll::of(ItemId::SilverCoin, 5, 20), 100),
            (LootRoll::either(ItemId::SilverBar, ItemId::GoldBar, 3, 8), 50),
            (LootRoll::of(ItemId::LesserHealingPotion, 2, 5), 100),
            (LootRoll::of(ItemId::Torch, 5, 15), 100),
        ],
    };
    assert(t.primary@ =~= underground_primary());
    assert(t.extras@ =~= underground_extras());
    t
}

pub open spec fn underworld_primary() -> Seq<(LootRoll, u32)> {
    seq![
        (LootRoll::spec_of(ItemId::ObsidianCharm, 1, 1), 50u32),
        (LootRoll::spec_of(ItemId::WarpMirror, 1, 1), 50u32),
    ]
}

pub open spec fn underworld_extras() -> Seq<(LootRoll, u32)> {
    seq![
        (LootRoll::spec_of(ItemId::GoldCoin, 1, 3), 100u32),
        (LootRoll::spec_of(ItemId::Hellstone, 10, 20), 100u32),
        (LootRoll::spec_of(ItemId::HealingPotion, 2, 5), 100u32),
        (LootRoll::spec_of(ItemId::GoldBar, 5, 10), 50u32),
    ]
}

/// Chests in the ruins of the underworld.
pub fn underworld_chest() -> (t: ChestLootTable)
    ensures
        t.primary@ == underworld_primary(),
        t.extras@ == underworld_extras(),
        t.wf(),
{
    let t = ChestLootTable {
        primary: vec![
            (LootRoll::of(ItemId::ObsidianCharm, 1, 1), 50),
            (LootRoll::of(ItemId::WarpMirror, 1, 1), 50),
        ],
        extras: vec![
            (LootRoll::of(ItemId::GoldCoin, 1, 3), 100),
            (LootRoll::of(ItemId::Hellstone, 10, 20), 100),
            (LootRoll::of(ItemId::HealingPotion, 2, 5), 100),
            (LootRoll::of(ItemId::GoldBar, 5, 10), 50),
        ],
    };
    assert(t.primary@ =~= underworld_primary());
    assert(t.extras@ =~= underworld_extras());
    t
}

pub open spec fn spec_pot_loot() -> Seq<(LootRoll, u32)> {
    seq![
        (LootRoll::spec_of(ItemId::SilverCoin, 1, 10), 50u32),
        (LootRoll::spec_of(ItemId::Torch, 3, 8), 20u32),
        (LootRoll::spec_of(ItemId::LesserHealingPotion, 1, 1), 15u32),
        (LootRoll::spec_of(ItemId::WoodenArrow, 10, 20), 10u32),
        (LootRoll::spec_of(ItemId::Gel, 1, 4), 5u32),
    ]
}

/// What a pot drops, by weight. Coins count for more in the deep.
pub fn pot_loot() -> (t: Vec<(LootRoll, u32)>)
    ensures
        t@ == spec_pot_loot(),
{
    let t = vec![
        (LootRoll::of(ItemId::SilverCoin, 1, 10), 50),
        (LootRoll::of(ItemId::Torch, 3, 8), 20),
        (LootRoll::of(ItemId::LesserHealingPotion, 1, 1), 15),
        (LootRoll::of(ItemId::WoodenArrow, 10, 20), 10),
        (LootRoll::of(ItemId::Gel, 1, 4), 5),
    ];
    assert(t@ =~= spec_pot_loot());
    t
}

pub const POT_COIN_MULT_SURFACE: u16 = 1;

pub const POT_COIN_MULT_CAVERN: u16 = 2;

pub const POT_COIN_MULT_UNDERWORLD: u16 = 4;

/// How many times over a pot at row `y` drops coins: caverns start at
/// `cavern_row`, the underworld at `underworld_row`.
pub fn pot_coin_mult(y: u32, cavern_row: u32, underworld_row: u32) -> (m: u16)
    ensures
        m == (if y >= underworld_row {
            POT_COIN_MULT_UNDERWORLD
        } else if y >= cavern_row {
            POT_COIN_MULT_CAVERN
        } else {
            POT_COIN_MULT_SURFACE
        }),
        y >= underworld_row ==> m == 4,
        cavern_row <= y < underworld_row ==> m == 2,
        y < cavern_row && y < underworld_row ==> m == 1,
{
    if y >= underworld_row {
        POT_COIN_MULT_UNDERWORLD
    } else if y >= cavern_row {
        POT_COIN_MULT_CAVERN
    } else {
        POT_COIN_MULT_SURFACE
    }
}

/// What a pot drops: entry `pick` of the table, its coins multiplied.
pub fn roll_pot(table: &Vec<(LootRoll, u32)>, pick: usize, throw: Throw, mult: u16) -> (s: InvSlot)
    requires
        pick < table.len(),
        table@[pick as int].0.wf(),
        table@[pick as int].0.max * mult <= u16::MAX,
    ensures
        ({
            let plain = table@[pick as int].0.thrown(throw);
            s == (if plain.item.spec_coin_value() is Some {
                InvSlot { item: plain.item, count: (plain.count * mult) as u16 }
            } else {
                plain
            })
        }),
{
    let s = table[pick].0.toss(throw);
    if s.item.coin_value().is_some() {
        assert(s.count * mult <= table@[pick as int].0.max * mult) by (nonlinear_arith)
            requires
                s.count <= table@[pick as int].0.max,
                0 <= mult,
        ;
        InvSlot { item: s.item, count: s.count * mult }
    } else {
        s
    }
}

/// The weights of the entries, added up.
pub open spec fn total_weight(table: Seq<(LootRoll, u32)>) -> int
    decreases table.len(),
{
    if table.len() == 0 {
        0
    } else {
        total_weight(table.drop_last()) + table.last().1
    }
}

/// The entry on which a throw of `at` out of the total weight lands.
pub open spec fn lands_on(table: Seq<(LootRoll, u32)>, at: int, i: int) -> bool {
    &&& 0 <= i < table.len()
    &&& total_weight(table.take(i)) <= at < total_weight(table.take(i + 1))
}

/// Picks an entry by weight; `None` if `at` is beyond the total weight.
pub fn pick_weighted(table: &Vec<(LootRoll, u32)>, at: u64) -> (pick: Option<usize>)
    requires
        table.len() <= u32::MAX,
    ensures
        match pick {
            Some(i) => lands_on(table@, at as int, i as int),
            None => at >= total_weight(table@),
        },
{
    let mut sum: u64 = 0;
    let mut i: usize = 0;
    assert(table@.take(0) =~= seq![]);
    while i < table.len()
        invariant
            table.len() <= u32::MAX,
            i <= table.len(),
            sum == total_weight(table@.take(i as int)),
            sum <= i * u32::MAX,
            sum <= at,
        decreases table.len() - i,
    {
        assert(table@.take(i + 1).drop_last() =~= table@.take(i as int));
        assert(i * u32::MAX + u32::MAX <= u64::MAX) by (nonlinear_arith)
            requires
                0 <= i < u32::MAX,
        ;
        assert((i + 1) * u32::MAX == i * u32::MAX + u32::MAX) by (nonlinear_arith);
        sum = sum + table[i].1 as u64;
        if at < sum {
            return Some(i);
        }
        i = i + 1;
    }
    assert(table@.take(i as int) =~= table@);
    None
}

/// The weights of the pot table add up to 100, those of each chest table too.
pub proof fn law_weights_total_100()
    ensures
        total_weight(spec_pot_loot()) == 100,
        total_weight(surface_primary()) == 100,
        total_weight(underground_primary()) == 100,
        total_weight(underworld_primary()) == 100,
{
    reveal_with_fuel(total_weight, 6);
    let p = spec_pot_loot();
    assert(p.drop_last().drop_last().drop_last().drop_last().drop_last() =~= seq![]);
    let p = underground_primary();
    assert(p.drop_last().drop_last().drop_last().drop_last().drop_last() =~= seq![]);
    let p = surface_primary();
    assert(p.drop_last().drop_last().drop_last().drop_last() =~= seq![]);
    let p = underworld_primary();
    assert(p.drop_last().drop_last() =~= seq![]);
}

/// What the first `n` extras add to a chest, in order.
pub open spec fn taken(extras: Seq<(LootRoll, u32)>, throws: Seq<Throw>, n: int) -> Seq<InvSlot>
    decreases n,
{
    if n <= 0 {
        seq![]
    } else {
        let before = taken(extras, throws, n - 1);
        let t = throws[n - 1];
        if t.hit < extras[n - 1].1 {
            before.push(extras[n - 1].0.thrown(t))
        } else {
            before
        }
    }
}

impl ChestLootTable {
    /// Every entry has a proper range, and all of it fits into a chest.
    pub open spec fn wf(&self) -> bool {
        &&& self.primary@.len() <= u32::MAX
        &&& self.extras@.len() < CHEST_SLOTS
        &&& forall|i: int| 0 <= i < self.primary@.len() ==> (#[trigger] self.primary@[i]).0.wf()
        &&& forall|i: int| 0 <= i < self.extras@.len() ==> (#[trigger] self.extras@[i]).0.wf()
    }
}

/// The entry that a draw of `at` picks: none beyond the total weight.
pub open spec fn is_pick(table: Seq<(LootRoll, u32)>, at: int, pick: Option<int>) -> bool {
    match pick {
        Some(i) => lands_on(table, at, i),
        None => at >= total_weight(table),
    }
}

/// The contents of a chest: the primary first, then the extras that hit.
pub open spec fn chest_contents(
    table: ChestLootTable,
    pick: Option<int>,
    first: Throw,
    throws: Seq<Throw>,
) -> Seq<InvSlot> {
    let head = match pick {
        Some(i) => seq![table.primary@[i].0.thrown(first)],
        None => seq![],
    };
    head + taken(table.extras@, throws, table.extras@.len() as int)
}

/// The slots hold `all`, from the first one on, and nothing else.
pub open spec fn packed(slots: Seq<Option<InvSlot>>, all: Seq<InvSlot>) -> bool {
    &&& slots.len() == CHEST_SLOTS
    &&& all.len() <= CHEST_SLOTS
    &&& forall|i: int|
        0 <= i < CHEST_SLOTS ==> #[trigger] slots[i] == (if i < all.len() {
            Some(all[i])
        } else {
            None
        })
}

/// Some slot holds what the throw for an extra gives, within its range.
pub open spec fn holds_extra(
    slots: Seq<Option<InvSlot>>,
    extras: Seq<(LootRoll, u32)>,
    throws: Seq<Throw>,
    i: int,
) -> bool {
    let s = extras[i].0.thrown(throws[i]);
    slots.contains(Some(s)) && extras[i].0.min <= s.count <= extras[i].0.max
}

/// The first slot holds what the first throw gives for one of the primaries,
/// within its range.
pub open spec fn holds_primary(
    slots: Seq<Option<InvSlot>>,
    primary: Seq<(LootRoll, u32)>,
    first: Throw,
) -> bool {
    exists|i: int|
        0 <= i < primary.len() && slots[0] == Some((#[trigger] primary[i]).0.thrown(first))
            && primary[i].0.min <= primary[i].0.thrown(first).count <= primary[i].0.max
}

/// Rolls the contents of a chest into a full set of slots: the draw `at`, out
/// of all weights, picks the primary, and each throw decides on one extra. The
/// primary comes first, and an extra that is certain is always there.
pub fn roll_chest(table: &ChestLootTable, at: u64, first: Throw, throws: &Vec<Throw>) -> (slots:
    Vec<Option<InvSlot>>)
    requires
        table.wf(),
        throws.len() == table.extras.len(),
        at < total_weight(table.primary@) || table.primary@.len() == 0,
        forall|i: int| 0 <= i < throws.len() ==> (#[trigger] throws@[i]).hit < 100,
    ensures
        table.primary@.len() > 0 ==> holds_primary(slots@, table.primary@, first),
        forall|i: int|
            0 <= i < table.extras@.len() && (#[trigger] table.extras@[i]).1 >= 100 ==> holds_extra(
                slots@,
                table.extras@,
                throws@,
                i,
            ),
        exists|pick: Option<int>| #[trigger]
            is_pick(table.primary@, at as int, pick) && packed(
                slots@,
                chest_contents(*table, pick, first, throws@),
            ),
{
    let mut slots: Vec<Option<InvSlot>> = Vec::new();
    let pick: Option<usize> = pick_weighted(&table.primary, at);
    let ghost chosen: Option<int> = match pick {
        Some(i) => Some(i as int),
        None => None,
    };
    assert(is_pick(table.primary@, at as int, chosen));
    match pick {
        Some(i) => {
            assert(table.primary@[i as int].0.wf());
            slots.push(Some(table.primary[i].0.toss(first)));
        },
        None => {},
    }
    let ghost head = match chosen {
        Some(i) => seq![table.primary@[i].0.thrown(first)],
        None => seq![],
    };
    let mut i: usize = 0;
    while i < table.extras.len()
        invariant
            i <= table.extras.len(),
            table.wf(),
            throws.len() == table.extras.len(),
            head.len() <= 1,
            slots.len() == (head + taken(table.extras@, throws@, i as int)).len(),
            slots.len() <= head.len() + i,
            forall|k: int|
                0 <= k < slots.len() ==> #[trigger] slots@[k] == Some(
                    (head + taken(table.extras@, throws@, i as int))[k],
                ),
        decreases table.extras.len() - i,
    {
        let t = throws[i];
        assert(table.extras@[i as int].0.wf());
        if t.hit < table.extras[i].1 {
            slots.push(Some(table.extras[i].0.toss(t)));
        }
        i = i + 1;
    }
    let ghost all = head + taken(table.extras@, throws@, i as int);
    while slots.len() < CHEST_SLOTS
        invariant
            slots.len() <= CHEST_SLOTS,
            all.len() <= slots.len(),
            forall|k: int|
                0 <= k < slots.len() ==> #[trigger] slots@[k] == (if k < all.len() {
                    Some(all[k])
                } else {
                    None
                }),
        decreases CHEST_SLOTS - slots.len(),
    {
        slots.push(None);
    }
    assert(packed(slots@, chest_contents(*table, chosen, first, throws@)));
    proof {
        let n = table.extras@.len() as int;
        assert forall|k: int|
            0 <= k < n && (#[trigger] table.extras@[k]).1 >= 100 implies holds_extra(
            slots@,
            table.extras@,
            throws@,
            k,
        ) by {
            assert(throws@[k].hit < 100);
            lemma_taken(table.extras@, throws@, n, k);
            let e = table.extras@[k].0;
            let s = taken(table.extras@, throws@, n);
            let m = s.index_of(e.thrown(throws@[k]));
            assert(all[head.len() + m] == s[m]);
            assert(slots@[head.len() + m] == Some(s[m]));
            lemma_in_range(e, throws@[k]);
        }
        if table.primary@.len() > 0 {
            let i = chosen->Some_0;
            assert(table.primary@[i].0.wf());
            lemma_in_range(table.primary@[i].0, first);
            assert(all[0] == head[0]);
            assert(slots@[0] == Some(table.primary@[i].0.thrown(first)));
        }
    }
    slots
}

/// A throw stays within the range of its entry.
proof fn lemma_in_range(e: LootRoll, t: Throw)
    requires
        e.wf(),
    ensures
        e.min <= e.thrown(t).count <= e.max,
{
    let span = e.max - e.min + 1;
    assert(0 <= t.spread as int % span < span) by (nonlinear_arith)
        requires
            span > 0,
    ;
}

/// A draw below the total weight always picks an entry.
proof fn lemma_pick(table: Seq<(LootRoll, u32)>, at: int, pick: Option<int>)
    requires
        is_pick(table, at, pick),
        at < total_weight(table),
    ensures
        pick is Some,
{
}

/// An extra that hits is among what was taken.
proof fn lemma_taken(extras: Seq<(LootRoll, u32)>, throws: Seq<Throw>, n: int, i: int)
    requires
        0 <= i < n <= extras.len(),
        throws[i].hit < extras[i].1,
    ensures
        taken(extras, throws, n).contains(extras[i].0.thrown(throws[i])),
    decreases n,
{
    let s = taken(extras, throws, n - 1);
    let t = taken(extras, throws, n);
    let e = extras[i].0.thrown(throws[i]);
    if i < n - 1 {
        lemma_taken(extras, throws, n - 1, i);
        let k = s.index_of(e);
        assert(t[k] == e);
    } else {
        assert(t[s.len() as int] == e);
    }
}

/// A chest holds its primary in the first slot and every extra that is certain
/// somewhere, each in its range.
pub proof fn law_chests_hold_what_is_certain(
    table: ChestLootTable,
    at: int,
    pick: Option<int>,
    first: Throw,
    throws: Seq<Throw>,
    i: int,
)
    requires
        table.wf(),
        is_pick(table.primary@, at, pick),
        0 <= at < total_weight(table.primary@),
        throws.len() == table.extras@.len(),
        0 <= i < table.extras@.len(),
        table.extras@[i].1 >= 100,
        throws[i].hit < 100,
    ensures
        ({
            let all = chest_contents(table, pick, first, throws);
            let e = table.extras@[i].0;
            &&& pick is Some
            &&& all[0] == table.primary@[pick->Some_0].0.thrown(first)
            &&& all.contains(e.thrown(throws[i]))
            &&& e.min <= e.thrown(throws[i]).count <= e.max
        }),
{
    lemma_pick(table.primary@, at, pick);
    let n = table.extras@.len() as int;
    let s = taken(table.extras@, throws, n);
    let all = chest_contents(table, pick, first, throws);
    let e = table.extras@[i].0;
    lemma_taken(table.extras@, throws, n, i);
    let k = s.index_of(e.thrown(throws[i]));
    assert(all[k + 1] == s[k]);
    assert(e.wf());
    lemma_in_range(e, throws[i]);
}

/// A chest under ground holds at least four stacks: its primary, coins,
/// potions and torches.
pub proof fn law_underground_chests_are_rich(
    table: ChestLootTable,
    at: int,
    pick: Option<int>,
    first: Throw,
    throws: Seq<Throw>,
)
    requires
        table.primary@ == underground_primary(),
        table.extras@ == underground_extras(),
        is_pick(table.primary@, at, pick),
        0 <= at < 100,
        throws.len() == 4,
        forall|i: int| 0 <= i < 4 ==> (#[trigger] throws[i]).hit < 100,
    ensures
        chest_contents(table, pick, first, throws).len() >= 4,
        chest_contents(table, pick, first, throws).contains(
            LootRoll::spec_of(ItemId::SilverCoin, 5, 20).thrown(throws[0]),
        ),
{
    law_weights_total_100();
    lemma_pick(table.primary@, at, pick);
    let x = table.extras@;
    reveal_with_fuel(taken, 5);
    assert(throws[0].hit < 100 && throws[2].hit < 100 && throws[3].hit < 100);
    lemma_taken(x, throws, 4, 0);
    let s = taken(x, throws, 4);
    let all = chest_contents(table, pick, first, throws);
    let k = s.index_of(x[0].0.thrown(throws[0]));
    assert(all[k + 1] == s[k]);
}

// ---- What is found where ---------------------------------------------------

/// A throw gives between the least and the most of its item, or of the other
/// one when it is swapped; every number between can come.
pub proof fn law_throws_keep_their_range(r: LootRoll, t: Throw)
    requires
        r.wf(),
    ensures
        r.min <= r.thrown(t).count <= r.max,
        t.spread <= r.max - r.min ==> r.thrown(t).count == r.min + t.spread,
        !t.swap || r.alt is None ==> r.thrown(t).item == r.item,
        t.swap && r.alt is Some ==> r.thrown(t).item == r.alt->Some_0,
{
    let n = r.max - r.min + 1;
    assert(0 <= (t.spread as int) % n < n) by (nonlinear_arith)
        requires
            n > 0,
    ;
    if t.spread < n {
        vstd::arithmetic::div_mod::lemma_small_mod(t.spread as nat, n as nat);
    }
}

/// Surface chests hold a jar, boots, a band or thirty arrows, each as likely;
/// always some silver and torches, and half of the time potions.
pub proof fn law_surface_chests_hold_first_finds(i: int)
    ensures
        surface_primary().len() == 4,
        0 <= i < 4 ==> {
            let (r, w) = surface_primary()[i];
            &&& w == 25 && r.alt is None
            &&& r.item == ItemId::GustJar || r.item == ItemId::SwiftBoots || r.item
                == ItemId::BandOfVigor || r.item == ItemId::WoodenArrow
            &&& r.item == ItemId::WoodenArrow ==> r.min == 30 && r.max == 30
            &&& r.item != ItemId::WoodenArrow ==> r.min == 1 && r.max == 1
        },
        surface_primary()[0].0.item != surface_primary()[1].0.item,
        surface_primary()[0].0.item != surface_primary()[2].0.item,
        surface_primary()[0].0.item != surface_primary()[3].0.item,
        surface_primary()[1].0.item != surface_primary()[2].0.item,
        surface_primary()[1].0.item != surface_primary()[3].0.item,
        surface_primary()[2].0.item != surface_primary()[3].0.item,
        surface_extras().len() == 3,
        0 <= i < 3 ==> {
            let (r, w) = surface_extras()[i];
            match r.item {
                ItemId::SilverCoin => w == 100 && r.min == 1 && r.max == 10,
                ItemId::Torch => w == 100 && r.min == 3 && r.max == 10,
                ItemId::LesserHealingPotion => w == 50 && r.min == 1 && r.max == 3,
                _ => false,
            }
        },
        surface_extras()[0].0.item != surface_extras()[1].0.item,
        surface_extras()[1].0.item != surface_extras()[2].0.item,
        surface_extras()[0].0.item != surface_extras()[2].0.item,
{
}

/// Underground chests add charms and mirrors, and hold more: silver, potions
/// and torches always, bars half of the time.
pub proof fn law_underground_chests_hold_more(i: int)
    ensures
        underground_primary().len() == 5,
        0 <= i < 5 ==> {
            let (r, w) = underground_primary()[i];
            &&& r.min == 1 && r.max == 1 && r.alt is None
            &&& match r.item {
                ItemId::SwiftBoots => w == 20,
                ItemId::GustJar => w == 20,
                ItemId::LuckyCharm => w == 20,
                ItemId::WarpMirror => w == 15,
                ItemId::BandOfVigor => w == 25,
                _ => false,
            }
        },
        underground_extras().len() == 4,
        0 <= i < 4 ==> {
            let (r, w) = underground_extras()[i];
            match r.item {
                ItemId::SilverCoin => w == 100 && r.min == 5 && r.max == 20 && r.alt is None,
                ItemId::SilverBar => w == 50 && r.min == 3 && r.max == 8 && r.alt == Some(
                    ItemId::GoldBar,
                ),
                ItemId::LesserHealingPotion => w == 100 && r.min == 2 && r.max == 5 && r.alt is None,
                ItemId::Torch => w == 100 && r.min == 5 && r.max == 15 && r.alt is None,
                _ => false,
            }
        },
        underground_extras()[0].0.item != underground_extras()[1].0.item
            && underground_extras()[0].0.item != underground_extras()[2].0.item
            && underground_extras()[0].0.item != underground_extras()[3].0.item
            && underground_extras()[1].0.item != underground_extras()[2].0.item
            && underground_extras()[1].0.item != underground_extras()[3].0.item
            && underground_extras()[2].0.item != underground_extras()[3].0.item,
{
}

/// Chests of the underworld hold a charm against fire or a mirror; always
/// gold, hellstone and strong potions, and half of the time gold bars.
pub proof fn law_underworld_chests_hold_gold(i: int)
    ensures
        underworld_primary().len() == 2,
        0 <= i < 2 ==> {
            let (r, w) = underworld_primary()[i];
            &&& w == 50 && r.min == 1 && r.max == 1
            &&& r.item == ItemId::ObsidianCharm || r.item == ItemId::WarpMirror
        },
        underworld_primary()[0].0.item != underworld_primary()[1].0.item,
        underworld_extras().len() == 4,
        0 <= i < 4 ==> {
            let (r, w) = underworld_extras()[i];
            match r.item {
                ItemId::GoldCoin => w == 100 && r.min == 1 && r.max == 3,
                ItemId::Hellstone => w == 100 && r.min == 10 && r.max == 20,
                ItemId::HealingPotion => w == 100 && r.min == 2 && r.max == 5,
                ItemId::GoldBar => w == 50 && r.min == 5 && r.max == 10,
                _ => false,
            }
        },
        underworld_extras()[0].0.item != underworld_extras()[1].0.item
            && underworld_extras()[0].0.item != underworld_extras()[2].0.item
            && underworld_extras()[0].0.item != underworld_extras()[3].0.item
            && underworld_extras()[1].0.item != underworld_extras()[2].0.item
            && underworld_extras()[1].0.item != underworld_extras()[3].0.item
            && underworld_extras()[2].0.item != underworld_extras()[3].0.item,
{
}

/// Pots hold silver half of the time, and else torches, a potion, arrows or
/// gel, the rarer the further down.
pub proof fn law_pots_hold_small_things(i: int)
    ensures
        spec_pot_loot().len() == 5,
        0 <= i < 5 ==> {
            let (r, w) = spec_pot_loot()[i];
            match r.item {
                ItemId::SilverCoin => w == 50 && r.min == 1 && r.max == 10,
                ItemId::Torch => w == 20 && r.min == 3 && r.max == 8,
                ItemId::LesserHealingPotion => w == 15 && r.min == 1 && r.max == 1,
                ItemId::WoodenArrow => w == 10 && r.min == 10 && r.max == 20,
                ItemId::Gel => w == 5 && r.min == 1 && r.max == 4,
                _ => false,
            }
        },
        forall|a: int, b: int|
            0 <= a < b < 5 ==> (#[trigger] spec_pot_loot()[a]).1 > (#[trigger] spec_pot_loot()[b]).1,
{
    let t = spec_pot_loot();
    assert(t[0].1 == 50 && t[1].1 == 20 && t[2].1 == 15 && t[3].1 == 10 && t[4].1 == 5);
    assert forall|a: int, b: int| 0 <= a < b < 5 implies (#[trigger] t[a]).1 > (
    #[trigger] t[b]).1 by {
        assert(a == 0 || a == 1 || a == 2 || a == 3);
        assert(b == 1 || b == 2 || b == 3 || b == 4);
    }
}

/// Every row of a table is drawn as often as its weight says: a draw lands on
/// the one row whose share it falls into.
pub proof fn law_draws_land_by_weight(table: Seq<(LootRoll, u32)>, at: int, i: int, j: int)
    requires
        lands_on(table, at, i),
        lands_on(table, at, j),
    ensures
        i == j,
        table[i].1 > 0,
        total_weight(table.take(i + 1)) - total_weight(table.take(i)) == table[i].1,
{
    lemma_share(table, i);
    lemma_share(table, j);
    if i < j {
        lemma_weights_grow(table, i + 1, j);
    } else if j < i {
        lemma_weights_grow(table, j + 1, i);
    }
}

proof fn lemma_share(table: Seq<(LootRoll, u32)>, i: int)
    requires
        0 <= i < table.len(),
    ensures
        total_weight(table.take(i + 1)) == total_weight(table.take(i)) + table[i].1,
{
    assert(table.take(i + 1).drop_last() =~= table.take(i));
}

proof fn lemma_weights_grow(table: Seq<(LootRoll, u32)>, i: int, j: int)
    requires
        0 <= i <= j <= table.len(),
    ensures
        total_weight(table.take(i)) <= total_weight(table.take(j)),
    decreases j - i,
{
    if i < j {
        lemma_weights_grow(table, i, j - 1);
        lemma_share(table, j - 1);
    }
}

/// The extras that come along are those whose throw stays under their chance.
pub proof fn law_extras_come_by_chance(
    extras: Seq<(LootRoll, u32)>,
    throws: Seq<Throw>,
    n: int,
    i: int,
)
    requires
        0 <= i < n <= extras.len(),
        n <= throws.len(),
    ensures
        throws[i].hit < extras[i].1 ==> taken(extras, throws, n).contains(
            extras[i].0.thrown(throws[i]),
        ),
        (forall|k: int| 0 <= k < n ==> (#[trigger] throws[k]).hit >= extras[k].1) ==> taken(
            extras,
            throws,
            n,
        ).len() == 0,
    decreases n,
{
    let (before, after) = (taken(extras, throws, n - 1), taken(extras, throws, n));
    let what = extras[i].0.thrown(throws[i]);
    if i < n - 1 {
        law_extras_come_by_chance(extras, throws, n - 1, i);
        if before.contains(what) {
            assert(after[before.index_of(what)] == what);
        }
    } else if throws[i].hit < extras[i].1 {
        assert(after[before.len() as int] == what);
    }
    if forall|k: int| 0 <= k < n ==> (#[trigger] throws[k]).hit >= extras[k].1 {
        lemma_none_taken(extras, throws, n);
    }
}

proof fn lemma_none_taken(extras: Seq<(LootRoll, u32)>, throws: Seq<Throw>, n: int)
    requires
        n <= throws.len(),
        forall|k: int| 0 <= k < n ==> (#[trigger] throws[k]).hit >= extras[k].1,
    ensures
        taken(extras, throws, n).len() == 0,
    decreases n,
{
    if n > 0 {
        lemma_none_taken(extras, throws, n - 1);
        assert(throws[n - 1].hit >= extras[n - 1].1);
    }
}

} // verus!
