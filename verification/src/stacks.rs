//! Taking items out of slots and putting them in.

use vstd::prelude::*;

use crate::item::{item_count, InvSlot, ItemId};

verus! {

pub open spec fn min(a: int, b: int) -> int {
    if a < b {
        a
    } else {
        b
    }
}

/// `a - b`, but not below zero.
pub open spec fn monus(a: int, b: int) -> int {
    if a < b {
        0
    } else {
        a - b
    }
}

/// How many of `item` a slot holds.
pub open spec fn holds(slot: Option<InvSlot>, item: ItemId) -> int {
    match slot {
        Some(s) if s.item == item => s.count as int,
        _ => 0,
    }
}

/// A slot of `n` items; an empty one for none.
pub open spec fn slot_of(item: ItemId, n: int) -> Option<InvSlot> {
    if n <= 0 {
        None
    } else {
        Some(InvSlot { item, count: n as u16 })
    }
}

/// Items in the slots before `i`.
pub open spec fn count_before(slots: Seq<Option<InvSlot>>, item: ItemId, i: int) -> int
    decreases i,
{
    if i <= 0 {
        0
    } else {
        count_before(slots, item, i - 1) + holds(slots[i - 1], item)
    }
}

pub proof fn lemma_count_before(slots: Seq<Option<InvSlot>>, item: ItemId, i: int)
    requires
        0 <= i <= slots.len(),
    ensures
        count_before(slots, item, i) == item_count(slots.take(i), item),
    decreases i,
{
    if i > 0 {
        lemma_count_before(slots, item, i - 1);
        assert(slots.take(i).drop_last() =~= slots.take(i - 1));
    }
}

/// How many of `n` items are taken from slot `i` when the first slots are
/// emptied first.
pub open spec fn taken_from(slots: Seq<Option<InvSlot>>, item: ItemId, n: int, i: int) -> int {
    min(holds(slots[i], item), monus(n, count_before(slots, item, i)))
}

/// Slot `i` after taking out `n` of `item`.
pub open spec fn slot_without(
    slots: Seq<Option<InvSlot>>,
    item: ItemId,
    n: int,
    i: int,
) -> Option<InvSlot> {
    if taken_from(slots, item, n, i) > 0 {
        slot_of(item, holds(slots[i], item) - taken_from(slots, item, n, i))
    } else {
        slots[i]
    }
}

/// `after` is `before` with `n` of `item` taken out of the slots before `end`.
pub open spec fn without(
    before: Seq<Option<InvSlot>>,
    after: Seq<Option<InvSlot>>,
    item: ItemId,
    n: int,
    end: int,
) -> bool {
    &&& after.len() == before.len()
    &&& forall|i: int|
        0 <= i < before.len() ==> #[trigger] after[i] == (if i < end {
            slot_without(before, item, n, i)
        } else {
            before[i]
        })
}

/// Takes `n` of `item` out of the slots before `end`, the first slots first.
/// The slots must hold that many.
pub fn take_items(slots: &mut Vec<Option<InvSlot>>, item: ItemId, n: u16, end: usize)
    requires
        end <= old(slots).len(),
        n <= count_before(old(slots)@, item, end as int),
    ensures
        without(old(slots)@, final(slots)@, item, n as int, end as int),
{
    let ghost before = slots@;
    let mut left: u16 = n;
    let mut i: usize = 0;
    while i < end
        invariant
            i <= end <= slots.len(),
            slots@.len() == before.len(),
            left == monus(n as int, count_before(before, item, i as int)),
            forall|k: int|
                0 <= k < before.len() ==> #[trigger] slots@[k] == (if k < i {
                    slot_without(before, item, n as int, k)
                } else {
                    before[k]
                }),
        decreases end - i,
    {
        assert(slots@[i as int] == before[i as int]);
        match slots[i] {
            Some(s) => {
                if s.item == item && left > 0 {
                    let t: u16 = if s.count < left {
                        s.count
                    } else {
                        left
                    };
                    if t > 0 {
                        if t == s.count {
                            slots.set(i, None);
                        } else {
                            slots.set(i, Some(InvSlot { item, count: s.count - t }));
                        }
                    }
                    left = left - t;
                }
            },
            None => {},
        }
        i = i + 1;
    }
}

/// Taking items out removes exactly them: `n` of `item` and nothing else.
pub proof fn law_take_removes_exactly(
    before: Seq<Option<InvSlot>>,
    after: Seq<Option<InvSlot>>,
    item: ItemId,
    n: int,
    end: int,
    other: ItemId,
)
    requires
        without(before, after, item, n, end),
        0 <= end <= before.len(),
        0 <= n <= count_before(before, item, end),
    ensures
        item_count(after, other) == item_count(before, other) - (if other == item {
            n
        } else {
            0
        }),
{
    lemma_take_counts(before, after, item, n, end, other, before.len() as int);
    lemma_count_before(before, other, before.len() as int);
    lemma_count_before(after, other, after.len() as int);
    assert(before.take(before.len() as int) =~= before);
    assert(after.take(after.len() as int) =~= after);
    lemma_count_monotone(before, item, end, before.len() as int);
}

pub proof fn lemma_count_monotone(slots: Seq<Option<InvSlot>>, item: ItemId, i: int, j: int)
    requires
        i <= j,
    ensures
        0 <= count_before(slots, item, i) <= count_before(slots, item, j),
    decreases j,
{
    if j > 0 {
        if i < j {
            lemma_count_monotone(slots, item, i, j - 1);
        } else {
            lemma_count_monotone(slots, item, i - 1, j - 1);
        }
    }
}

proof fn lemma_take_counts(
    before: Seq<Option<InvSlot>>,
    after: Seq<Option<InvSlot>>,
    item: ItemId,
    n: int,
    end: int,
    other: ItemId,
    i: int,
)
    requires
        without(before, after, item, n, end),
        0 <= i <= before.len(),
        0 <= end <= before.len(),
        0 <= n <= count_before(before, item, end),
    ensures
        count_before(after, other, i) == count_before(before, other, i) - (if other == item {
            min(
                n,
                count_before(
                    before,
                    item,
                    if i < end {
                        i
                    } else {
                        end
                    },
                ),
            )
        } else {
            0
        }),
    decreases i,
{
    if i > 0 {
        lemma_take_counts(before, after, item, n, end, other, i - 1);
        assert(after[i - 1] == (if i - 1 < end {
            slot_without(before, item, n, i - 1)
        } else {
            before[i - 1]
        }));
        lemma_count_monotone(before, item, 0, i - 1);
    } else {
        lemma_count_monotone(before, item, 0, end);
    }
}

// ---- Putting in ------------------------------------------------------------

/// How many more of `item` fit onto a stack of it.
pub open spec fn room(slot: Option<InvSlot>, item: ItemId, max_stack: int) -> int {
    match slot {
        Some(s) if s.item == item => monus(max_stack, s.count as int),
        _ => 0,
    }
}

pub open spec fn room_before(
    slots: Seq<Option<InvSlot>>,
    item: ItemId,
    max_stack: int,
    i: int,
) -> int
    decreases i,
{
    if i <= 0 {
        0
    } else {
        room_before(slots, item, max_stack, i - 1) + room(slots[i - 1], item, max_stack)
    }
}

/// Room in the empty slots before `i`.
pub open spec fn empty_before(slots: Seq<Option<InvSlot>>, max_stack: int, i: int) -> int
    decreases i,
{
    if i <= 0 {
        0
    } else {
        empty_before(slots, max_stack, i - 1) + if slots[i - 1] is None {
            max_stack
        } else {
            0
        }
    }
}

/// How many of `n` new items come to slot `i`: stacks of the item are filled
/// up first, then empty slots, each in order.
pub open spec fn put_into(
    slots: Seq<Option<InvSlot>>,
    item: ItemId,
    n: int,
    max_stack: int,
    end: int,
    i: int,
) -> int {
    match slots[i] {
        Some(s) => min(
            room(slots[i], item, max_stack),
            monus(n, room_before(slots, item, max_stack, i)),
        ),
        None => min(
            max_stack,
            monus(
                monus(n, room_before(slots, item, max_stack, end)),
                empty_before(slots, max_stack, i),
            ),
        ),
    }
}

pub open spec fn slot_with(
    slots: Seq<Option<InvSlot>>,
    item: ItemId,
    n: int,
    max_stack: int,
    end: int,
    i: int,
) -> Option<InvSlot> {
    let put = put_into(slots, item, n, max_stack, end, i);
    if put > 0 {
        slot_of(item, holds(slots[i], item) + put)
    } else {
        slots[i]
    }
}

/// `after` is `before` with up to `n` of `item` put into the slots before
/// `end`.
pub open spec fn with_items(
    before: Seq<Option<InvSlot>>,
    after: Seq<Option<InvSlot>>,
    item: ItemId,
    n: int,
    max_stack: int,
    end: int,
) -> bool {
    &&& after.len() == before.len()
    &&& forall|i: int|
        0 <= i < before.len() ==> #[trigger] after[i] == (if i < end {
            slot_with(before, item, n, max_stack, end, i)
        } else {
            before[i]
        })
}

/// How many of `n` items find no room.
pub open spec fn leftover(
    slots: Seq<Option<InvSlot>>,
    item: ItemId,
    n: int,
    max_stack: int,
    end: int,
) -> int {
    monus(
        n,
        room_before(slots, item, max_stack, end) + empty_before(slots, max_stack, end),
    )
}

proof fn lemma_room_monotone(
    slots: Seq<Option<InvSlot>>,
    item: ItemId,
    max_stack: int,
    i: int,
    j: int,
)
    requires
        i <= j,
        0 <= max_stack,
    ensures
        0 <= room_before(slots, item, max_stack, i) <= room_before(slots, item, max_stack, j),
        0 <= empty_before(slots, max_stack, i) <= empty_before(slots, max_stack, j),
    decreases j,
{
    if j > 0 {
        if i < j {
            lemma_room_monotone(slots, item, max_stack, i, j - 1);
        } else {
            lemma_room_monotone(slots, item, max_stack, i - 1, j - 1);
        }
    }
}

/// Puts `n` of `item` into the slots before `end`; returns how many found no
/// room.
pub fn add_items(
    slots: &mut Vec<Option<InvSlot>>,
    item: ItemId,
    n: u16,
    max_stack: u16,
    end: usize,
) -> (left: u16)
    requires
        end <= old(slots).len(),
        max_stack >= 1,
    ensures
        with_items(old(slots)@, final(slots)@, item, n as int, max_stack as int, end as int),
        left == leftover(old(slots)@, item, n as int, max_stack as int, end as int),
{
    let ghost before = slots@;
    let ghost m = max_stack as int;
    let mut left: u16 = n;
    let mut i: usize = 0;
    while i < end
        invariant
            i <= end <= slots.len(),
            m == max_stack,
            slots@.len() == before.len(),
            left == monus(n as int, room_before(before, item, m, i as int)),
            forall|k: int|
                0 <= k < before.len() ==> #[trigger] slots@[k] == (if k < i && before[k] is Some {
                    slot_with(before, item, n as int, m, end as int, k)
                } else {
                    before[k]
                }),
        decreases end - i,
    {
        assert(slots@[i as int] == before[i as int]);
        proof {
            lemma_room_monotone(before, item, m, 0, i as int);
        }
        match slots[i] {
            Some(s) => {
                if s.item == item && s.count < max_stack && left > 0 {
                    let free: u16 = max_stack - s.count;
                    let t: u16 = if free < left {
                        free
                    } else {
                        left
                    };
                    slots.set(i, Some(InvSlot { item, count: s.count + t }));
                    left = left - t;
                }
            },
            None => {},
        }
        i = i + 1;
    }
    let ghost rest = left as int;
    let mut j: usize = 0;
    while j < end
        invariant
            j <= end <= slots.len(),
            m == max_stack,
            m >= 1,
            slots@.len() == before.len(),
            rest == monus(n as int, room_before(before, item, m, end as int)),
            left == monus(rest, empty_before(before, m, j as int)),
            forall|k: int|
                0 <= k < before.len() ==> #[trigger] slots@[k] == (if k < end && (before[k] is Some
                    || k < j) {
                    slot_with(before, item, n as int, m, end as int, k)
                } else {
                    before[k]
                }),
        decreases end - j,
    {
        proof {
            lemma_room_monotone(before, item, m, 0, j as int);
        }
        if slots[j].is_none() && left > 0 {
            proof {
                if before[j as int] is Some {
                    assert(slots@[j as int] == slot_with(
                        before,
                        item,
                        n as int,
                        m,
                        end as int,
                        j as int,
                    ));
                    assert(false);
                }
            }
            let t: u16 = if max_stack < left {
                max_stack
            } else {
                left
            };
            slots.set(j, Some(InvSlot { item, count: t }));
            left = left - t;
        }
        j = j + 1;
    }
    proof {
        lemma_room_monotone(before, item, m, 0, end as int);
    }
    left
}

/// Nothing is lost or made: what is put in and what finds no room add up, and
/// other items stay as they were.
pub proof fn law_add_keeps_count(
    before: Seq<Option<InvSlot>>,
    after: Seq<Option<InvSlot>>,
    item: ItemId,
    n: int,
    max_stack: int,
    end: int,
    other: ItemId,
)
    requires
        with_items(before, after, item, n, max_stack, end),
        0 <= end <= before.len(),
        0 <= n <= u16::MAX,
        1 <= max_stack <= u16::MAX,
    ensures
        item_count(after, other) == item_count(before, other) + (if other == item {
            n - leftover(before, item, n, max_stack, end)
        } else {
            0
        }),
{
    lemma_add_counts(before, after, item, n, max_stack, end, other, before.len() as int);
    lemma_count_before(before, other, before.len() as int);
    lemma_count_before(after, other, after.len() as int);
    assert(before.take(before.len() as int) =~= before);
    assert(after.take(after.len() as int) =~= after);
    lemma_room_monotone(before, item, max_stack, 0, end);
}

proof fn lemma_add_counts(
    before: Seq<Option<InvSlot>>,
    after: Seq<Option<InvSlot>>,
    item: ItemId,
    n: int,
    max_stack: int,
    end: int,
    other: ItemId,
    i: int,
)
    requires
        with_items(before, after, item, n, max_stack, end),
        0 <= i <= before.len(),
        0 <= end <= before.len(),
        0 <= n <= u16::MAX,
        1 <= max_stack <= u16::MAX,
    ensures
        ({
            let e = if i < end {
                i
            } else {
                end
            };
            count_before(after, other, i) == count_before(before, other, i) + (if other == item {
                min(n, room_before(before, item, max_stack, e)) + min(
                    monus(n, room_before(before, item, max_stack, end)),
                    empty_before(before, max_stack, e),
                )
            } else {
                0
            })
        }),
    decreases i,
{
    lemma_room_monotone(before, item, max_stack, 0, i);
    lemma_room_monotone(before, item, max_stack, 0, end);
    if i > 0 {
        lemma_add_counts(before, after, item, n, max_stack, end, other, i - 1);
        assert(after[i - 1] == (if i - 1 < end {
            slot_with(before, item, n, max_stack, end, i - 1)
        } else {
            before[i - 1]
        }));
        lemma_room_monotone(before, item, max_stack, 0, i - 1);
    }
}

/// A stack never grows beyond its limit: slots that kept to it still do.
pub proof fn law_add_keeps_limit(
    before: Seq<Option<InvSlot>>,
    after: Seq<Option<InvSlot>>,
    item: ItemId,
    n: int,
    max_stack: int,
    end: int,
    i: int,
)
    requires
        with_items(before, after, item, n, max_stack, end),
        0 <= i < before.len(),
        0 <= end,
        0 <= n,
        1 <= max_stack <= u16::MAX,
        holds(before[i], item) <= max_stack,
    ensures
        holds(after[i], item) <= max_stack,
{
    lemma_room_monotone(before, item, max_stack, 0, i);
    lemma_room_monotone(before, item, max_stack, 0, end);
}

/// A copy of slots.
pub fn copy_slots(slots: &Vec<Option<InvSlot>>) -> (copy: Vec<Option<InvSlot>>)
    ensures
        copy@ == slots@,
{
    let mut copy: Vec<Option<InvSlot>> = Vec::new();
    let mut i: usize = 0;
    while i < slots.len()
        invariant
            i <= slots.len(),
            copy@ == slots@.take(i as int),
        decreases slots.len() - i,
    {
        copy.push(slots[i]);
        i = i + 1;
        assert(slots@.take(i as int) =~= slots@.take(i - 1).push(slots@[i - 1]));
    }
    assert(slots@.take(slots@.len() as int) =~= slots@);
    copy
}

/// Items are put away as far as there is room: if any are left over, every
/// stack of them is full and no slot is empty; and none are left over while
/// they fit an empty slot.
pub proof fn law_only_what_does_not_fit_is_left(
    before: Seq<Option<InvSlot>>,
    item: ItemId,
    n: int,
    max_stack: int,
    end: int,
    i: int,
)
    requires
        0 <= i < end <= before.len(),
        0 <= n,
        1 <= max_stack <= u16::MAX,
    ensures
        0 <= leftover(before, item, n, max_stack, end) <= n,
        before[i] is None && n <= max_stack ==> leftover(before, item, n, max_stack, end) == 0,
        before[i] is Some && before[i]->Some_0.item == item && before[i]->Some_0.count + n
            <= max_stack ==> leftover(before, item, n, max_stack, end) == 0,
        (forall|k: int|
            0 <= k < end ==> (#[trigger] before[k]) is Some && (before[k]->Some_0.item != item
                || before[k]->Some_0.count >= max_stack)) ==> leftover(
            before,
            item,
            n,
            max_stack,
            end,
        ) == n,
{
    lemma_room_monotone(before, item, max_stack, 0, i);
    lemma_room_monotone(before, item, max_stack, i, i + 1);
    lemma_room_monotone(before, item, max_stack, i + 1, end);
    if forall|k: int|
        0 <= k < end ==> (#[trigger] before[k]) is Some && (before[k]->Some_0.item != item
            || before[k]->Some_0.count >= max_stack) {
        lemma_no_room(before, item, max_stack, end);
    }
}

proof fn lemma_no_room(slots: Seq<Option<InvSlot>>, item: ItemId, max_stack: int, end: int)
    requires
        0 <= end <= slots.len(),
        forall|k: int|
            0 <= k < end ==> (#[trigger] slots[k]) is Some && (slots[k]->Some_0.item != item
                || slots[k]->Some_0.count >= max_stack),
    ensures
        room_before(slots, item, max_stack, end) == 0,
        empty_before(slots, max_stack, end) == 0,
    decreases end,
{
    if end > 0 {
        lemma_no_room(slots, item, max_stack, end - 1);
        assert(slots[end - 1] is Some);
    }
}

/// Items go onto the first stack of their kind that has room, and into an
/// empty slot only when no stack has; other items stay where they are.
pub proof fn law_stacks_fill_before_slots(
    before: Seq<Option<InvSlot>>,
    after: Seq<Option<InvSlot>>,
    item: ItemId,
    n: int,
    max_stack: int,
    end: int,
    i: int,
    k: int,
)
    requires
        with_items(before, after, item, n, max_stack, end),
        0 <= i < end <= before.len(),
        0 <= k < before.len(),
        0 <= n <= u16::MAX,
        1 <= max_stack <= u16::MAX,
        before[i] is Some && before[i]->Some_0.item == item,
        before[i]->Some_0.count + n <= max_stack,
        forall|m: int|
            0 <= m < i ==> (#[trigger] before[m]) is None || before[m]->Some_0.item != item,
    ensures
        n > 0 ==> after[i] == Some(InvSlot { item, count: (before[i]->Some_0.count + n) as u16 }),
        k != i ==> after[k] == before[k],
{
    lemma_no_stack(before, item, max_stack, i);
    lemma_room_monotone(before, item, max_stack, i + 1, end);
    lemma_room_monotone(before, item, max_stack, 0, k);
    lemma_room_monotone(before, item, max_stack, 0, end);
    assert(room_before(before, item, max_stack, i + 1) == max_stack - before[i]->Some_0.count);
    if k != i && k < end {
        if k > i {
            lemma_room_monotone(before, item, max_stack, i + 1, k);
        } else {
            assert(before[k] is None || before[k]->Some_0.item != item);
        }
    }
    assert(after[k] == after[k]);
    assert(after[i] == slot_with(before, item, n, max_stack, end, i));
}

proof fn lemma_no_stack(slots: Seq<Option<InvSlot>>, item: ItemId, max_stack: int, end: int)
    requires
        0 <= end <= slots.len(),
        forall|m: int|
            0 <= m < end ==> (#[trigger] slots[m]) is None || slots[m]->Some_0.item != item,
    ensures
        room_before(slots, item, max_stack, end) == 0,
    decreases end,
{
    if end > 0 {
        lemma_no_stack(slots, item, max_stack, end - 1);
        assert(slots[end - 1] is None || slots[end - 1]->Some_0.item != item);
    }
}

} // verus!
