//! Choosing a slot of the hotbar.

use vstd::prelude::*;

use crate::item::HOTBAR;

verus! {

/// A turn of the mouse wheel.
#[derive(Debug, Clone, Copy, PartialEq, Eq, Structural)]
pub enum Wheel {
    Still,
    Up,
    Down,
}

/// The slot after the first `n` digit keys: the last one pressed counts.
pub open spec fn keyed(selected: u8, keys: Seq<bool>, n: nat) -> u8
    decreases n,
{
    if n == 0 {
        selected
    } else if keys[n - 1] {
        (n - 1) as u8
    } else {
        keyed(selected, keys, (n - 1) as nat)
    }
}

/// The slot after a turn of the wheel, around the ends.
pub open spec fn turned(selected: u8, wheel: Wheel) -> u8 {
    match wheel {
        Wheel::Still => selected,
        Wheel::Up => ((selected + 9) % 10) as u8,
        Wheel::Down => ((selected + 1) % 10) as u8,
    }
}

/// Applies the keys and the wheel of a frame. Says whether the slot changed.
pub fn selection_input(selected: &mut u8, keys: &Vec<bool>, wheel: Wheel) -> (changed: bool)
    requires
        *old(selected) < HOTBAR,
        keys.len() == HOTBAR,
    ensures
        *final(selected) == turned(keyed(*old(selected), keys@, 10), wheel),
        *final(selected) < HOTBAR,
        changed == (*final(selected) != *old(selected)),
{
    let before: u8 = *selected;
    let mut i: usize = 0;
    while i < HOTBAR
        invariant
            i <= HOTBAR,
            keys.len() == HOTBAR,
            *selected < HOTBAR,
            before == *old(selected),
            *selected == keyed(before, keys@, i as nat),
        decreases HOTBAR - i,
    {
        if keys[i] {
            *selected = i as u8;
        }
        i = i + 1;
    }
    match wheel {
        Wheel::Still => {},
        Wheel::Up => {
            *selected = (*selected + 9) % 10;
        },
        Wheel::Down => {
            *selected = (*selected + 1) % 10;
        },
    }
    *selected != before
}

/// A turn up and a turn down undo each other.
pub proof fn law_wheel_turns_back(selected: u8)
    requires
        selected < HOTBAR,
    ensures
        turned(turned(selected, Wheel::Up), Wheel::Down) == selected,
        turned(turned(selected, Wheel::Down), Wheel::Up) == selected,
{
}

/// Of several number keys pressed at once the last one counts, and without any the slot stays.
pub proof fn law_the_last_key_counts(selected: u8, keys: Seq<bool>, n: nat)
    requires
        n <= keys.len(),
        n <= 10,
    ensures
        forall|k: int|
            0 <= k < n && #[trigger] keys[k] && (forall|j: int| k < j < n ==> !#[trigger] keys[j])
                ==> keyed(selected, keys, n) == k,
        (forall|j: int| 0 <= j < n ==> !#[trigger] keys[j]) ==> keyed(selected, keys, n) == selected,
    decreases n,
{
    if n > 0 {
        law_the_last_key_counts(selected, keys, (n - 1) as nat);
    }
}

/// The wheel goes round the ten slots: up to the slot on the left, down to the slot on the right.
pub proof fn law_the_wheel_steps_by_one(selected: u8)
    requires
        selected < 10,
    ensures
        turned(selected, Wheel::Still) == selected,
        turned(selected, Wheel::Up) == if selected == 0 {
            9
        } else {
            selected - 1
        },
        turned(selected, Wheel::Down) == if selected == 9 {
            0
        } else {
            selected + 1
        },
{
}

} // verus!
