use ferraria::client::hud::{coin_total, count_buf, drop_label, format_coins, glyph_code};
use ferraria::item::{InvSlot, ItemId, INVENTORY_SLOTS, TRASH};

#[test]
fn coin_formatting() {
    assert_eq!(format_coins(0), "0c");
    assert_eq!(format_coins(99), "99c");
    assert_eq!(format_coins(100), "1s");
    assert_eq!(format_coins(10_203), "1g 2s 3c");
    assert_eq!(format_coins(1_000_000), "1p");
    assert_eq!(format_coins(1_234_567), "1p 23g 45s 67c");
}

#[test]
fn coin_total_counts_carried_coins_only() {
    let mut inv = vec![None; INVENTORY_SLOTS];
    inv[0] = Some(InvSlot::new(ItemId::GoldCoin, 2));
    inv[11] = Some(InvSlot::new(ItemId::CopperCoin, 34));
    inv[12] = Some(InvSlot::new(ItemId::GoldBar, 5)); // not a coin
    inv[TRASH] = Some(InvSlot::new(ItemId::PlatinumCoin, 1)); // trash doesn't count
    assert_eq!(coin_total(&inv), 20_034);
}

#[test]
fn glyph_codes() {
    assert_eq!(glyph_code("Wood").as_str(), "Wo");
    assert_eq!(glyph_code("Wood Pickaxe").as_str(), "WP");
    assert_eq!(glyph_code("Gel").as_str(), "Ge");
    assert_eq!(glyph_code("Lesser Healing Potion").as_str(), "LH");
}

#[test]
fn count_buffer() {
    assert_eq!(count_buf(1).as_str(), "1");
    assert_eq!(count_buf(999).as_str(), "999");
    assert_eq!(count_buf(65535).as_str(), "65535");
}

#[test]
fn drops_show_a_count_above_one() {
    assert_eq!(drop_label("Wood", 1), "Wood");
    assert_eq!(drop_label("Wood", 12), "Wood (12)");
}
