use ferraria::worldgen::loot::pot_loot;

#[test]
fn pot_weights_total_100() {
    assert_eq!(pot_loot().iter().map(|e| e.1).sum::<u32>(), 100);
}
