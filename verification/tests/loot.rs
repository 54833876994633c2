use sim_core::gather::{cell_key as cell, GatherContent, ItemStack};
use sim_core::limits::{INV_SLOTS, MAX_LOOT_TABLES};
use sim_core::loot::{LootContent, LOOT_BARREL, LOOT_CRATE};

fn splitmix64(x: u64) -> u64 {
    let mut z = x.wrapping_add(0x9E37_79B9_7F4A_7C15);
    z = (z ^ (z >> 30)).wrapping_mul(0xBF58_476D_1CE4_E5B9);
    z = (z ^ (z >> 27)).wrapping_mul(0x94D0_49BB_1331_11EB);
    z ^ (z >> 31)
}

/// The draws an open at `cell` on `tick` makes: a base word from the seed,
/// the cell and the tick, then the roll count, and a row and a count for
/// each roll with the roll's index mixed in.
fn draws(seed: u64, cell: u32, tick: u64) -> Vec<u64> {
    let base = splitmix64(seed ^ ((cell as u64) << 1)) ^ tick;
    let mut d = vec![splitmix64(base)];
    for n in 0..4u64 {
        d.push(splitmix64(base ^ ((n * 2 + 1) << 32)));
        d.push(splitmix64(base ^ ((n * 2 + 2) << 32)));
    }
    d
}

fn empty() -> [ItemStack; INV_SLOTS] {
    [ItemStack::default(); INV_SLOTS]
}

#[test]
fn hits_reports_the_content_number_and_zero_when_inert() {
    assert_eq!(LootContent::probe_fixture().hits(LOOT_BARREL), 2);
    assert_eq!(LootContent::probe_fixture().hits(LOOT_CRATE), 0);
    assert_eq!(LootContent::empty().hits(LOOT_BARREL), 0);
    assert_eq!(LootContent::probe_fixture().hits(MAX_LOOT_TABLES + 1), 0);
}

#[test]
fn a_table_with_no_rolls_is_inert_even_with_rows() {
    let mut lc = LootContent::probe_fixture();
    assert!(lc.table(LOOT_BARREL).is_some());
    lc.tables[LOOT_BARREL].rolls_min = 0;
    assert!(lc.table(LOOT_BARREL).is_none());
    assert_eq!(lc.hits(LOOT_BARREL), 0);
}

#[test]
fn an_inert_table_rolls_nothing() {
    let gc = GatherContent::probe_fixture();
    let mut out = empty();
    assert_eq!(LootContent::empty().roll_into(LOOT_BARREL, &gc, &draws(1, cell(2, 3), 4), &mut out), 0);
    assert!(out.iter().all(|s| s.count == 0));
}

#[test]
fn the_same_cell_and_tick_roll_the_same_thing() {
    let gc = GatherContent::probe_fixture();
    let lc = LootContent::probe_fixture();
    let (mut a, mut b) = (empty(), empty());
    lc.roll_into(LOOT_BARREL, &gc, &draws(7, cell(11, 13), 900), &mut a);
    lc.roll_into(LOOT_BARREL, &gc, &draws(7, cell(11, 13), 900), &mut b);
    assert_eq!(a, b);
    assert!(a.iter().any(|s| s.count > 0), "the fixture always pays");
}

#[test]
fn a_later_smash_of_the_same_cell_is_a_new_roll() {
    let gc = GatherContent::probe_fixture();
    let lc = LootContent::probe_fixture();
    let mut differed = false;
    for tick in 0..64u64 {
        let (mut a, mut b) = (empty(), empty());
        lc.roll_into(LOOT_BARREL, &gc, &draws(7, cell(11, 13), tick), &mut a);
        lc.roll_into(LOOT_BARREL, &gc, &draws(7, cell(11, 13), tick + 1), &mut b);
        differed |= a != b;
    }
    assert!(differed, "tick never entered the draw");
}

#[test]
fn every_rolled_row_is_in_the_table_and_inside_its_count_range() {
    let gc = GatherContent::probe_fixture();
    let lc = LootContent::probe_fixture();
    for tick in 0..512u64 {
        let mut out = empty();
        lc.roll_into(LOOT_BARREL, &gc, &draws(0xBEEF, cell(3, 5), tick), &mut out);
        for s in out.iter().filter(|s| s.count > 0) {
            match s.item {
                // rolls_max 2, so at most two of a row stack up.
                0 => assert!((2..=10).contains(&s.count), "item 0 count {}", s.count),
                1 => assert!((1..=2).contains(&s.count), "item 1 count {}", s.count),
                other => panic!("item {other} is not in the fixture table"),
            }
        }
    }
}

#[test]
fn the_roll_count_stays_inside_the_declared_band() {
    let gc = GatherContent::probe_fixture();
    let lc = LootContent::probe_fixture();
    for tick in 0..512u64 {
        let mut out = empty();
        lc.roll_into(LOOT_BARREL, &gc, &draws(0xF00D, cell(9, 9), tick), &mut out);
        let units: u32 = out.iter().map(|s| s.count as u32).sum();
        assert!((1..=10).contains(&units), "{units} units off one barrel");
    }
}

#[test]
fn a_weight_one_row_is_reachable_and_stays_rare() {
    let gc = GatherContent::probe_fixture();
    let lc = LootContent::probe_fixture();
    let mut rare = 0u32;
    let mut runs = 0u32;
    for tick in 0..4096u64 {
        let mut out = empty();
        lc.roll_into(LOOT_BARREL, &gc, &draws(0x5EED, cell(1, 2), tick), &mut out);
        runs += 1;
        if out.iter().any(|s| s.item == 1 && s.count > 0) {
            rare += 1;
        }
    }
    assert!(rare > 0, "the weight-1 row never came up in {runs} rolls");
    assert!(rare * 2 < runs, "the weight-1 row came up {rare}/{runs} — the walk is not weighted");
}

#[test]
fn a_pick_lands_by_weight_and_a_count_by_its_draw() {
    let gc = GatherContent::probe_fixture();
    let lc = LootContent::probe_fixture();
    // One roll (count draw 0); a pick whose high half is 3/4 of the way
    // round lands on weight 3 of 4, the second row; then a pick of 0 on
    // the first, with count draw 3 taking 2 + 3 % 4 = 5.
    let mut out = empty();
    let w = lc.roll_into(LOOT_BARREL, &gc, &[0, 0xC000_0000_0000_0000, 0], &mut out);
    assert_eq!((w, out[0].item, out[0].count), (1, 1, 1));
    let mut out = empty();
    let w = lc.roll_into(LOOT_BARREL, &gc, &[0, 0, 3], &mut out);
    assert_eq!((w, out[0].item, out[0].count), (5, 0, 5));
}
