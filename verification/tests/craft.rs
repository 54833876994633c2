use sim_core::craft::{inv_count, inv_take};
use sim_core::gather::ItemStack;
use sim_core::limits::INV_SLOTS;

#[test]
fn taking_empties_the_front_slots_first() {
    let mut inv = [ItemStack::default(); INV_SLOTS];
    inv[0] = ItemStack { item: 1, count: 5, cond: 0 };
    inv[1] = ItemStack { item: 2, count: 4, cond: 0 };
    inv[2] = ItemStack { item: 1, count: 10, cond: 7 };
    assert_eq!(inv_count(&inv, 1), 15);
    assert_eq!(inv_take(&mut inv, 1, 8), 8);
    assert_eq!(inv[0], ItemStack::default(), "an emptied slot is cleared");
    assert_eq!(inv[1].count, 4, "another item is left alone");
    assert_eq!(inv[2], ItemStack { item: 1, count: 7, cond: 7 });
    assert_eq!(inv_take(&mut inv, 1, 100), 7, "never more than the hand holds");
    assert_eq!(inv_count(&inv, 1), 0);
    assert_eq!(inv_take(&mut inv, 1, 3), 0);
}
