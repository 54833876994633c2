use sim_core::gather::{GatherContent, ItemStack};
use sim_core::grounditem::{GroundItemRec, GroundItems};
use sim_core::limits::INV_SLOTS;
use sim_core::world::{EventQueue, Player, EV_GATHER};

fn rec(id: u32, qx: i32, qz: i32, item: u16, count: u16, expires: u64) -> GroundItemRec {
    GroundItemRec { id, qx, qy: 0, qz, stack: ItemStack { item, count, cond: 0 }, expires }
}

fn player_at(qx: i32, qz: i32) -> Player {
    let mut p = Player::default();
    p.id = 3;
    p.body.qx = qx;
    p.body.qz = qz;
    p
}

#[test]
fn restore_refuses_the_empty_and_moves_the_mint_past_every_id() {
    let mut g = GroundItems::new();
    assert_eq!(g.next_id(), 1);
    assert!(!g.restore(rec(0, 0, 0, 1, 1, 10)), "id 0 is no item");
    assert!(!g.restore(rec(4, 0, 0, 1, 0, 10)), "an empty stack is no item");
    assert!(g.restore(rec(4, 0, 0, 1, 1, 10)));
    assert_eq!(g.next_id(), 5);
    assert!(g.restore(rec(2, 0, 0, 1, 1, 10)));
    assert_eq!(g.next_id(), 5, "an older id does not move the mint back");
    assert!(g.restore(rec(u32::MAX, 0, 0, 1, 1, 10)));
    assert_eq!(g.next_id(), u32::MAX, "the mint saturates rather than wrapping");
    assert_eq!(g.index_of_id(2), Some(1));
    assert_eq!(g.index_of_id(0), None);
    assert_eq!(g.index_of_id(9), None);
}

#[test]
fn expiry_retires_exactly_the_stacks_whose_timer_ran_out() {
    let mut g = GroundItems::new();
    for (id, exp) in [(1u32, 5u64), (2, 50), (3, 5), (4, 7), (5, 60)] {
        assert!(g.restore(rec(id, 0, 0, 1, 1, exp)));
    }
    assert_eq!(g.expire_due(7), 3);
    let mut ids: Vec<u32> = g.entries().iter().map(|e| e.id).collect();
    ids.sort();
    assert_eq!(ids, vec![2, 5]);
    assert_eq!(g.expire_due(7), 0);
    assert_eq!(g.expire_due(100), 2);
    assert!(g.is_empty());
}

#[test]
fn the_nearest_in_reach_wins_and_ties_go_to_the_lower_index() {
    let mut g = GroundItems::new();
    // 5 m is 166.67 quanta of 3 cm: 166 is in reach, 167 is not.
    assert!(g.restore(rec(1, 167, 0, 1, 1, 99)));
    assert!(g.restore(rec(2, 0, 100, 1, 1, 99)));
    assert!(g.restore(rec(3, 100, 0, 1, 1, 99)));
    assert!(g.restore(rec(4, 166, 0, 1, 1, 99)));
    let p = player_at(0, 0);
    assert!(!g.in_reach(0, &p));
    assert!(g.in_reach(3, &p));
    assert!(!g.in_reach(9, &p));
    assert_eq!(g.nearest(&p), Some(1));
    let far = player_at(10_000, 10_000);
    assert_eq!(g.nearest(&far), None);
}

#[test]
fn a_take_moves_the_whole_stack_and_announces_it() {
    let gc = GatherContent::probe_fixture();
    let mut g = GroundItems::new();
    assert!(g.restore(rec(7, 10, 0, 2, 30, 99)));
    let mut p = player_at(0, 0);
    let mut spill = [ItemStack::default(); INV_SLOTS];
    let mut ev = EventQueue::new();
    assert_eq!(g.take_nearest(&gc, &mut p, &mut spill, &mut ev), Some(7));
    assert!(g.is_empty());
    assert_eq!(p.inv[0], ItemStack { item: 2, count: 30, cond: 0 });
    let e = ev.entries()[0];
    assert_eq!((e.code, e.a, e.b), (EV_GATHER, 3, (2u32 << 16) | 30));
    // Nothing in reach: nothing moves.
    assert_eq!(g.take_nearest(&gc, &mut p, &mut spill, &mut ev), None);
}

#[test]
fn an_unsized_item_stays_on_the_ground() {
    let gc = GatherContent::probe_fixture();
    let mut g = GroundItems::new();
    // Item 40 has no stack ceiling in the fixture: nothing can hold it.
    assert!(g.restore(rec(7, 10, 0, 40, 3, 99)));
    let mut p = player_at(0, 0);
    let mut spill = [ItemStack::default(); INV_SLOTS];
    let mut ev = EventQueue::new();
    assert_eq!(g.take_nearest(&gc, &mut p, &mut spill, &mut ev), None);
    assert_eq!(g.len(), 1);
    assert_eq!(ev.len(), 0);
}
