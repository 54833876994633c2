use sim_core::deploy::{
    ACCESS_OP_ENTER, ACCESS_OP_LOCK, ACCESS_OP_MAX, ACCESS_OP_SET_CODE, ACCESS_OP_SET_GUEST,
    ACCESS_OP_TAKE, ACCESS_OP_UNLOCK,
};
use sim_core::gather::ItemStack;
use sim_core::limits::{INV_SLOTS, LOCK_AUTH_CAP};
use sim_core::lock::{
    apply, give_back, holds, shock, LockRec, Locks, Outcome, CODE_MAX, CODE_NONE, GRANT_FULL,
    GRANT_GUEST, LOCKOUT_TRIES, SHOCK_RESET_TICKS,
};

const OWNER: u32 = 7;
const FRIEND: u32 = 9;
const RAIDER: u32 = 11;

fn armed() -> Locks {
    let mut locks = Locks::new();
    assert!(locks.insert(LockRec::fresh(4, 5, 0, 1, OWNER)));
    assert_eq!(
        apply(&mut locks, 0, OWNER, ACCESS_OP_SET_CODE, 1234, 0),
        Outcome::Done { relock: true }
    );
    locks
}

#[test]
fn a_bare_address_passes_and_a_fresh_lock_does_too() {
    let mut locks = Locks::new();
    assert!(
        locks.passes(4, 5, 0, 1, RAIDER),
        "a door nobody secured is anyone's"
    );
    locks.insert(LockRec::fresh(4, 5, 0, 1, OWNER));
    assert!(
        locks.passes(4, 5, 0, 1, RAIDER),
        "a lock with no code is not a locked door — arming it is set_code"
    );
    assert!(!locks.is_locked(4, 5, 0, 1));
}

#[test]
fn the_code_authorizes_the_player_it_does_not_open_the_door() {
    let mut locks = armed();
    assert!(locks.is_locked(4, 5, 0, 1));
    assert!(!locks.passes(4, 5, 0, 1, FRIEND));
    assert_eq!(
        apply(&mut locks, 0, FRIEND, ACCESS_OP_ENTER, 1234, 10),
        Outcome::Authorized { grant: GRANT_FULL }
    );
    assert!(
        locks.passes(4, 5, 0, 1, FRIEND),
        "and thereafter the door simply works — the memory is the mechanic"
    );
}

#[test]
fn a_guest_works_the_door_and_nothing_else() {
    let mut locks = armed();
    apply(&mut locks, 0, OWNER, ACCESS_OP_SET_GUEST, 4321, 10);
    assert_eq!(
        apply(&mut locks, 0, FRIEND, ACCESS_OP_ENTER, 4321, 11),
        Outcome::Authorized { grant: GRANT_GUEST }
    );
    assert!(locks.passes(4, 5, 0, 1, FRIEND), "a guest opens the door");
    for op in [
        ACCESS_OP_SET_CODE,
        ACCESS_OP_SET_GUEST,
        ACCESS_OP_LOCK,
        ACCESS_OP_UNLOCK,
        ACCESS_OP_TAKE,
    ] {
        assert_eq!(
            apply(&mut locks, 0, FRIEND, op, 1111, 12),
            Outcome::Denied,
            "op {op} is a full-rights op"
        );
    }
    assert_eq!(locks.len(), 1, "and the lock is still on the door");
}

#[test]
fn setting_the_code_is_the_eviction() {
    let mut locks = armed();
    apply(&mut locks, 0, FRIEND, ACCESS_OP_ENTER, 1234, 10);
    apply(&mut locks, 0, OWNER, ACCESS_OP_SET_GUEST, 4321, 10);
    apply(&mut locks, 0, RAIDER, ACCESS_OP_ENTER, 4321, 10);
    assert_eq!(locks.entries()[0].auth.len(), 2);
    assert_eq!(locks.entries()[0].guests.len(), 1);

    apply(&mut locks, 0, FRIEND, ACCESS_OP_SET_CODE, 5678, 20);
    let l = &locks.entries()[0];
    assert_eq!(
        (l.auth.len(), l.guests.len()),
        (1, 0),
        "both lists forgotten"
    );
    assert_eq!(
        l.auth.members(),
        &[FRIEND],
        "and the setter is remembered, not locked out"
    );
    assert_eq!(l.guest_code, CODE_NONE, "the guest code goes with its list");
    assert!(!locks.passes(4, 5, 0, 1, OWNER), "even the owner is out");
}

#[test]
fn the_shock_escalates_forgives_and_never_kills() {
    let mut locks = armed();
    // Three misses inside the window: 5, 10, 15.
    for (n, expect) in [(0u64, 5u16), (1, 10), (2, 15)] {
        assert_eq!(
            apply(&mut locks, 0, RAIDER, ACCESS_OP_ENTER, 9, n),
            Outcome::Wrong {
                shock: expect,
                shut: false
            }
        );
    }
    // Quiet longer than the window: the ladder starts over.
    let t = 2 + SHOCK_RESET_TICKS + 1;
    assert_eq!(
        apply(&mut locks, 0, RAIDER, ACCESS_OP_ENTER, 9, t),
        Outcome::Wrong {
            shock: 5,
            shut: false
        },
        "the damage ladder forgives after the quiet window"
    );
    // ...but the lockout count did not forgive: four misses so far, four
    // more shut it.
    let mut last = Outcome::BadOp;
    for k in 1..=4 {
        last = apply(&mut locks, 0, RAIDER, ACCESS_OP_ENTER, 9, t + k);
    }
    assert!(
        matches!(last, Outcome::Wrong { shut: true, .. }),
        "eight misses shut the keypad, quiet windows or not"
    );
    assert_eq!(
        apply(&mut locks, 0, RAIDER, ACCESS_OP_ENTER, 1234, t + 5),
        Outcome::LockedOut,
        "and a *correct* code is refused while it is shut"
    );

    // The floor. A body at 1 hp cannot be finished by a keypad.
    let mut low = 1u16;
    assert_eq!(shock(&mut low, 40), 0);
    assert_eq!(low, 1);
    let mut some = 12u16;
    assert_eq!(shock(&mut some, 40), 11);
    assert_eq!(some, 1);
}

#[test]
fn the_shutter_lifts_and_the_ladder_is_fresh() {
    let mut locks = armed();
    for k in 0..LOCKOUT_TRIES as u64 {
        apply(&mut locks, 0, RAIDER, ACCESS_OP_ENTER, 9, k);
    }
    let after = locks.entries()[0].shut_until;
    assert_eq!(
        apply(&mut locks, 0, RAIDER, ACCESS_OP_ENTER, 1234, after),
        Outcome::Authorized { grant: GRANT_FULL },
        "the shutter lifts on its own tick"
    );
    assert_eq!(
        locks.entries()[0].misses,
        0,
        "and a correct code clears the streak"
    );
}

#[test]
fn a_full_list_refuses_and_never_evicts() {
    let mut locks = armed();
    // The owner already holds slot 0, so CAP-1 more fill it.
    for k in 0..LOCK_AUTH_CAP as u32 - 1 {
        assert_eq!(
            apply(&mut locks, 0, 100 + k, ACCESS_OP_ENTER, 1234, 1),
            Outcome::Authorized { grant: GRANT_FULL }
        );
    }
    assert_eq!(
        apply(&mut locks, 0, 999, ACCESS_OP_ENTER, 1234, 1),
        Outcome::ListFull
    );
    assert_eq!(
        locks.entries()[0].auth.members()[0],
        OWNER,
        "the owner is still first — a full list never forgets, it refuses"
    );
    assert!(!locks.passes(4, 5, 0, 1, 999));
}

#[test]
fn unlock_opens_the_door_to_everyone_and_lock_needs_a_code() {
    let mut locks = armed();
    apply(&mut locks, 0, OWNER, ACCESS_OP_UNLOCK, 0, 1);
    assert!(
        locks.passes(4, 5, 0, 1, RAIDER),
        "an unlocked lock is a shop front"
    );
    assert!(!locks.is_locked(4, 5, 0, 1));
    assert_eq!(
        apply(&mut locks, 0, OWNER, ACCESS_OP_LOCK, 0, 2),
        Outcome::Done { relock: true }
    );

    // A bare lock cannot be locked: nothing to lock it with.
    let mut bare = Locks::new();
    bare.insert(LockRec::fresh(1, 1, 0, 1, OWNER));
    assert_eq!(
        apply(&mut bare, 0, OWNER, ACCESS_OP_LOCK, 0, 0),
        Outcome::Denied
    );
}

#[test]
fn take_removes_it_and_the_door_is_anyones_again() {
    let mut locks = armed();
    assert_eq!(
        apply(&mut locks, 0, OWNER, ACCESS_OP_TAKE, 0, 1),
        Outcome::Removed
    );
    assert_eq!(locks.len(), 0);
    assert!(locks.passes(4, 5, 0, 1, RAIDER));
}

#[test]
fn a_forged_op_or_code_is_refused_not_clamped() {
    let mut locks = armed();
    assert_eq!(
        apply(&mut locks, 0, OWNER, ACCESS_OP_MAX + 1, 0, 1),
        Outcome::BadOp
    );
    assert_eq!(
        apply(&mut locks, 0, OWNER, ACCESS_OP_SET_CODE, CODE_MAX + 1, 1),
        Outcome::BadOp
    );
    assert_eq!(
        locks.entries()[0].code,
        1234,
        "a refused op leaves the record exactly where it was"
    );
}

#[test]
fn the_store_removes_by_address_and_swaps() {
    let mut locks = Locks::new();
    locks.insert(LockRec::fresh(1, 1, 0, 1, OWNER));
    locks.insert(LockRec::fresh(2, 2, 0, 2, FRIEND));
    assert!(locks.remove_at_address(1, 1, 0, 1));
    assert_eq!(locks.len(), 1);
    assert_eq!(
        locks.entries()[0].owner,
        FRIEND,
        "swap-remove kept the other"
    );
    assert!(!locks.remove_at_address(1, 1, 0, 1), "and it is gone");
}

#[test]
fn a_guest_code_may_be_cleared_with_the_none_code() {
    let mut locks = armed();
    apply(&mut locks, 0, OWNER, ACCESS_OP_SET_GUEST, 4321, 1);
    assert_eq!(
        apply(&mut locks, 0, OWNER, ACCESS_OP_SET_GUEST, CODE_NONE, 2),
        Outcome::Done { relock: true }
    );
    assert_eq!(locks.entries()[0].guest_code, CODE_NONE);
    assert_eq!(
        apply(&mut locks, 0, RAIDER, ACCESS_OP_ENTER, CODE_NONE, 3),
        Outcome::BadOp,
        "nobody can enter the none code"
    );
}

#[test]
fn a_crew_op_at_a_lock_is_bad_for_the_owner_and_denied_to_a_stranger() {
    let mut locks = armed();
    assert_eq!(apply(&mut locks, 0, OWNER, 6, 0, 1), Outcome::BadOp);
    assert_eq!(apply(&mut locks, 0, RAIDER, 6, 0, 1), Outcome::Denied);
}

#[test]
fn give_back_returns_the_item_and_holds_counts_it() {
    let mut inv = [ItemStack::default(); INV_SLOTS];
    let mut spill = [ItemStack::default(); INV_SLOTS];
    assert!(!holds(&inv, 7));
    assert_eq!(give_back(&mut inv, &mut spill, 7, 100, 0), 0, "all of it fit");
    assert_eq!(inv[0], ItemStack { item: 7, count: 1, cond: 0 });
    assert!(holds(&inv, 7));
    // A full pack drops it at the feet instead.
    for s in inv.iter_mut() {
        *s = ItemStack { item: 3, count: 100, cond: 0 };
    }
    assert_eq!(give_back(&mut inv, &mut spill, 7, 100, 0), 1, "the one unit would not fit");
    assert_eq!(spill[0], ItemStack { item: 7, count: 1, cond: 0 });
}
