//! The deployable verbs driven end to end: place, use, lock, lift, crew
//! and feed. What the building store, the terrain and the claims would
//! answer about a site is written out as the facts each verb takes.
use sim_core::craft::{inv_count, inv_take};
use sim_core::deploy::{
    crew_op, drop_deploy, feed, lock_op, pick_up, place_deploy, use_door, DeployContent, DeployDef, Deploys,
    SiteFacts, ACCESS_OP_CREW_CLEAR, ACCESS_OP_CREW_JOIN, ACCESS_OP_CREW_LEAVE, ACCESS_OP_ENTER, ACCESS_OP_LOCK,
    ACCESS_OP_SET_CODE, ACCESS_OP_SET_GUEST, ACCESS_OP_TAKE, ACCESS_OP_UNLOCK, ARCH_BOX, BAG_CAP, FEED_CHUNK,
    LOC_EDGE_XLO, LOC_PLANE, PLACE_FOUNDATION, REFUSE_D_BAG_CAP, REFUSE_D_CLAIM, REFUSE_D_CODE, REFUSE_D_COST,
    REFUSE_D_DOOR, REFUSE_D_FULL, REFUSE_D_HAS_LOCK, REFUSE_D_HEARTH, REFUSE_D_KIND, REFUSE_D_LOCKOUT,
    REFUSE_D_NOT_EMPTY, REFUSE_D_NO_LOCK, REFUSE_D_OVERLAP, REFUSE_D_OWNER, REFUSE_D_REACH, REFUSE_D_SPOT,
    REFUSE_D_SUPPORT,
};
use sim_core::gather::{cell_key, GatherContent, ItemStack};
use sim_core::limits::{INV_SLOTS, MAX_BOXES, MAX_DEPLOY_COSTS};
use sim_core::lock::{GRANT_FULL, GRANT_GUEST, GRANT_NONE};
use sim_core::upkeep::upkeep_piece;
use sim_core::world::{EventQueue, Player, EV_AUTH, EV_DEPLOY_PLACED, EV_DEPLOY_REFUSED, EV_DOOR, EV_KNOCK, EV_STOCK};

const CX: u16 = 341;
const CZ: u16 = 341;

fn player_at_cell(items: &[(u16, u16)]) -> Player {
    let mut p = Player { id: 7, active: true, ..Player::default() };
    for (i, &(item, count)) in items.iter().enumerate() {
        p.inv[i] = ItemStack { item, count, cond: 0 };
    }
    p
}

fn last(ev: &EventQueue) -> (u8, u32, u32, u32) {
    let e = ev.entries()[ev.len() - 1];
    (e.code, e.a, e.b, e.c)
}

fn no_spill() -> [ItemStack; INV_SLOTS] {
    [ItemStack::default(); INV_SLOTS]
}

/// Open, buildable terrain in reach, in nobody's claim.
fn bare() -> SiteFacts {
    SiteFacts {
        in_reach: true,
        foreign_claim: false,
        any_claim: false,
        ground_ok: true,
        plane_piece: false,
        doorway_piece: false,
    }
}

/// A cell whose plane holds a foundation.
fn founded() -> SiteFacts {
    SiteFacts { ground_ok: false, plane_piece: true, ..bare() }
}

/// The low-x edge of a founded cell, holding a doorway.
fn doorway() -> SiteFacts {
    SiteFacts { doorway_piece: true, ..founded() }
}

/// A door hung in the doorway at (CX, CZ)'s low-x edge, by the returned
/// player.
fn doored(dc: &DeployContent, deploys: &mut Deploys, ev: &mut EventQueue) -> Player {
    let mut p = player_at_cell(&[(0, 99), (1, 99), (4, 2), (7, 2)]);
    place_deploy(dc, deploys, &mut p, 0, 2, CX, CZ, 0, LOC_EDGE_XLO, doorway(), ev);
    assert_eq!(last(ev).0, EV_DEPLOY_PLACED, "door lands");
    p
}

/// Arm the lock on the doored door with `code`.
fn locked_door(dc: &DeployContent, deploys: &mut Deploys, p: &mut Player, code: u16, ev: &mut EventQueue) {
    lock_op(
        dc,
        &GatherContent::probe_fixture(),
        deploys,
        p,
        CX,
        CZ,
        0,
        LOC_EDGE_XLO,
        ACCESS_OP_SET_CODE,
        code,
        0,
        true,
        ev,
        &mut no_spill(),
    );
}

/// The probe table plus a storage box on row 7, spending item 9.
fn boxed_fixture() -> DeployContent {
    let mut d = DeployContent::probe_fixture();
    d.defs[7] = DeployDef {
        arch: ARCH_BOX,
        placement: PLACE_FOUNDATION,
        hp: 60,
        item: 9,
        n_costs: 0,
        costs: [(0, 0); MAX_DEPLOY_COSTS],
    };
    d.def_count = 8;
    d
}

/// The probe gather table with a stack ladder for the box item.
fn boxed_gather() -> GatherContent {
    let mut g = GatherContent::probe_fixture();
    g.stack_max[9] = 100;
    g
}

/// A box (row 7) standing on the foundation at (CX, CZ), placed by the
/// returned player.
fn boxed(dc: &DeployContent, deploys: &mut Deploys, ev: &mut EventQueue) -> Player {
    let mut p = player_at_cell(&[(0, 99), (1, 99), (9, 2), (7, 2)]);
    place_deploy(dc, deploys, &mut p, 0, 7, CX, CZ, 0, LOC_PLANE, founded(), ev);
    assert_eq!(last(ev).0, EV_DEPLOY_PLACED, "box lands");
    p
}

#[test]
fn placement_classes_enforce_their_support() {
    let dc = DeployContent::probe_fixture();
    let mut deploys = Deploys::new();
    let mut ev = EventQueue::default();
    let mut p = player_at_cell(&[(0, 99), (1, 99), (2, 5), (3, 5), (4, 5), (5, 5)]);

    // Hearth (foundation class) on bare terrain refuses.
    place_deploy(&dc, &mut deploys, &mut p, 0, 0, CX, CZ, 0, LOC_PLANE, bare(), &mut ev);
    assert_eq!(last(&ev).2, REFUSE_D_SUPPORT);

    // Bag (ground class) on bare terrain places and pays its item.
    place_deploy(&dc, &mut deploys, &mut p, 0, 3, CX, CZ, 0, LOC_PLANE, bare(), &mut ev);
    assert_eq!(last(&ev).0, EV_DEPLOY_PLACED);
    assert_eq!(inv_count(&p.inv, 5), 4, "bag item consumed");

    // Occupied address refuses.
    place_deploy(&dc, &mut deploys, &mut p, 0, 3, CX, CZ, 0, LOC_PLANE, bare(), &mut ev);
    assert_eq!(last(&ev).2, REFUSE_D_SPOT);

    // Foundation next door, hearth on it places; ground bag on the
    // foundation cell refuses.
    place_deploy(&dc, &mut deploys, &mut p, 0, 0, CX + 1, CZ, 0, LOC_PLANE, founded(), &mut ev);
    assert_eq!(last(&ev).0, EV_DEPLOY_PLACED);
    assert_eq!(deploys.hearths().len(), 1);
    place_deploy(&dc, &mut deploys, &mut p, 0, 3, CX + 1, CZ, 0, LOC_PLANE, founded(), &mut ev);
    assert_eq!(last(&ev).2, REFUSE_D_SPOT, "hearth holds the address");

    // Door needs a doorway edge piece: none ⇒ support refusal; a wall
    // there is still not a doorway.
    place_deploy(&dc, &mut deploys, &mut p, 0, 2, CX + 1, CZ, 0, LOC_EDGE_XLO, founded(), &mut ev);
    assert_eq!(last(&ev).2, REFUSE_D_SUPPORT);
    place_deploy(&dc, &mut deploys, &mut p, 0, 2, CX + 1, CZ, 0, LOC_EDGE_XLO, founded(), &mut ev);
    assert_eq!(last(&ev).2, REFUSE_D_SUPPORT, "a wall is not a doorway");

    // Bad row, wrong loc, empty pocket.
    place_deploy(&dc, &mut deploys, &mut p, 0, 9, CX, CZ, 0, LOC_PLANE, bare(), &mut ev);
    assert_eq!(last(&ev).2, REFUSE_D_KIND);
    place_deploy(&dc, &mut deploys, &mut p, 0, 3, CX, CZ, 0, LOC_EDGE_XLO, bare(), &mut ev);
    assert_eq!(last(&ev).2, REFUSE_D_SPOT);
    let mut poor = player_at_cell(&[]);
    place_deploy(&dc, &mut deploys, &mut poor, 0, 3, CX + 2, CZ, 0, LOC_PLANE, bare(), &mut ev);
    assert_eq!(last(&ev).2, REFUSE_D_COST);
}

#[test]
fn hearth_claims_and_overlap_refuse() {
    let dc = DeployContent::probe_fixture();
    let mut deploys = Deploys::new();
    let mut ev = EventQueue::default();
    let mut own = player_at_cell(&[(0, 99), (1, 99), (2, 9)]);
    place_deploy(&dc, &mut deploys, &mut own, 0, 0, CX, CZ, 0, LOC_PLANE, founded(), &mut ev);
    assert_eq!(last(&ev).0, EV_DEPLOY_PLACED);

    // A stranger inside the claim: the deploy refuses with the claim
    // reason.
    let mut foe = player_at_cell(&[(0, 99), (1, 99), (5, 5)]);
    foe.id = 8;
    let claimed = SiteFacts { foreign_claim: true, any_claim: true, ..bare() };
    place_deploy(&dc, &mut deploys, &mut foe, 0, 3, CX + 2, CZ, 0, LOC_PLANE, claimed, &mut ev);
    assert_eq!(last(&ev).2, REFUSE_D_CLAIM);

    // The owner may not stack a second hearth inside the first's claim.
    let own_claim = SiteFacts { any_claim: true, ..founded() };
    place_deploy(&dc, &mut deploys, &mut own, 0, 0, CX + 1, CZ, 0, LOC_PLANE, own_claim, &mut ev);
    assert_eq!(last(&ev).2, REFUSE_D_OVERLAP);
}

#[test]
fn bag_cap_holds_per_owner() {
    let dc = DeployContent::probe_fixture();
    let mut deploys = Deploys::new();
    let mut ev = EventQueue::default();
    let mut p = player_at_cell(&[(5, 20)]);
    let mut placed = 0usize;
    for k in 0..BAG_CAP as u16 + 1 {
        place_deploy(&dc, &mut deploys, &mut p, 0, 3, CX + k, CZ, 0, LOC_PLANE, bare(), &mut ev);
        if last(&ev).0 == EV_DEPLOY_PLACED {
            placed += 1;
        }
    }
    assert_eq!(placed, BAG_CAP);
    assert_eq!(last(&ev).2, REFUSE_D_BAG_CAP);
    assert!(
        deploys.bag_ready().iter().all(|&r| r == 0),
        "a freshly placed bag must be ready for the next death"
    );
}

#[test]
fn door_places_closed_toggles_open_and_reseals() {
    let dc = DeployContent::probe_fixture();
    let mut deploys = Deploys::new();
    let mut ev = EventQueue::default();
    let p = doored(&dc, &mut deploys, &mut ev);

    assert!(!deploys.find(CX, CZ, 0, LOC_EDGE_XLO).unwrap().open);
    assert!(
        !deploys.find(CX, CZ, 0, LOC_EDGE_XLO).unwrap().has_lock
            && !deploys.find(CX, CZ, 0, LOC_EDGE_XLO).unwrap().locked,
        "a door places bare"
    );

    use_door(&dc, &mut deploys, &p, CX, CZ, 0, LOC_EDGE_XLO, true, &mut ev);
    assert_eq!(last(&ev), (EV_DOOR, cell_key(CX, CZ), (LOC_EDGE_XLO as u32) << 8 | 1, 7));
    assert!(deploys.find(CX, CZ, 0, LOC_EDGE_XLO).unwrap().open);

    use_door(&dc, &mut deploys, &p, CX, CZ, 0, LOC_EDGE_XLO, true, &mut ev);
    assert_eq!(last(&ev).2 & 1, 0, "EV_DOOR carries open = 0");
    assert!(!deploys.find(CX, CZ, 0, LOC_EDGE_XLO).unwrap().open);
}

#[test]
fn a_bare_door_is_anyones_and_a_lock_is_what_claims_it() {
    let dc = DeployContent::probe_fixture();
    let gc = GatherContent::probe_fixture();
    let mut deploys = Deploys::new();
    let mut ev = EventQueue::default();
    let mut p = doored(&dc, &mut deploys, &mut ev);
    let mut stranger = player_at_cell(&[]);
    stranger.id = 9;

    use_door(&dc, &mut deploys, &stranger, CX, CZ, 0, LOC_EDGE_XLO, true, &mut ev);
    assert_eq!(last(&ev).0, EV_DOOR, "a bare door is anyone's");
    assert!(deploys.find(CX, CZ, 0, LOC_EDGE_XLO).unwrap().open);

    let before = deploys.len();
    place_deploy(&dc, &mut deploys, &mut p, 0, 5, CX, CZ, 0, LOC_EDGE_XLO, doorway(), &mut ev);
    assert_eq!(deploys.len(), before, "a lock is not a deployable record");
    assert_eq!(deploys.locks().len(), 1, "it is a lock record");
    let d = deploys.find(CX, CZ, 0, LOC_EDGE_XLO).unwrap();
    assert!(d.has_lock && !d.locked, "bolted on, not yet armed");
    assert_eq!(last(&ev).2 & 7, 4 | 1, "EV_DOOR carries has_lock << 2 over the open leaf");

    assert!(deploys.lock_passes(CX, CZ, 0, LOC_EDGE_XLO, stranger.id));

    locked_door(&dc, &mut deploys, &mut p, 1234, &mut ev);
    assert!(deploys.find(CX, CZ, 0, LOC_EDGE_XLO).unwrap().locked);
    let open_before = deploys.find(CX, CZ, 0, LOC_EDGE_XLO).unwrap().open;
    use_door(&dc, &mut deploys, &stranger, CX, CZ, 0, LOC_EDGE_XLO, true, &mut ev);
    assert_eq!((last(&ev).0, last(&ev).2), (EV_DEPLOY_REFUSED, REFUSE_D_OWNER));
    assert_eq!(ev.entries()[ev.len() - 2].code, EV_KNOCK, "and the refusal knocks");
    assert_eq!(deploys.find(CX, CZ, 0, LOC_EDGE_XLO).unwrap().open, open_before, "the leaf did not move");

    let open_at_entry = deploys.find(CX, CZ, 0, LOC_EDGE_XLO).unwrap().open;
    lock_op(
        &dc, &gc, &mut deploys, &mut stranger, CX, CZ, 0, LOC_EDGE_XLO, ACCESS_OP_ENTER, 1234, 0, true, &mut ev,
        &mut no_spill(),
    );
    assert_eq!(
        (last(&ev).0, last(&ev).2 & 0xff, last(&ev).3),
        (EV_AUTH, GRANT_FULL as u32, stranger.id),
        "a correct code announces the grant, to its sender only"
    );
    assert_eq!(
        deploys.find(CX, CZ, 0, LOC_EDGE_XLO).unwrap().open,
        open_at_entry,
        "entering a code is not opening a door"
    );
    use_door(&dc, &mut deploys, &stranger, CX, CZ, 0, LOC_EDGE_XLO, true, &mut ev);
    assert_eq!(last(&ev).0, EV_DOOR, "and thereafter the door simply works");
}

#[test]
fn a_wrong_code_shocks_and_the_eighth_shuts_the_keypad() {
    let dc = DeployContent::probe_fixture();
    let gc = GatherContent::probe_fixture();
    let mut deploys = Deploys::new();
    let mut ev = EventQueue::default();
    let mut p = doored(&dc, &mut deploys, &mut ev);
    place_deploy(&dc, &mut deploys, &mut p, 0, 5, CX, CZ, 0, LOC_EDGE_XLO, doorway(), &mut ev);
    locked_door(&dc, &mut deploys, &mut p, 1234, &mut ev);

    let mut raider = player_at_cell(&[]);
    raider.id = 9;
    raider.hp = 100;
    raider.hp_max = 100;
    let wrong = |deploys: &mut Deploys, r: &mut Player, ev: &mut EventQueue| {
        lock_op(&dc, &gc, deploys, r, CX, CZ, 0, LOC_EDGE_XLO, ACCESS_OP_ENTER, 4321, 0, true, ev, &mut no_spill());
    };
    wrong(&mut deploys, &mut raider, &mut ev);
    assert_eq!(raider.hp, 95, "the first miss is one step");
    assert_eq!(last(&ev).2, REFUSE_D_CODE);
    wrong(&mut deploys, &mut raider, &mut ev);
    assert_eq!(raider.hp, 85, "the second is two");
    for _ in 0..6 {
        wrong(&mut deploys, &mut raider, &mut ev);
    }
    assert_eq!(last(&ev).2, REFUSE_D_LOCKOUT, "the eighth miss shuts the keypad");
    lock_op(
        &dc, &gc, &mut deploys, &mut raider, CX, CZ, 0, LOC_EDGE_XLO, ACCESS_OP_ENTER, 1234, 0, true, &mut ev,
        &mut no_spill(),
    );
    assert_eq!(last(&ev).2, REFUSE_D_LOCKOUT);
    assert!(!deploys.lock_passes(CX, CZ, 0, LOC_EDGE_XLO, raider.id));

    raider.hp = 1;
    wrong(&mut deploys, &mut raider, &mut ev);
    assert_eq!(raider.hp, 1, "a lock may maim, never kill");
}

#[test]
fn lock_ops_bounce_on_rights_reach_and_a_missing_lock() {
    let dc = DeployContent::probe_fixture();
    let gc = GatherContent::probe_fixture();
    let mut deploys = Deploys::new();
    let mut ev = EventQueue::default();
    let mut p = doored(&dc, &mut deploys, &mut ev);

    lock_op(
        &dc, &gc, &mut deploys, &mut p, CX, CZ, 0, LOC_EDGE_XLO, ACCESS_OP_UNLOCK, 0, 0, true, &mut ev,
        &mut no_spill(),
    );
    assert_eq!(last(&ev).2, REFUSE_D_NO_LOCK);

    place_deploy(&dc, &mut deploys, &mut p, 0, 5, CX, CZ, 0, LOC_EDGE_XLO, doorway(), &mut ev);
    place_deploy(&dc, &mut deploys, &mut p, 0, 5, CX, CZ, 0, LOC_EDGE_XLO, doorway(), &mut ev);
    assert_eq!(last(&ev).2, REFUSE_D_HAS_LOCK);
    locked_door(&dc, &mut deploys, &mut p, 1234, &mut ev);

    let mut stranger = player_at_cell(&[]);
    stranger.id = 9;
    for op in [ACCESS_OP_SET_CODE, ACCESS_OP_SET_GUEST, ACCESS_OP_LOCK, ACCESS_OP_UNLOCK, ACCESS_OP_TAKE] {
        lock_op(
            &dc, &gc, &mut deploys, &mut stranger, CX, CZ, 0, LOC_EDGE_XLO, op, 1111, 0, true, &mut ev,
            &mut no_spill(),
        );
        assert_eq!(last(&ev).2, REFUSE_D_OWNER, "op {op} is full-rights");
    }
    assert_eq!(deploys.locks().len(), 1, "and the lock is still on");

    lock_op(&dc, &gc, &mut deploys, &mut p, CX, CZ, 0, LOC_PLANE, ACCESS_OP_UNLOCK, 0, 0, true, &mut ev, &mut no_spill());
    assert_eq!(last(&ev).2, REFUSE_D_DOOR, "no door at that address");
    let mut far = player_at_cell(&[]);
    lock_op(
        &dc, &gc, &mut deploys, &mut far, CX, CZ, 0, LOC_EDGE_XLO, ACCESS_OP_UNLOCK, 0, 0, false, &mut ev,
        &mut no_spill(),
    );
    assert_eq!(last(&ev).2, REFUSE_D_REACH, "a lock has the build reach");
    assert!(deploys.find(CX, CZ, 0, LOC_EDGE_XLO).unwrap().locked, "a refused op leaves the bit where it was");

    let held = inv_count(&p.inv, 7);
    lock_op(
        &dc, &gc, &mut deploys, &mut p, CX, CZ, 0, LOC_EDGE_XLO, ACCESS_OP_TAKE, 0, 0, true, &mut ev,
        &mut no_spill(),
    );
    assert_eq!(deploys.locks().len(), 0);
    assert_eq!(inv_count(&p.inv, 7), held + 1, "the item comes back");
    let d = deploys.find(CX, CZ, 0, LOC_EDGE_XLO).unwrap();
    assert!(!d.has_lock && !d.locked, "and both mirror bits cleared");
    assert!(deploys.lock_passes(CX, CZ, 0, LOC_EDGE_XLO, stranger.id));
}

#[test]
fn a_deployable_comes_back_up_and_a_full_one_does_not() {
    let dc = DeployContent::probe_fixture();
    let gc = GatherContent::probe_fixture();
    let mut deploys = Deploys::new();
    let mut ev = EventQueue::default();
    let mut p = player_at_cell(&[(0, 99), (1, 99), (2, 2), (3, 2)]);

    place_deploy(&dc, &mut deploys, &mut p, 0, 1, CX, CZ, 0, LOC_PLANE, founded(), &mut ev);
    assert_eq!(deploys.len(), 1);
    let held = inv_count(&p.inv, 3);
    let mut stranger = player_at_cell(&[]);
    stranger.id = 9;
    pick_up(&dc, &gc, &mut deploys, &mut stranger, CX, CZ, 0, LOC_PLANE, true, false, &mut ev, &mut no_spill());
    assert_eq!(deploys.len(), 0, "unclaimed furniture is anyone's");
    assert_eq!(inv_count(&stranger.inv, 3), 1, "and the item goes to the hand that lifted it");
    assert_eq!(inv_count(&p.inv, 3), held, "not to the placer");

    place_deploy(&dc, &mut deploys, &mut p, 0, 0, CX, CZ, 0, LOC_PLANE, founded(), &mut ev);
    assert_eq!(deploys.hearths().len(), 1);
    deploys.set_hearth_stock(0, 0, 5);
    pick_up(&dc, &gc, &mut deploys, &mut p, CX, CZ, 0, LOC_PLANE, true, false, &mut ev, &mut no_spill());
    assert_eq!((last(&ev).0, last(&ev).2), (EV_DEPLOY_REFUSED, REFUSE_D_NOT_EMPTY));
    assert_eq!(deploys.hearths().len(), 1, "and it is still standing");
    deploys.set_hearth_stock(0, 0, 0);
    pick_up(&dc, &gc, &mut deploys, &mut p, CX, CZ, 0, LOC_PLANE, true, false, &mut ev, &mut no_spill());
    assert_eq!(deploys.hearths().len(), 0, "emptied, it lifts");
}

#[test]
fn a_lock_guards_the_door_against_being_picked_up() {
    let dc = DeployContent::probe_fixture();
    let gc = GatherContent::probe_fixture();
    let mut deploys = Deploys::new();
    let mut ev = EventQueue::default();
    let mut p = doored(&dc, &mut deploys, &mut ev);
    place_deploy(&dc, &mut deploys, &mut p, 0, 5, CX, CZ, 0, LOC_EDGE_XLO, doorway(), &mut ev);
    locked_door(&dc, &mut deploys, &mut p, 1234, &mut ev);

    let mut stranger = player_at_cell(&[]);
    stranger.id = 9;
    pick_up(&dc, &gc, &mut deploys, &mut stranger, CX, CZ, 0, LOC_EDGE_XLO, true, false, &mut ev, &mut no_spill());
    assert_eq!((last(&ev).0, last(&ev).2), (EV_DEPLOY_REFUSED, REFUSE_D_OWNER));
    assert_eq!(deploys.len(), 1, "the door is still hanging");

    let doors = inv_count(&p.inv, 4);
    let locks = inv_count(&p.inv, 7);
    pick_up(&dc, &gc, &mut deploys, &mut p, CX, CZ, 0, LOC_EDGE_XLO, true, false, &mut ev, &mut no_spill());
    assert_eq!(deploys.len(), 0);
    assert_eq!(deploys.locks().len(), 0, "and the lock came off with it");
    assert_eq!(inv_count(&p.inv, 4), doors + 1, "the door");
    assert_eq!(inv_count(&p.inv, 7), locks + 1, "the lock");
}

#[test]
fn a_code_lock_bolts_onto_a_box_and_the_same_ops_run() {
    let dc = boxed_fixture();
    let gc = boxed_gather();
    let mut deploys = Deploys::new();
    let mut ev = EventQueue::default();
    let mut p = boxed(&dc, &mut deploys, &mut ev);
    let before = deploys.len();
    place_deploy(&dc, &mut deploys, &mut p, 0, 5, CX, CZ, 0, LOC_PLANE, founded(), &mut ev);
    assert_eq!(deploys.len(), before, "a lock is not a deployable record");
    assert_eq!(deploys.locks().len(), 1, "it is a lock record");
    let d = deploys.find(CX, CZ, 0, LOC_PLANE).unwrap();
    assert!(d.has_lock && !d.locked, "bolted on, not yet armed");
    assert_eq!((last(&ev).0, last(&ev).2 & 7), (EV_DOOR, 4), "a box has no leaf");
    assert!(deploys.lock_passes(CX, CZ, 0, LOC_PLANE, 999), "unarmed, it still lets everyone through");

    lock_op(&dc, &gc, &mut deploys, &mut p, CX, CZ, 0, LOC_PLANE, ACCESS_OP_SET_CODE, 1234, 0, true, &mut ev, &mut no_spill());
    assert!(deploys.is_locked(CX, CZ, 0, LOC_PLANE));
    assert!(deploys.find(CX, CZ, 0, LOC_PLANE).unwrap().locked, "the locked bit mirrors the store");
    let mut stranger = player_at_cell(&[]);
    stranger.id = 9;
    assert!(!deploys.lock_passes(CX, CZ, 0, LOC_PLANE, stranger.id));

    lock_op(&dc, &gc, &mut deploys, &mut p, CX, CZ, 0, LOC_PLANE, ACCESS_OP_SET_GUEST, 4321, 0, true, &mut ev, &mut no_spill());
    lock_op(
        &dc, &gc, &mut deploys, &mut stranger, CX, CZ, 0, LOC_PLANE, ACCESS_OP_ENTER, 4321, 1, true, &mut ev,
        &mut no_spill(),
    );
    assert_eq!(
        (last(&ev).0, last(&ev).2 & 0xff),
        (EV_AUTH, GRANT_GUEST as u32),
        "the guest code authorizes at a box exactly as at a door"
    );
    assert!(deploys.lock_passes(CX, CZ, 0, LOC_PLANE, stranger.id));

    lock_op(&dc, &gc, &mut deploys, &mut p, CX, CZ, 0, LOC_PLANE, ACCESS_OP_UNLOCK, 0, 2, true, &mut ev, &mut no_spill());
    assert!(!deploys.is_locked(CX, CZ, 0, LOC_PLANE));
    assert!(!deploys.find(CX, CZ, 0, LOC_PLANE).unwrap().locked);
    assert!(deploys.lock_passes(CX, CZ, 0, LOC_PLANE, 424242));
}

#[test]
fn a_lock_refuses_an_oven_for_support() {
    let dc = boxed_fixture();
    let mut deploys = Deploys::new();
    let mut ev = EventQueue::default();
    let mut p = player_at_cell(&[(6, 2), (7, 2)]);
    place_deploy(&dc, &mut deploys, &mut p, 0, 4, CX, CZ, 0, LOC_PLANE, bare(), &mut ev);
    assert_eq!(last(&ev).0, EV_DEPLOY_PLACED, "fire lands");
    place_deploy(&dc, &mut deploys, &mut p, 0, 5, CX, CZ, 0, LOC_PLANE, bare(), &mut ev);
    assert_eq!(last(&ev).2, REFUSE_D_SUPPORT, "a fire is not a thing a lock bolts to");
    assert_eq!(deploys.locks().len(), 0);
}

#[test]
fn a_lock_guards_the_box_against_being_picked_up() {
    let dc = boxed_fixture();
    let gc = boxed_gather();
    let mut deploys = Deploys::new();
    let mut ev = EventQueue::default();
    let mut p = boxed(&dc, &mut deploys, &mut ev);
    place_deploy(&dc, &mut deploys, &mut p, 0, 5, CX, CZ, 0, LOC_PLANE, founded(), &mut ev);
    lock_op(&dc, &gc, &mut deploys, &mut p, CX, CZ, 0, LOC_PLANE, ACCESS_OP_SET_CODE, 1234, 0, true, &mut ev, &mut no_spill());
    let mut stranger = player_at_cell(&[]);
    stranger.id = 9;
    pick_up(&dc, &gc, &mut deploys, &mut stranger, CX, CZ, 0, LOC_PLANE, true, false, &mut ev, &mut no_spill());
    assert_eq!(
        (last(&ev).0, last(&ev).2),
        (EV_DEPLOY_REFUSED, REFUSE_D_OWNER),
        "a locked box cannot be lifted out from under its lock"
    );
    assert_eq!(deploys.len(), 1, "the box is still standing");

    let locks_held = inv_count(&p.inv, 7);
    let boxes_held = inv_count(&p.inv, 9);
    pick_up(&dc, &gc, &mut deploys, &mut p, CX, CZ, 0, LOC_PLANE, true, false, &mut ev, &mut no_spill());
    assert_eq!(deploys.len(), 0);
    assert_eq!(deploys.locks().len(), 0, "the lock record came off with it");
    assert_eq!(inv_count(&p.inv, 7), locks_held + 1);
    assert_eq!(inv_count(&p.inv, 9), boxes_held + 1);
}

#[test]
fn a_guest_works_a_locked_door_and_cannot_pocket_it() {
    let dc = DeployContent::probe_fixture();
    let gc = GatherContent::probe_fixture();
    let mut deploys = Deploys::new();
    let mut ev = EventQueue::default();
    let mut p = doored(&dc, &mut deploys, &mut ev);
    place_deploy(&dc, &mut deploys, &mut p, 0, 5, CX, CZ, 0, LOC_EDGE_XLO, doorway(), &mut ev);
    locked_door(&dc, &mut deploys, &mut p, 1234, &mut ev);
    lock_op(
        &dc, &gc, &mut deploys, &mut p, CX, CZ, 0, LOC_EDGE_XLO, ACCESS_OP_SET_GUEST, 4321, 0, true, &mut ev,
        &mut no_spill(),
    );
    let mut guest = player_at_cell(&[]);
    guest.id = 9;
    lock_op(
        &dc, &gc, &mut deploys, &mut guest, CX, CZ, 0, LOC_EDGE_XLO, ACCESS_OP_ENTER, 4321, 1, true, &mut ev,
        &mut no_spill(),
    );
    assert_eq!(
        (last(&ev).0, last(&ev).2 & 0xff),
        (EV_AUTH, GRANT_GUEST as u32),
        "the fixture minted a guest, not a member"
    );
    use_door(&dc, &mut deploys, &guest, CX, CZ, 0, LOC_EDGE_XLO, true, &mut ev);
    assert_eq!(
        (last(&ev).0, last(&ev).2 & 1, last(&ev).3),
        (EV_DOOR, 1, guest.id),
        "a guest code opens the locked door"
    );
    assert!(deploys.find(CX, CZ, 0, LOC_EDGE_XLO).unwrap().open, "and the leaf actually swung");
    use_door(&dc, &mut deploys, &guest, CX, CZ, 0, LOC_EDGE_XLO, true, &mut ev);
    assert_eq!((last(&ev).0, last(&ev).2 & 1), (EV_DOOR, 0), "and closes it again");
    assert!(!deploys.find(CX, CZ, 0, LOC_EDGE_XLO).unwrap().open);
    pick_up(&dc, &gc, &mut deploys, &mut guest, CX, CZ, 0, LOC_EDGE_XLO, true, false, &mut ev, &mut no_spill());
    assert_eq!(
        (last(&ev).0, last(&ev).2),
        (EV_DEPLOY_REFUSED, REFUSE_D_OWNER),
        "a guest may work the door and nothing else"
    );
    assert_eq!(deploys.len(), 1, "the door is still hanging");
    assert_eq!(deploys.locks().len(), 1, "the lock is still on it");
    assert_eq!(inv_count(&guest.inv, 4), 0);
    assert_eq!(inv_count(&guest.inv, 7), 0);

    let mut friend = player_at_cell(&[]);
    friend.id = 11;
    lock_op(
        &dc, &gc, &mut deploys, &mut friend, CX, CZ, 0, LOC_EDGE_XLO, ACCESS_OP_ENTER, 1234, 2, true, &mut ev,
        &mut no_spill(),
    );
    pick_up(&dc, &gc, &mut deploys, &mut friend, CX, CZ, 0, LOC_EDGE_XLO, true, false, &mut ev, &mut no_spill());
    assert_eq!(deploys.len(), 0, "a full member lifts it");
    assert_eq!(deploys.locks().len(), 0);
    assert_eq!(inv_count(&friend.inv, 4), 1, "the door");
    assert_eq!(inv_count(&friend.inv, 7), 1, "the lock");
}

#[test]
fn a_guest_cannot_pocket_a_locked_box_and_unlocked_stays_anyones() {
    let dc = boxed_fixture();
    let gc = boxed_gather();
    let mut deploys = Deploys::new();
    let mut ev = EventQueue::default();
    let mut p = boxed(&dc, &mut deploys, &mut ev);
    place_deploy(&dc, &mut deploys, &mut p, 0, 5, CX, CZ, 0, LOC_PLANE, founded(), &mut ev);
    lock_op(&dc, &gc, &mut deploys, &mut p, CX, CZ, 0, LOC_PLANE, ACCESS_OP_SET_CODE, 1234, 0, true, &mut ev, &mut no_spill());
    lock_op(&dc, &gc, &mut deploys, &mut p, CX, CZ, 0, LOC_PLANE, ACCESS_OP_SET_GUEST, 4321, 0, true, &mut ev, &mut no_spill());

    let mut guest = player_at_cell(&[]);
    guest.id = 9;
    lock_op(
        &dc, &gc, &mut deploys, &mut guest, CX, CZ, 0, LOC_PLANE, ACCESS_OP_ENTER, 4321, 1, true, &mut ev,
        &mut no_spill(),
    );
    assert!(deploys.lock_passes(CX, CZ, 0, LOC_PLANE, guest.id), "the lid answers the guest");
    pick_up(&dc, &gc, &mut deploys, &mut guest, CX, CZ, 0, LOC_PLANE, true, false, &mut ev, &mut no_spill());
    assert_eq!(
        (last(&ev).0, last(&ev).2),
        (EV_DEPLOY_REFUSED, REFUSE_D_OWNER),
        "the guest code opens the lid, never the ground under the box"
    );
    assert_eq!(deploys.len(), 1, "the box is still standing");
    assert_eq!(deploys.locks().len(), 1);

    lock_op(&dc, &gc, &mut deploys, &mut p, CX, CZ, 0, LOC_PLANE, ACCESS_OP_UNLOCK, 0, 2, true, &mut ev, &mut no_spill());
    let mut nobody = player_at_cell(&[]);
    nobody.id = 21;
    pick_up(&dc, &gc, &mut deploys, &mut nobody, CX, CZ, 0, LOC_PLANE, true, false, &mut ev, &mut no_spill());
    assert_eq!(deploys.len(), 0, "an unlocked box is anyone's, lifting included");
    assert_eq!(deploys.locks().len(), 0);
    assert_eq!(inv_count(&nobody.inv, 9), 1, "the box");
    assert_eq!(inv_count(&nobody.inv, 7), 1, "the lock");
}

#[test]
fn a_hearth_answers_to_its_crew_and_not_to_one_id() {
    let dc = DeployContent::probe_fixture();
    let mut deploys = Deploys::new();
    let mut ev = EventQueue::default();
    let mut owner = player_at_cell(&[(0, 99), (1, 99), (2, 2), (3, 2)]);
    place_deploy(&dc, &mut deploys, &mut owner, 0, 0, CX, CZ, 0, LOC_PLANE, founded(), &mut ev);
    assert_eq!(deploys.hearths().len(), 1, "the hearth stands");
    assert_eq!(
        deploys.hearths()[0].crew.members(),
        &[owner.id],
        "placing it joins its crew — there is no separate authorize step"
    );
    let mut friend = player_at_cell(&[]);
    friend.id = 9;
    crew_op(&mut deploys, &friend, CX, CZ, 0, ACCESS_OP_CREW_JOIN, true, &mut ev);
    assert_eq!(
        (last(&ev).0, last(&ev).2),
        (EV_DEPLOY_REFUSED, REFUSE_D_OWNER),
        "a stranger cannot authorize themselves into somebody's base"
    );
}

#[test]
fn the_crew_ops_join_leave_and_clear() {
    let dc = DeployContent::probe_fixture();
    let mut deploys = Deploys::new();
    let mut ev = EventQueue::default();
    let mut owner = player_at_cell(&[(0, 99), (1, 99), (2, 2), (3, 2)]);
    place_deploy(&dc, &mut deploys, &mut owner, 0, 0, CX, CZ, 0, LOC_PLANE, founded(), &mut ev);

    crew_op(&mut deploys, &owner, CX, CZ, 0, ACCESS_OP_CREW_LEAVE, true, &mut ev);
    assert!(deploys.hearths()[0].crew.is_empty());
    assert_eq!(
        (last(&ev).0, last(&ev).2 & 0xff),
        (EV_AUTH, GRANT_NONE as u32),
        "leaving announces the sender's own standing, absolute"
    );

    let mut friend = player_at_cell(&[]);
    friend.id = 9;
    crew_op(&mut deploys, &friend, CX, CZ, 0, ACCESS_OP_CREW_JOIN, true, &mut ev);
    assert_eq!(
        (last(&ev).0, last(&ev).2 & 0xff, last(&ev).3),
        (EV_AUTH, GRANT_FULL as u32, friend.id),
        "the grant is the sender's own fact"
    );

    crew_op(&mut deploys, &owner, CX, CZ, 0, ACCESS_OP_CREW_JOIN, true, &mut ev);
    assert_eq!(last(&ev).2, REFUSE_D_OWNER);
    deploys.crew_add(0, owner.id);
    crew_op(&mut deploys, &owner, CX, CZ, 0, ACCESS_OP_CREW_JOIN, true, &mut ev);
    assert_eq!(last(&ev).0, EV_AUTH, "a double press is fine");
    assert_eq!(deploys.hearths()[0].crew.len(), 2);

    crew_op(&mut deploys, &owner, CX, CZ, 0, ACCESS_OP_CREW_CLEAR, true, &mut ev);
    assert_eq!(deploys.hearths()[0].crew.members(), &[owner.id]);

    crew_op(&mut deploys, &owner, CX + 3, CZ, 0, ACCESS_OP_CREW_JOIN, true, &mut ev);
    assert_eq!(last(&ev).2, REFUSE_D_HEARTH, "no hearth at that address");
    let far = player_at_cell(&[]);
    crew_op(&mut deploys, &far, CX, CZ, 0, ACCESS_OP_CREW_JOIN, false, &mut ev);
    assert_eq!(last(&ev).2, REFUSE_D_REACH, "a crew op has the build reach");
    assert_eq!(deploys.hearths()[0].crew.len(), 1);
}

#[test]
fn use_refusals_name_no_door_and_reach() {
    let dc = DeployContent::probe_fixture();
    let mut deploys = Deploys::new();
    let mut ev = EventQueue::default();
    let mut p = player_at_cell(&[(0, 99), (1, 99), (3, 1), (4, 2)]);
    use_door(&dc, &mut deploys, &p, CX, CZ, 0, LOC_EDGE_XLO, true, &mut ev);
    assert_eq!(last(&ev).2, REFUSE_D_DOOR);

    place_deploy(&dc, &mut deploys, &mut p, 0, 1, CX, CZ, 0, LOC_PLANE, founded(), &mut ev);
    assert_eq!(last(&ev).0, EV_DEPLOY_PLACED);
    use_door(&dc, &mut deploys, &p, CX, CZ, 0, LOC_PLANE, true, &mut ev);
    assert_eq!(last(&ev).2, REFUSE_D_DOOR, "a workbench is not a door");

    place_deploy(&dc, &mut deploys, &mut p, 0, 2, CX, CZ, 0, LOC_EDGE_XLO, doorway(), &mut ev);
    assert_eq!(last(&ev).0, EV_DEPLOY_PLACED);
    let far = player_at_cell(&[]);
    use_door(&dc, &mut deploys, &far, CX, CZ, 0, LOC_EDGE_XLO, false, &mut ev);
    assert_eq!(last(&ev).2, REFUSE_D_REACH);
    assert!(!deploys.find(CX, CZ, 0, LOC_EDGE_XLO).unwrap().open);
}

#[test]
fn a_full_box_store_refuses_the_placement_and_places_nothing() {
    let mut dc = DeployContent::probe_fixture();
    dc.defs[4] = DeployDef {
        arch: ARCH_BOX,
        placement: PLACE_FOUNDATION,
        hp: 100,
        item: 6,
        n_costs: 0,
        costs: [(0, 0); MAX_DEPLOY_COSTS],
    };
    dc.def_count = 5;
    let mut deploys = Deploys::new();
    let mut ev = EventQueue::default();
    // Fill the box store from elsewhere on the island.
    let mut filler = player_at_cell(&[(6, MAX_BOXES as u16)]);
    filler.id = 8;
    for k in 0..MAX_BOXES as u16 {
        place_deploy(&dc, &mut deploys, &mut filler, 0, 4, 1 + k, 1, 0, LOC_PLANE, founded(), &mut ev);
        assert_eq!(last(&ev).0, EV_DEPLOY_PLACED);
    }
    assert_eq!(deploys.boxes().len(), MAX_BOXES);

    let mut p = player_at_cell(&[(0, 9), (6, 4)]);
    let deploys_before = deploys.len();
    let held = inv_count(&p.inv, 6);
    place_deploy(&dc, &mut deploys, &mut p, 0, 4, CX, CZ, 0, LOC_PLANE, founded(), &mut ev);
    assert_eq!(last(&ev).0, EV_DEPLOY_REFUSED);
    assert_eq!(last(&ev).2, REFUSE_D_FULL, "a full box store refuses");
    assert_eq!(deploys.len(), deploys_before, "a refused box must not leave a deploy record standing");
    assert_eq!(inv_count(&p.inv, 6), held, "a refused placement must not spend the item");

    // One slot back and the same placement succeeds.
    drop_deploy(&dc, &mut deploys, 0, &mut ev);
    assert_eq!(deploys.boxes().len(), MAX_BOXES - 1);
    place_deploy(&dc, &mut deploys, &mut p, 0, 4, CX, CZ, 0, LOC_PLANE, founded(), &mut ev);
    assert_eq!(last(&ev).0, EV_DEPLOY_PLACED);
}

#[test]
fn feed_fills_stock_and_upkeep_charges_it() {
    let dc = DeployContent::probe_fixture();
    let mut deploys = Deploys::new();
    let mut ev = EventQueue::default();
    let mut p = player_at_cell(&[(0, 250), (1, 80), (2, 1)]);
    // The stone foundation under the hearth cost five of item 0.
    inv_take(&mut p.inv, 0, 5);
    place_deploy(&dc, &mut deploys, &mut p, 0, 0, CX, CZ, 0, LOC_PLANE, founded(), &mut ev);
    assert_eq!(last(&ev).0, EV_DEPLOY_PLACED);

    // Feed: FEED_CHUNK of item 0 (245 left after the foundation's 5), all
    // 80 of item 1.
    feed(&dc, &mut deploys, &mut p, CX, CZ, 0, true, &mut ev);
    assert_eq!(last(&ev).0, EV_STOCK);
    assert_eq!(deploys.hearths()[0].stock[0], FEED_CHUNK);
    assert_eq!(deploys.hearths()[0].stock[1], 80);
    feed(&dc, &mut deploys, &mut p, CX + 3, CZ, 0, true, &mut ev);
    assert_eq!(last(&ev).2, REFUSE_D_HEARTH);

    // Cross one upkeep period: the foundation (cost 5 × item 0 ⇒ charge
    // ceil(5·10/2400) = 1), covered by the one hearth, pays from stock and
    // keeps its hp.
    const STONE: u8 = 2;
    const FOUNDATION_HP: u16 = 500;
    let (hp, uh, fell) = upkeep_piece(
        &dc,
        &mut deploys,
        &[0u16],
        &[(0, 5), (0, 0), (0, 0), (0, 0)],
        1,
        STONE,
        FOUNDATION_HP,
        FOUNDATION_HP,
        0,
        1,
        4,
    );
    assert_eq!(deploys.hearths()[0].stock[0], FEED_CHUNK - 1);
    assert_eq!((hp, uh, fell), (FOUNDATION_HP, 1, false), "paid pieces keep hp");
}

#[test]
fn a_lift_into_a_full_hand_spills_the_item() {
    let dc = DeployContent::probe_fixture();
    let gc = GatherContent::probe_fixture();
    let mut deploys = Deploys::new();
    let mut ev = EventQueue::default();
    let mut p = player_at_cell(&[(3, 1)]);
    place_deploy(&dc, &mut deploys, &mut p, 0, 1, CX, CZ, 0, LOC_PLANE, founded(), &mut ev);
    assert_eq!(last(&ev).0, EV_DEPLOY_PLACED);
    let mut full = player_at_cell(&[]);
    full.id = 9;
    for k in 0..INV_SLOTS {
        full.inv[k] = ItemStack { item: 0, count: 1, cond: 0 };
    }
    let mut spill = no_spill();
    pick_up(&dc, &gc, &mut deploys, &mut full, CX, CZ, 0, LOC_PLANE, true, false, &mut ev, &mut spill);
    assert!(deploys.is_empty());
    assert_eq!(inv_count(&full.inv, 3), 0, "no room in the hand");
    assert_eq!(inv_count(&spill, 3), 1, "so the workbench item spills");
    // Out of reach or inside somebody's claim, nothing comes up.
    place_deploy(&dc, &mut deploys, &mut p, 0, 1, CX, CZ, 0, LOC_PLANE, founded(), &mut ev);
    let mut q = player_at_cell(&[(3, 1)]);
    q.id = 10;
    place_deploy(&dc, &mut deploys, &mut q, 0, 1, CX, CZ, 0, LOC_PLANE, founded(), &mut ev);
    assert_eq!(deploys.len(), 1);
    pick_up(&dc, &gc, &mut deploys, &mut q, CX, CZ, 0, LOC_PLANE, false, false, &mut ev, &mut no_spill());
    assert_eq!(last(&ev), (EV_DEPLOY_REFUSED, 10, REFUSE_D_REACH, 0));
    pick_up(&dc, &gc, &mut deploys, &mut q, CX, CZ, 0, LOC_PLANE, true, true, &mut ev, &mut no_spill());
    assert_eq!(last(&ev), (EV_DEPLOY_REFUSED, 10, REFUSE_D_CLAIM, 0));
    pick_up(&dc, &gc, &mut deploys, &mut q, CX + 1, CZ, 0, LOC_PLANE, true, false, &mut ev, &mut no_spill());
    assert_eq!(last(&ev), (EV_DEPLOY_REFUSED, 10, REFUSE_D_SPOT, 0));
    assert_eq!(deploys.len(), 1);
}

#[test]
fn a_fire_with_anything_in_it_does_not_come_up() {
    let dc = DeployContent::probe_fixture();
    let gc = GatherContent::probe_fixture();
    let mut deploys = Deploys::new();
    let mut ev = EventQueue::default();
    let mut p = player_at_cell(&[(0, 99), (6, 1)]);
    place_deploy(&dc, &mut deploys, &mut p, 0, 4, CX, CZ, 0, LOC_PLANE, bare(), &mut ev);
    assert_eq!(deploys.len(), 1);
    assert_eq!(deploys.boxes().len(), 1, "a fire owns a container");
    deploys.set_box_slot(0, 0, ItemStack { item: 1, count: 3, cond: 0 });
    pick_up(&dc, &gc, &mut deploys, &mut p, CX, CZ, 0, LOC_PLANE, true, false, &mut ev, &mut no_spill());
    assert_eq!((last(&ev).0, last(&ev).2), (EV_DEPLOY_REFUSED, REFUSE_D_NOT_EMPTY));
    assert_eq!(deploys.len(), 1, "a container comes up empty or not at all");
    assert_eq!(deploys.box_slot(0, 0).count, 3, "and keeps what it holds");
    deploys.set_box_slot(0, 0, ItemStack::default());
    pick_up(&dc, &gc, &mut deploys, &mut p, CX, CZ, 0, LOC_PLANE, true, false, &mut ev, &mut no_spill());
    assert_eq!(deploys.len(), 0, "emptied, it lifts");
    assert_eq!(inv_count(&p.inv, 6), 1);
}
