use sim_core::deploy::{
    box_key, charge_of, crew_op, damage_deploy, decay_at, drop_deploy, feed, loc_fits_placement, lock_op, piece_decay_pct,
    place_deploy, use_door, BagAnchor, DeployContent, DeployRec, Deploys, SiteFacts, ACCESS_OP_CREW_CLEAR,
    ACCESS_OP_CREW_JOIN, ACCESS_OP_CREW_LEAVE, ACCESS_OP_ENTER, ACCESS_OP_SET_CODE, ACCESS_OP_TAKE,
    BAG_CAP, BAG_COOLDOWN_TICKS, DECAY_MATERIALS, DECAY_PCT_PER_PERIOD, LOC_EDGE_XLO,
    LOC_EDGE_ZLO, LOC_PLANE, PLACE_ANY, PLACE_DOOR, PLACE_DOORWAY, PLACE_FOUNDATION,
    PLACE_GROUND, REFUSE_D_BAG_CAP, REFUSE_D_CLAIM, REFUSE_D_CODE, REFUSE_D_COST, REFUSE_D_DOOR,
    REFUSE_D_HAS_LOCK, REFUSE_D_HEARTH, REFUSE_D_KIND, REFUSE_D_NO_LOCK, REFUSE_D_OVERLAP,
    REFUSE_D_OWNER, REFUSE_D_REACH, REFUSE_D_SPOT, REFUSE_D_SUPPORT, REFUSE_D_TERRAIN, STOCK_MAX,
    UPKEEP_PERIOD_TICKS,
};
use sim_core::gather::{cell_key, GatherContent, ItemStack};
use sim_core::limits::{INV_SLOTS, TICK_HZ};
use sim_core::lock::{LockRec, GRANT_FULL, GRANT_NONE};
use sim_core::world::{
    Event, EventQueue, Player, EV_AUTH, EV_DEPLOY_PLACED, EV_DEPLOY_REFUSED, EV_DEPLOY_REMOVED, EV_DOOR, EV_HEALTH,
    EV_KNOCK, EV_STOCK, EV_STRUCT_HIT, STRUCT_DEPLOY_BIT,
};

const CX: u16 = 5;
const CZ: u16 = 6;
const OWNER: u32 = 7;
const RAIDER: u32 = 11;

fn last(ev: &EventQueue) -> (u8, u32, u32, u32) {
    let e: Event = *ev.entries().last().expect("an event");
    (e.code, e.a, e.b, e.c)
}

fn player(id: u32) -> Player {
    let mut p = Player::default();
    p.id = id;
    p.active = true;
    p.hp = 100;
    p.hp_max = 100;
    p
}

fn door_rec(owner: u32) -> DeployRec {
    DeployRec {
        cx: CX,
        cz: CZ,
        level: 0,
        loc: LOC_EDGE_XLO,
        row: 2,
        owner,
        hp: 60,
        ..DeployRec::default()
    }
}

/// A door at the fixture address with a fresh lock on it, coded 1234.
fn locked_door() -> (DeployContent, GatherContent, Deploys) {
    let dc = DeployContent::probe_fixture();
    let gc = GatherContent::probe_fixture();
    let mut deploys = Deploys::new();
    assert!(deploys.insert(door_rec(OWNER), 0));
    assert!(deploys.insert_lock(LockRec::fresh(CX, CZ, 0, LOC_EDGE_XLO, OWNER)));
    deploys.set_lock_mirror(0, true, false);
    let mut p = player(OWNER);
    let mut ev = EventQueue::new();
    let mut spill = [ItemStack::default(); INV_SLOTS];
    let r = lock_op(
        &dc, &gc, &mut deploys, &mut p, CX, CZ, 0, LOC_EDGE_XLO, ACCESS_OP_SET_CODE, 1234, 0,
        true, &mut ev, &mut spill,
    );
    assert_eq!(r, None);
    (dc, gc, deploys)
}

#[test]
fn the_cooldown_is_five_minutes_of_ticks() {
    assert_eq!(
        BAG_COOLDOWN_TICKS,
        5 * 60 * TICK_HZ as u64,
        "BAG_COOLDOWN_TICKS is no longer the 5 minutes DECISIONS.md §open declares"
    );
}

#[test]
fn an_unpriced_ladder_falls_back_to_the_flat_rate() {
    let mut dc = DeployContent::probe_fixture();
    dc.decay_pct = [0; DECAY_MATERIALS];
    for m in 0..DECAY_MATERIALS as u8 {
        assert_eq!(
            piece_decay_pct(&dc, m),
            DECAY_PCT_PER_PERIOD,
            "a new table may add a rule, never silently change one"
        );
    }
    // ...and a rate that would round to nothing still subtracts.
    assert_eq!(decay_at(50, 1), 1, "a decay that never subtracts is off");
}

#[test]
fn a_priced_ladder_reads_its_own_row() {
    let dc = DeployContent::probe_fixture();
    assert_eq!(piece_decay_pct(&dc, 0), 100);
    assert_eq!(piece_decay_pct(&dc, 3), 13);
    assert_eq!(piece_decay_pct(&dc, 9), DECAY_PCT_PER_PERIOD);
    assert_eq!(decay_at(200, 13), 26);
    assert_eq!(decay_at(0, 50), 1);
    // 30 wood at 10 % a day over 24 periods: ceil(300 / 2400) = 1.
    assert_eq!(charge_of(30, 10), 1);
    assert_eq!(charge_of(2400, 100), 100);
    assert_eq!(charge_of(0, 100), 0);
}

#[test]
fn box_keys_pack_cell_and_level() {
    assert_eq!(box_key(1, 2, 3), 0x1_0023);
    assert_eq!(box_key(0, 0, 0), 0);
    assert_eq!(box_key(0, 0, 17), 1, "the level keeps its low four bits");
}

#[test]
fn placement_classes_name_their_slots() {
    assert!(loc_fits_placement(PLACE_DOORWAY, LOC_EDGE_XLO));
    assert!(loc_fits_placement(PLACE_DOORWAY, LOC_EDGE_ZLO));
    assert!(!loc_fits_placement(PLACE_DOORWAY, LOC_PLANE));
    assert!(loc_fits_placement(PLACE_DOOR, LOC_PLANE));
    for c in [PLACE_GROUND, PLACE_FOUNDATION, PLACE_ANY] {
        assert!(loc_fits_placement(c, LOC_PLANE));
        assert!(!loc_fits_placement(c, LOC_EDGE_XLO));
    }
    assert!(!loc_fits_placement(99, LOC_PLANE));
}

#[test]
fn setting_a_code_locks_the_door_and_announces_it() {
    let (_dc, _gc, deploys) = locked_door();
    let d = deploys.entries()[0];
    assert!(d.has_lock && d.locked && !d.open);
    assert_eq!(deploys.locks()[0].code, 1234);
}

#[test]
fn a_wrong_code_shocks_and_names_the_reason() {
    let (dc, gc, mut deploys) = locked_door();
    let mut p = player(RAIDER);
    let mut ev = EventQueue::new();
    let mut spill = [ItemStack::default(); INV_SLOTS];
    let r = lock_op(
        &dc, &gc, &mut deploys, &mut p, CX, CZ, 0, LOC_EDGE_XLO, ACCESS_OP_ENTER, 1111, 10, true,
        &mut ev, &mut spill,
    );
    assert_eq!(r, None);
    assert_eq!(p.hp, 95, "the first miss costs one shock step");
    assert_eq!(ev.len(), 2);
    assert_eq!(
        (ev.entries()[0].code, ev.entries()[0].a, ev.entries()[0].b),
        (EV_HEALTH, RAIDER, 95)
    );
    assert_eq!(last(&ev), (EV_DEPLOY_REFUSED, RAIDER, REFUSE_D_CODE, 0));
    // The right code trusts the hand and names whose lock it was.
    let r = lock_op(
        &dc, &gc, &mut deploys, &mut p, CX, CZ, 0, LOC_EDGE_XLO, ACCESS_OP_ENTER, 1234, 20, true,
        &mut ev, &mut spill,
    );
    assert_eq!(r, Some(OWNER));
    assert_eq!(
        last(&ev),
        (
            EV_AUTH,
            cell_key(CX, CZ),
            ((LOC_EDGE_XLO as u32) << 8) | GRANT_FULL as u32,
            RAIDER
        )
    );
}

#[test]
fn lock_ops_bounce_on_a_missing_door_reach_and_lock() {
    let (dc, gc, mut deploys) = locked_door();
    let mut p = player(OWNER);
    let mut ev = EventQueue::new();
    let mut spill = [ItemStack::default(); INV_SLOTS];
    lock_op(
        &dc, &gc, &mut deploys, &mut p, CX + 1, CZ, 0, LOC_EDGE_XLO, ACCESS_OP_TAKE, 0, 0, true,
        &mut ev, &mut spill,
    );
    assert_eq!(last(&ev), (EV_DEPLOY_REFUSED, OWNER, REFUSE_D_DOOR, 0));
    lock_op(
        &dc, &gc, &mut deploys, &mut p, CX, CZ, 0, LOC_EDGE_XLO, ACCESS_OP_TAKE, 0, 0, false,
        &mut ev, &mut spill,
    );
    assert_eq!(last(&ev), (EV_DEPLOY_REFUSED, OWNER, REFUSE_D_REACH, 0));
    // A second, bare door: no lock to work.
    let mut bare = door_rec(OWNER);
    bare.cx = CX + 2;
    assert!(deploys.insert(bare, 0));
    lock_op(
        &dc, &gc, &mut deploys, &mut p, CX + 2, CZ, 0, LOC_EDGE_XLO, ACCESS_OP_TAKE, 0, 0, true,
        &mut ev, &mut spill,
    );
    assert_eq!(last(&ev), (EV_DEPLOY_REFUSED, OWNER, REFUSE_D_NO_LOCK, 0));
    assert_eq!(deploys.locks().len(), 1, "nothing moved");
}

#[test]
fn taking_the_lock_hands_it_back_and_bares_the_door() {
    let (dc, gc, mut deploys) = locked_door();
    let mut p = player(OWNER);
    let mut ev = EventQueue::new();
    let mut spill = [ItemStack::default(); INV_SLOTS];
    lock_op(
        &dc, &gc, &mut deploys, &mut p, CX, CZ, 0, LOC_EDGE_XLO, ACCESS_OP_TAKE, 0, 0, true,
        &mut ev, &mut spill,
    );
    assert_eq!(deploys.locks().len(), 0);
    let d = deploys.entries()[0];
    assert!(!d.has_lock && !d.locked);
    assert_eq!(
        last(&ev),
        (EV_DOOR, cell_key(CX, CZ), (LOC_EDGE_XLO as u32) << 8, OWNER)
    );
    // The fixture's lock row spends item 7.
    assert_eq!(p.inv[0].item, 7);
    assert_eq!(p.inv[0].count, 1);
    assert_eq!(spill[0].count, 0);
}

#[test]
fn a_bare_door_swings_for_anyone_and_a_locked_one_knocks() {
    let dc = DeployContent::probe_fixture();
    let mut deploys = Deploys::new();
    assert!(deploys.insert(door_rec(OWNER), 0));
    let stranger = player(RAIDER);
    let mut ev = EventQueue::new();
    assert_eq!(
        use_door(&dc, &mut deploys, &stranger, CX, CZ, 0, LOC_EDGE_XLO, true, &mut ev),
        Some(OWNER)
    );
    assert!(deploys.entries()[0].open);
    assert_eq!(
        last(&ev),
        (EV_DOOR, cell_key(CX, CZ), ((LOC_EDGE_XLO as u32) << 8) | 1, RAIDER)
    );
    // No door at an empty address, and reach is checked after the door.
    use_door(&dc, &mut deploys, &stranger, CX, CZ, 0, LOC_EDGE_ZLO, true, &mut ev);
    assert_eq!(last(&ev), (EV_DEPLOY_REFUSED, RAIDER, REFUSE_D_DOOR, 0));
    use_door(&dc, &mut deploys, &stranger, CX, CZ, 0, LOC_EDGE_XLO, false, &mut ev);
    assert_eq!(last(&ev), (EV_DEPLOY_REFUSED, RAIDER, REFUSE_D_REACH, 0));

    let (dc, _gc, mut deploys) = locked_door();
    let mut ev = EventQueue::new();
    assert_eq!(
        use_door(&dc, &mut deploys, &stranger, CX, CZ, 0, LOC_EDGE_XLO, true, &mut ev),
        None
    );
    assert!(!deploys.entries()[0].open, "a refusal never moves the leaf");
    assert_eq!(ev.len(), 2);
    assert_eq!(ev.entries()[0].code, EV_KNOCK);
    assert_eq!(last(&ev), (EV_DEPLOY_REFUSED, RAIDER, REFUSE_D_OWNER, 0));
    let owner = player(OWNER);
    assert_eq!(
        use_door(&dc, &mut deploys, &owner, CX, CZ, 0, LOC_EDGE_XLO, true, &mut ev),
        Some(OWNER)
    );
    assert!(deploys.entries()[0].open);
}

#[test]
fn the_crew_joins_leaves_and_clears() {
    let mut deploys = Deploys::new();
    assert!(deploys.push_hearth(CX, CZ, 0, OWNER));
    let mut ev = EventQueue::new();
    let stranger = player(RAIDER);
    let owner = player(OWNER);
    // A crewed hearth refuses a stranger's join.
    assert_eq!(
        crew_op(&mut deploys, &stranger, CX, CZ, 0, ACCESS_OP_CREW_JOIN, true, &mut ev),
        None
    );
    assert_eq!(last(&ev), (EV_DEPLOY_REFUSED, RAIDER, REFUSE_D_OWNER, 0));
    assert_eq!(deploys.hearths()[0].crew.members(), &[OWNER]);
    // A member's re-press moves nothing but still reports the standing.
    assert_eq!(
        crew_op(&mut deploys, &owner, CX, CZ, 0, ACCESS_OP_CREW_JOIN, true, &mut ev),
        None
    );
    assert_eq!(
        last(&ev),
        (EV_AUTH, cell_key(CX, CZ), ((LOC_PLANE as u32) << 8) | GRANT_FULL as u32, OWNER)
    );
    // Leaving empties it; then anyone may join.
    assert_eq!(
        crew_op(&mut deploys, &owner, CX, CZ, 0, ACCESS_OP_CREW_LEAVE, true, &mut ev),
        Some(OWNER)
    );
    assert_eq!(
        last(&ev),
        (EV_AUTH, cell_key(CX, CZ), ((LOC_PLANE as u32) << 8) | GRANT_NONE as u32, OWNER)
    );
    assert!(deploys.hearths()[0].crew.is_empty());
    assert_eq!(
        crew_op(&mut deploys, &stranger, CX, CZ, 0, ACCESS_OP_CREW_JOIN, true, &mut ev),
        Some(OWNER)
    );
    assert_eq!(
        crew_op(&mut deploys, &owner, CX, CZ, 0, ACCESS_OP_CREW_CLEAR, true, &mut ev),
        None
    );
    assert_eq!(last(&ev), (EV_DEPLOY_REFUSED, OWNER, REFUSE_D_OWNER, 0));
    assert_eq!(
        crew_op(&mut deploys, &stranger, CX, CZ, 0, ACCESS_OP_CREW_CLEAR, true, &mut ev),
        Some(OWNER)
    );
    assert_eq!(deploys.hearths()[0].crew.members(), &[RAIDER]);
    // No hearth, and out of reach.
    crew_op(&mut deploys, &owner, CX + 1, CZ, 0, ACCESS_OP_CREW_JOIN, true, &mut ev);
    assert_eq!(last(&ev), (EV_DEPLOY_REFUSED, OWNER, REFUSE_D_HEARTH, 0));
    crew_op(&mut deploys, &owner, CX, CZ, 0, ACCESS_OP_CREW_JOIN, false, &mut ev);
    assert_eq!(last(&ev), (EV_DEPLOY_REFUSED, OWNER, REFUSE_D_REACH, 0));
}

#[test]
fn feeding_moves_a_chunk_per_material_up_to_the_ceiling() {
    let dc = DeployContent::probe_fixture();
    let mut deploys = Deploys::new();
    assert!(deploys.push_hearth(CX, CZ, 0, OWNER));
    let mut p = player(OWNER);
    p.inv[0] = ItemStack { item: 0, count: 150, cond: 0 };
    p.inv[1] = ItemStack { item: 1, count: 30, cond: 0 };
    let mut ev = EventQueue::new();
    feed(&dc, &mut deploys, &mut p, CX, CZ, 0, true, &mut ev);
    assert_eq!(deploys.hearths()[0].stock, [100, 30, 0, 0]);
    assert_eq!(p.inv[0].count, 50);
    assert_eq!(p.inv[1], ItemStack::default(), "an emptied slot is cleared");
    assert_eq!(last(&ev), (EV_STOCK, OWNER, cell_key(CX, CZ), 0));
    // Twenty more presses cannot push a row past its ceiling.
    p.inv[0] = ItemStack { item: 0, count: 60_000, cond: 0 };
    for _ in 0..25 {
        feed(&dc, &mut deploys, &mut p, CX, CZ, 0, true, &mut ev);
    }
    assert_eq!(deploys.hearths()[0].stock[0], STOCK_MAX);
    feed(&dc, &mut deploys, &mut p, CX + 3, CZ, 0, true, &mut ev);
    assert_eq!(last(&ev), (EV_DEPLOY_REFUSED, OWNER, REFUSE_D_HEARTH, 0));
}

#[test]
fn own_bags_lists_only_the_owners_bags() {
    let dc = DeployContent::probe_fixture();
    let mut deploys = Deploys::new();
    let bag = |cx: u16, owner: u32| DeployRec {
        cx,
        cz: CZ,
        level: 0,
        loc: LOC_PLANE,
        row: 3,
        owner,
        hp: 50,
        ..DeployRec::default()
    };
    assert!(deploys.insert(bag(1, OWNER), 0));
    assert!(deploys.insert(bag(2, RAIDER), 0));
    assert!(deploys.insert(door_rec(OWNER), 0));
    assert!(deploys.insert(bag(3, OWNER), 0));
    let mut out = [BagAnchor::default(); BAG_CAP];
    let n = deploys.own_bags(&dc, OWNER, 5, &mut out);
    assert_eq!(n, 2);
    assert_eq!((out[0].cx, out[1].cx), (1, 3));
    assert!(out[0].ready && out[1].ready, "a bag is born ready");
}

#[test]
fn a_removed_door_takes_its_lock_with_it() {
    let (dc, _gc, mut deploys) = locked_door();
    assert_eq!(deploys.locks().len(), 1);
    let di = deploys
        .find_index(CX, CZ, 0, LOC_EDGE_XLO)
        .expect("the door");
    let mut ev = EventQueue::new();
    drop_deploy(&dc, &mut deploys, di, &mut ev);
    assert_eq!(
        deploys.locks().len(),
        0,
        "a lock left at a dead address would refuse the next door built there"
    );
    assert!(deploys.is_empty());
    assert_eq!(
        last(&ev),
        (EV_DEPLOY_REMOVED, cell_key(CX, CZ), ((LOC_EDGE_XLO as u32) << 8) | 2, 0)
    );
}

#[test]
fn a_hit_reports_what_it_dealt_and_the_last_one_removes() {
    let dc = DeployContent::probe_fixture();
    let mut deploys = Deploys::new();
    assert!(deploys.insert(door_rec(OWNER), 0));
    let mut ev = EventQueue::new();
    assert!(!damage_deploy(&dc, &mut deploys, 0, 25, &mut ev));
    assert_eq!(deploys.entries()[0].hp, 35);
    let addr = STRUCT_DEPLOY_BIT | ((LOC_EDGE_XLO as u32) << 8) | 2;
    assert_eq!(last(&ev), (EV_STRUCT_HIT, cell_key(CX, CZ), addr, (25 << 16) | 35));
    assert!(damage_deploy(&dc, &mut deploys, 0, 100, &mut ev));
    assert!(deploys.is_empty());
    assert_eq!(ev.entries()[1].c, (35 << 16) | 0, "a killing blow deals only what was left");
    assert_eq!(last(&ev).0, EV_DEPLOY_REMOVED);
}

fn open_site() -> SiteFacts {
    SiteFacts {
        in_reach: true,
        foreign_claim: false,
        any_claim: false,
        ground_ok: true,
        plane_piece: true,
        doorway_piece: true,
    }
}

fn holding(id: u32, item: u16, count: u16) -> Player {
    let mut p = player(id);
    p.inv[0] = ItemStack { item, count, cond: 0 };
    p
}

#[test]
fn a_bag_stands_on_open_ground_and_spends_its_item() {
    let dc = DeployContent::probe_fixture();
    let mut deploys = Deploys::new();
    let mut p = holding(OWNER, 5, 2);
    let mut ev = EventQueue::new();
    let tick = 3 * UPKEEP_PERIOD_TICKS + 7;
    assert!(place_deploy(&dc, &mut deploys, &mut p, tick, 3, CX, CZ, 0, LOC_PLANE, open_site(), &mut ev));
    assert_eq!(deploys.len(), 1);
    let d = deploys.entries()[0];
    assert_eq!((d.cx, d.cz, d.level, d.loc, d.row, d.owner, d.hp, d.uh), (CX, CZ, 0, LOC_PLANE, 3, OWNER, 50, 3));
    assert!(!d.open && !d.has_lock && !d.locked);
    assert_eq!(deploys.placed_at(0), tick);
    assert_eq!(p.inv[0].count, 1, "one bag item spent");
    assert_eq!(last(&ev), (EV_DEPLOY_PLACED, cell_key(CX, CZ), (LOC_PLANE as u32) << 8 | 3, OWNER));
    assert!(deploys.boxes().is_empty() && deploys.hearths().is_empty());
}

#[test]
fn placement_refusals_come_in_order() {
    let dc = DeployContent::probe_fixture();
    let cases: [(u16, u16, u8, u8, SiteFacts, u32); 8] = [
        (9, CX, 0, LOC_PLANE, open_site(), REFUSE_D_KIND),
        (3, CX, 0, LOC_EDGE_XLO, open_site(), REFUSE_D_SPOT),
        (3, 1024, 0, LOC_PLANE, open_site(), REFUSE_D_SPOT),
        (3, CX, 8, LOC_PLANE, open_site(), REFUSE_D_SPOT),
        (3, CX, 0, LOC_PLANE, SiteFacts { in_reach: false, ..open_site() }, REFUSE_D_REACH),
        (3, CX, 0, LOC_PLANE, SiteFacts { foreign_claim: true, ..open_site() }, REFUSE_D_CLAIM),
        (3, CX, 0, LOC_PLANE, SiteFacts { ground_ok: false, ..open_site() }, REFUSE_D_TERRAIN),
        (3, CX, 1, LOC_PLANE, open_site(), REFUSE_D_SUPPORT),
    ];
    for (row, cx, level, loc, site, want) in cases {
        let mut deploys = Deploys::new();
        let mut p = holding(OWNER, 5, 1);
        let mut ev = EventQueue::new();
        assert!(!place_deploy(&dc, &mut deploys, &mut p, 0, row, cx, CZ, level, loc, site, &mut ev));
        assert_eq!(last(&ev), (EV_DEPLOY_REFUSED, OWNER, want, 0), "row {row} at {cx}/{level}/{loc}");
        assert!(deploys.is_empty());
        assert_eq!(p.inv[0].count, 1, "a refusal spends nothing");
    }
}

#[test]
fn an_occupied_spot_and_an_empty_hand_refuse() {
    let dc = DeployContent::probe_fixture();
    let mut deploys = Deploys::new();
    let mut p = holding(OWNER, 5, 1);
    let mut ev = EventQueue::new();
    assert!(place_deploy(&dc, &mut deploys, &mut p, 0, 3, CX, CZ, 0, LOC_PLANE, open_site(), &mut ev));
    let mut q = holding(OWNER, 5, 1);
    assert!(!place_deploy(&dc, &mut deploys, &mut q, 0, 3, CX, CZ, 0, LOC_PLANE, open_site(), &mut ev));
    assert_eq!(last(&ev), (EV_DEPLOY_REFUSED, OWNER, REFUSE_D_SPOT, 0));
    assert!(!place_deploy(&dc, &mut deploys, &mut p, 0, 3, CX + 1, CZ, 0, LOC_PLANE, open_site(), &mut ev));
    assert_eq!(last(&ev), (EV_DEPLOY_REFUSED, OWNER, REFUSE_D_COST, 0));
    assert_eq!(deploys.len(), 1);
}

#[test]
fn a_hearth_joins_its_placer_and_refuses_inside_a_claim() {
    let dc = DeployContent::probe_fixture();
    let mut deploys = Deploys::new();
    let mut p = holding(OWNER, 2, 2);
    let mut ev = EventQueue::new();
    let claimed = SiteFacts { any_claim: true, ..open_site() };
    assert!(!place_deploy(&dc, &mut deploys, &mut p, 0, 0, CX, CZ, 0, LOC_PLANE, claimed, &mut ev));
    assert_eq!(last(&ev), (EV_DEPLOY_REFUSED, OWNER, REFUSE_D_OVERLAP, 0));
    let bare = SiteFacts { plane_piece: false, ..open_site() };
    assert!(!place_deploy(&dc, &mut deploys, &mut p, 0, 0, CX, CZ, 0, LOC_PLANE, bare, &mut ev));
    assert_eq!(last(&ev), (EV_DEPLOY_REFUSED, OWNER, REFUSE_D_SUPPORT, 0), "a hearth wants a foundation");
    assert!(place_deploy(&dc, &mut deploys, &mut p, 0, 0, CX, CZ, 0, LOC_PLANE, open_site(), &mut ev));
    let h = &deploys.hearths()[0];
    assert_eq!((h.cx, h.cz, h.level, h.owner), (CX, CZ, 0, OWNER));
    assert_eq!(h.stock, [0; 4]);
    assert_eq!(p.inv[0].count, 1);
}

#[test]
fn a_fire_stands_an_empty_box() {
    let dc = DeployContent::probe_fixture();
    let mut deploys = Deploys::new();
    let mut p = holding(OWNER, 6, 1);
    let mut ev = EventQueue::new();
    assert!(place_deploy(&dc, &mut deploys, &mut p, 0, 4, CX, CZ, 0, LOC_PLANE, open_site(), &mut ev));
    assert_eq!(deploys.boxes().len(), 1);
    let b = deploys.boxes()[0];
    assert_eq!((b.cx, b.cz, b.level, b.owner), (CX, CZ, 0, OWNER));
    assert!(b.is_empty());
    assert_eq!(p.inv[0], ItemStack::default(), "the last item leaves the slot empty");
}

#[test]
fn a_lock_bolts_onto_a_door_once_and_mints_no_record() {
    let dc = DeployContent::probe_fixture();
    let mut deploys = Deploys::new();
    assert!(deploys.insert(door_rec(OWNER), 0));
    let mut p = holding(RAIDER, 7, 2);
    let mut ev = EventQueue::new();
    assert!(!place_deploy(&dc, &mut deploys, &mut p, 0, 5, CX, CZ, 0, LOC_EDGE_XLO, open_site(), &mut ev));
    assert_eq!(deploys.len(), 1, "a lock is no deployable");
    assert_eq!(deploys.locks().len(), 1);
    assert_eq!(deploys.locks()[0].owner, RAIDER);
    let d = deploys.entries()[0];
    assert!(d.has_lock && !d.locked);
    assert_eq!(last(&ev), (EV_DOOR, cell_key(CX, CZ), (LOC_EDGE_XLO as u32) << 8 | 4, RAIDER));
    assert_eq!(p.inv[0].count, 1);
    assert!(!place_deploy(&dc, &mut deploys, &mut p, 0, 5, CX, CZ, 0, LOC_EDGE_XLO, open_site(), &mut ev));
    assert_eq!(last(&ev), (EV_DEPLOY_REFUSED, RAIDER, REFUSE_D_HAS_LOCK, 0));
    assert!(!place_deploy(&dc, &mut deploys, &mut p, 0, 5, CX, CZ, 0, LOC_EDGE_ZLO, open_site(), &mut ev));
    assert_eq!(last(&ev), (EV_DEPLOY_REFUSED, RAIDER, REFUSE_D_SUPPORT, 0), "no door on that edge");
    assert_eq!(p.inv[0].count, 1);
}

#[test]
fn bags_stop_at_the_cap() {
    let dc = DeployContent::probe_fixture();
    let mut deploys = Deploys::new();
    let mut p = holding(OWNER, 5, 20);
    let mut ev = EventQueue::new();
    for k in 0..BAG_CAP as u16 {
        assert!(place_deploy(&dc, &mut deploys, &mut p, 0, 3, k, CZ, 0, LOC_PLANE, open_site(), &mut ev));
    }
    assert!(!place_deploy(&dc, &mut deploys, &mut p, 0, 3, 100, CZ, 0, LOC_PLANE, open_site(), &mut ev));
    assert_eq!(last(&ev), (EV_DEPLOY_REFUSED, OWNER, REFUSE_D_BAG_CAP, 0));
    let mut other = holding(RAIDER, 5, 1);
    assert!(place_deploy(&dc, &mut deploys, &mut other, 0, 3, 100, CZ, 0, LOC_PLANE, open_site(), &mut ev));
}
