use sim_core::deploy::{feed, place_deploy, DeployContent, DeployRec, Deploys, SiteFacts, LOC_EDGE_XLO, LOC_PLANE, UPKEEP_PERIOD_TICKS};
use sim_core::gather::ItemStack;
use sim_core::upkeep::{charge_period, sweep_deploys, upkeep_deploy, upkeep_piece, MAT_TWIG};
use sim_core::world::{EventQueue, Player, EV_DEPLOY_REMOVED};

const COSTS: [(u16, u16); 4] = [(0, 30), (1, 10), (0, 0), (0, 0)];

/// One hearth at (5, 6), stocked from a hand holding `wood` of item 0 and
/// `stone` of item 1.
fn stocked(wood: u16, stone: u16) -> (DeployContent, Deploys) {
    let dc = DeployContent::probe_fixture();
    let mut deploys = Deploys::new();
    assert!(deploys.push_hearth(5, 6, 0, 7));
    let mut p = Player::default();
    p.id = 7;
    p.inv[0] = ItemStack { item: 0, count: wood, cond: 0 };
    p.inv[1] = ItemStack { item: 1, count: stone, cond: 0 };
    let mut ev = EventQueue::new();
    feed(&dc, &mut deploys, &mut p, 5, 6, 0, true, &mut ev);
    (dc, deploys)
}

#[test]
fn each_material_row_is_charged_on_its_own() {
    let (dc, mut deploys) = stocked(100, 0);
    // 30 wood and 10 stone at 10 % a day over 24 periods: one of each.
    assert!(!charge_period(&dc, &mut deploys, &[0], &COSTS, 2));
    assert_eq!(deploys.hearths()[0].stock, [99, 0, 0, 0], "the paid row is spent anyway");
    let (dc, mut deploys) = stocked(100, 100);
    assert!(charge_period(&dc, &mut deploys, &[0], &COSTS, 2));
    assert_eq!(deploys.hearths()[0].stock, [99, 99, 0, 0]);
    assert!(!charge_period(&dc, &mut deploys, &[], &COSTS, 2), "no hearth, no protection");
    assert_eq!(deploys.hearths()[0].stock, [99, 99, 0, 0]);
}

#[test]
fn an_unpaid_piece_rots_by_its_grade() {
    let (dc, mut deploys) = stocked(100, 0);
    // Material 1 rots 34 % of 100 hp a period.
    assert_eq!(
        upkeep_piece(&dc, &mut deploys, &[0], &COSTS, 2, 1, 100, 100, 0, 2, 24),
        (32, 2, false)
    );
    assert_eq!(deploys.hearths()[0].stock[0], 98);
    // A paid piece keeps every point.
    let (dc, mut deploys) = stocked(100, 100);
    assert_eq!(
        upkeep_piece(&dc, &mut deploys, &[0], &COSTS, 2, 1, 100, 100, 0, 2, 24),
        (100, 2, false)
    );
}

#[test]
fn twig_is_never_paid_for_and_falls_in_one_period() {
    let (dc, mut deploys) = stocked(100, 100);
    assert_eq!(
        upkeep_piece(&dc, &mut deploys, &[0], &COSTS, 2, MAT_TWIG, 100, 100, 0, 5, 24),
        (0, 1, true)
    );
    assert_eq!(deploys.hearths()[0].stock, [100, 100, 0, 0], "a scaffold spends nobody's stock");
}

#[test]
fn a_long_absence_is_forgiven_past_the_catch_up() {
    let (dc, mut deploys) = stocked(100, 100);
    assert_eq!(
        upkeep_piece(&dc, &mut deploys, &[0], &COSTS, 2, 2, 100, 100, 0, 50, 3),
        (100, 50, false)
    );
    assert_eq!(deploys.hearths()[0].stock, [97, 97, 0, 0], "only three periods were worked");
}

#[test]
fn covered_deployables_are_free_and_uncovered_ones_rot() {
    let dc = DeployContent::probe_fixture();
    let door = DeployRec { cx: 5, cz: 6, loc: LOC_EDGE_XLO, row: 2, owner: 7, hp: 60, ..DeployRec::default() };
    let mut deploys = Deploys::new();
    assert!(deploys.insert(door, 0));
    let mut ev = EventQueue::new();
    assert!(!upkeep_deploy(&dc, &mut deploys, 0, 3, true, 24, &mut ev));
    assert_eq!((deploys.entries()[0].hp, deploys.entries()[0].uh), (60, 3));
    assert!(!upkeep_deploy(&dc, &mut deploys, 0, 3, false, 24, &mut ev), "nothing due");
    assert!(!upkeep_deploy(&dc, &mut deploys, 0, 5, false, 24, &mut ev));
    assert_eq!((deploys.entries()[0].hp, deploys.entries()[0].uh), (54, 5), "5 % of 60 a period");
    deploys.set_hp(0, 2);
    assert!(upkeep_deploy(&dc, &mut deploys, 0, 6, false, 24, &mut ev));
    assert!(deploys.is_empty());
    assert_eq!(ev.entries().last().unwrap().code, EV_DEPLOY_REMOVED);
}

fn site(plane_piece: bool) -> SiteFacts {
    SiteFacts {
        in_reach: true,
        foreign_claim: false,
        any_claim: false,
        ground_ok: !plane_piece,
        plane_piece,
        doorway_piece: false,
    }
}

#[test]
fn covered_deployables_are_free_uncovered_ones_decay() {
    let dc = DeployContent::probe_fixture();
    let mut deploys = Deploys::new();
    let mut ev = EventQueue::new();
    let mut p = Player::default();
    p.id = 7;
    p.inv[0] = ItemStack { item: 0, count: 250, cond: 0 };
    p.inv[1] = ItemStack { item: 1, count: 99, cond: 0 };
    p.inv[2] = ItemStack { item: 2, count: 1, cond: 0 };
    p.inv[3] = ItemStack { item: 5, count: 5, cond: 0 };
    const CX: u16 = 341;
    const CZ: u16 = 341;
    assert!(place_deploy(&dc, &mut deploys, &mut p, 0, 0, CX, CZ, 0, LOC_PLANE, site(true), &mut ev));
    feed(&dc, &mut deploys, &mut p, CX, CZ, 0, true, &mut ev);
    // A bag inside the claim and one far outside it.
    assert!(place_deploy(&dc, &mut deploys, &mut p, 0, 3, CX + 2, CZ, 0, LOC_PLANE, site(false), &mut ev));
    let far = CX + 40;
    assert!(place_deploy(&dc, &mut deploys, &mut p, 0, 3, far, CZ, 0, LOC_PLANE, site(false), &mut ev));
    let near_hp = deploys.find(CX + 2, CZ, 0, LOC_PLANE).unwrap().hp;
    // The stocked hearth covers itself and the near bag; the far bag is
    // nobody's.
    let mut claims = vec![vec![(CX, CZ, 0u8)], vec![(CX, CZ, 0u8)], vec![]];
    let mut cursor = 0u32;
    sweep_deploys(&dc, &mut deploys, UPKEEP_PERIOD_TICKS + 1, &mut cursor, &mut claims, &mut ev);
    assert_eq!(
        deploys.find(CX + 2, CZ, 0, LOC_PLANE).unwrap().hp,
        near_hp,
        "covered deployables pay nothing and lose nothing"
    );
    let far_rec = deploys.find(far, CZ, 0, LOC_PLANE).unwrap();
    assert!(far_rec.hp < dc.defs[3].hp, "uncovered deployables decay ({} vs {})", far_rec.hp, dc.defs[3].hp);
    assert_eq!(far_rec.hp, 50 - 2, "one period takes 5 % of 50, its whole part");
    assert!(deploys.entries().iter().all(|d| d.uh == 1), "every record is caught up to the period");
}

#[test]
fn the_sweep_removes_what_rots_away_and_keeps_its_cursor_on_the_gap() {
    let dc = DeployContent::probe_fixture();
    let mut deploys = Deploys::new();
    let bag = |cx: u16, hp: u16| DeployRec { cx, cz: 6, level: 0, loc: LOC_PLANE, row: 3, owner: 7, hp, ..DeployRec::default() };
    assert!(deploys.insert(bag(1, 50), 0));
    assert!(deploys.insert(bag(2, 2), 0));
    assert!(deploys.insert(bag(3, 50), 0));
    let mut claims: Vec<Vec<(u16, u16, u8)>> = vec![vec![], vec![], vec![]];
    let mut cursor = 1u32;
    let mut ev = EventQueue::new();
    sweep_deploys(&dc, &mut deploys, UPKEEP_PERIOD_TICKS, &mut cursor, &mut claims, &mut ev);
    // Visit 1 takes the 2-hp bag at index 1 away; the last bag moves into
    // its slot and the cursor stays on it; the rest are worked once each.
    assert_eq!(deploys.len(), 2);
    assert_eq!(claims.len(), 2);
    assert_eq!(deploys.entries()[1].cx, 3, "the last record filled the gap");
    assert_eq!(ev.entries().iter().filter(|e| e.code == EV_DEPLOY_REMOVED).count(), 1);
    assert!(deploys.entries().iter().all(|d| d.hp == 48 && d.uh == 1));
    // Nothing is due any more: a second sweep in the same period moves
    // only the cursor.
    let before: Vec<DeployRec> = deploys.entries().to_vec();
    sweep_deploys(&dc, &mut deploys, UPKEEP_PERIOD_TICKS, &mut cursor, &mut claims, &mut ev);
    assert_eq!(deploys.entries(), &before[..]);
}

#[test]
fn with_no_upkeep_priced_the_sweep_does_nothing() {
    let dc = DeployContent::empty();
    let mut deploys = Deploys::new();
    let d = DeployRec { cx: 1, cz: 1, loc: LOC_PLANE, row: 3, hp: 1, ..DeployRec::default() };
    assert!(deploys.insert(d, 0));
    let mut claims: Vec<Vec<(u16, u16, u8)>> = vec![vec![]];
    let mut cursor = 0u32;
    let mut ev = EventQueue::new();
    sweep_deploys(&dc, &mut deploys, 100 * UPKEEP_PERIOD_TICKS, &mut cursor, &mut claims, &mut ev);
    assert_eq!(deploys.len(), 1);
    assert_eq!(cursor, 0);
    assert!(ev.entries().is_empty());
}

#[test]
fn a_hearth_that_rots_away_in_the_sweep_covers_nothing_after() {
    let dc = DeployContent::probe_fixture();
    let mut deploys = Deploys::new();
    let mut ev = EventQueue::new();
    let mut p = Player::default();
    p.id = 7;
    p.inv[0] = ItemStack { item: 0, count: 250, cond: 0 };
    p.inv[1] = ItemStack { item: 1, count: 99, cond: 0 };
    p.inv[2] = ItemStack { item: 2, count: 1, cond: 0 };
    p.inv[3] = ItemStack { item: 5, count: 5, cond: 0 };
    const CX: u16 = 341;
    const CZ: u16 = 341;
    assert!(place_deploy(&dc, &mut deploys, &mut p, 0, 0, CX, CZ, 0, LOC_PLANE, site(true), &mut ev));
    feed(&dc, &mut deploys, &mut p, CX, CZ, 0, true, &mut ev);
    assert!(place_deploy(&dc, &mut deploys, &mut p, 0, 3, CX + 2, CZ, 0, LOC_PLANE, site(false), &mut ev));
    assert!(place_deploy(&dc, &mut deploys, &mut p, 0, 3, CX + 40, CZ, 0, LOC_PLANE, site(false), &mut ev));
    // The hearth's own cell lies outside what its claim answers for, and
    // it is down to its last point: it rots on the first visit, stock and
    // all, and the bag its claim covered is bare for the rest of the sweep.
    deploys.set_hp(0, 1);
    let mut claims = vec![vec![], vec![(CX, CZ, 0u8)], vec![]];
    let mut cursor = 0u32;
    sweep_deploys(&dc, &mut deploys, UPKEEP_PERIOD_TICKS, &mut cursor, &mut claims, &mut ev);
    assert_eq!(deploys.hearths().len(), 0, "the hearth is gone");
    assert_eq!(deploys.find(CX + 2, CZ, 0, LOC_PLANE).unwrap().hp, 48, "so the bag it covered decays");
}
