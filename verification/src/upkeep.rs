//! The upkeep and decay rule: what a period costs a piece or a
//! deployable, who pays it and what rots when nobody does — one entry at a
//! time, and the deployable sweep that visits a bounded number of entries
//! a tick from a cursor.
//!
//! Per material, not all-or-nothing: each cost row is charged to the first
//! covering hearth, in list order, whose stock of that material can pay
//! it, and a piece is protected only when every row found a payer. Rows
//! are charged as they are found, so a piece that pays three rows and
//! misses the fourth has still spent the three — if your stone runs out,
//! only the stone parts of your base lose health. A hearth has to cover a
//! piece at all before any row is priced, and a twig scaffold is never
//! paid for. What covers what is the claim geometry's answer, which the
//! caller hands in as the covering hearths in list order.
use vstd::prelude::*;

use crate::deploy::{
    boxes_after_drop, drop_deploy, hearth_stocked_at, hearths_after_drop, locks_after_drop, spill_after_drop, spec_piece_decay_pct,
    BoxRec, address_word, Deploys, DeployContent, DeployRec, HearthModel,
    DECAY_PCT_PER_PERIOD, UPKEEP_PERIOD_TICKS,
};
use crate::gather::spec_cell_key;
use crate::limits::{HEARTH_STOCK_ROWS, MAX_DEPLOY_DEFS, MAX_RECIPE_INPUTS, UPKEEP_SWEEP_PER_TICK};
use crate::lock::LockModel;
use crate::lock::swap_removed;
use crate::world::{Event, EventQueue, EV_DEPLOY_REMOVED};

verus! {

/// The first rung of the decay ladder: a scaffold, never paid for.
pub const MAT_TWIG: u8 = 0;

/// One period's charge for one cost row at the table's daily rate, rounded
/// up.
pub open spec fn row_charge(dc: DeployContent, cost: u16) -> int {
    (cost as int * dc.upkeep_pct_per_day as int + 2399) / 2400
}

/// What one period costs a piece in `item`: its first `n` cost rows that
/// name it.
pub open spec fn due_for(dc: DeployContent, costs: Seq<(u16, u16)>, n: int, item: u16) -> int
    decreases n,
{
    if n <= 0 {
        0
    } else {
        due_for(dc, costs, n - 1, item) + (if costs[n - 1].0 == item { row_charge(dc, costs[n - 1].1) } else { 0 })
    }
}

/// The first covering hearth, from cover position `k` on, whose stock of
/// material `m` can pay `due`.
pub open spec fn payer_from(hs: Seq<HearthModel>, cover: Seq<u16>, m: int, due: int, k: int) -> Option<int>
    decreases cover.len() - k,
{
    if k < 0 || k >= cover.len() {
        None
    } else if hs[cover[k] as int].stock[m] >= due {
        Some(k)
    } else {
        payer_from(hs, cover, m, due, k + 1)
    }
}

/// Hearth `h` with `due` of material `m` taken from its stock.
pub open spec fn spend(hs: Seq<HearthModel>, h: int, m: int, due: int) -> Seq<HearthModel> {
    hs.update(h, HearthModel { stock: hs[h].stock.update(m, (hs[h].stock[m] - due) as u32), ..hs[h] })
}

/// Charging a piece's material rows from row `m` on: each row with a
/// charge is paid by its first able hearth, or leaves the piece unpaid.
pub open spec fn charge_from(
    hs: Seq<HearthModel>,
    dc: DeployContent,
    cover: Seq<u16>,
    costs: Seq<(u16, u16)>,
    n: int,
    m: int,
    paid: bool,
) -> (Seq<HearthModel>, bool)
    decreases HEARTH_STOCK_ROWS - m,
{
    if m < 0 || m >= dc.mat_count || m >= HEARTH_STOCK_ROWS {
        (hs, paid)
    } else {
        let due = due_for(dc, costs, n, dc.mats[m]);
        if due == 0 {
            charge_from(hs, dc, cover, costs, n, m + 1, paid)
        } else {
            match payer_from(hs, cover, m, due, 0) {
                Some(k) => charge_from(spend(hs, cover[k] as int, m, due), dc, cover, costs, n, m + 1, paid),
                None => charge_from(hs, dc, cover, costs, n, m + 1, false),
            }
        }
    }
}

/// Hp one decay period takes at `pct` % of `max_hp`, never less than 1.
pub open spec fn decay_value(max_hp: u16, pct: u32) -> int {
    (if max_hp as int * pct / 100 >= 1 { max_hp as int * pct / 100 } else { 1 }) % 0x1_0000
}

/// One period of one piece: paid by its covering hearths, or rotting by
/// its material's rate. Returns the hearths, the hp, and whether it fell.
pub open spec fn piece_period(
    hs: Seq<HearthModel>,
    dc: DeployContent,
    cover: Seq<u16>,
    costs: Seq<(u16, u16)>,
    n: int,
    material: u8,
    max_hp: u16,
    hp: int,
) -> (Seq<HearthModel>, int, bool) {
    let charged = if cover.len() > 0 && material != MAT_TWIG {
        charge_from(hs, dc, cover, costs, n, 0, true)
    } else {
        (hs, false)
    };
    if charged.1 {
        (charged.0, hp, false)
    } else {
        let d = decay_value(max_hp, spec_piece_decay_pct(dc, material));
        if hp <= d { (charged.0, 0, true) } else { (charged.0, hp - d, false) }
    }
}

/// The due periods of one piece, from step `steps` on: at most `catchup`
/// periods are worked, and a piece that had more owed is forgiven the rest.
pub open spec fn piece_periods_from(
    hs: Seq<HearthModel>,
    dc: DeployContent,
    cover: Seq<u16>,
    costs: Seq<(u16, u16)>,
    n: int,
    material: u8,
    max_hp: u16,
    hp: int,
    uh: int,
    h_now: int,
    steps: int,
    catchup: int,
) -> (Seq<HearthModel>, int, int, bool)
    decreases catchup - steps,
{
    if !(uh < h_now && steps < catchup) {
        (hs, hp, if steps >= catchup { h_now } else { uh }, false)
    } else {
        let p = piece_period(hs, dc, cover, costs, n, material, max_hp, hp);
        if p.2 {
            (p.0, 0, if steps + 1 >= catchup { h_now } else { uh + 1 }, true)
        } else {
            piece_periods_from(p.0, dc, cover, costs, n, material, max_hp, p.1, uh + 1, h_now, steps + 1, catchup)
        }
    }
}

/// Whether every cover position names a live hearth.
pub open spec fn cover_ok(cover: Seq<u16>, hs: Seq<HearthModel>) -> bool {
    forall|k: int| 0 <= k < cover.len() ==> (#[trigger] cover[k] as int) < hs.len()
}

proof fn lemma_due_nonneg(dc: DeployContent, costs: Seq<(u16, u16)>, n: int, item: u16)
    ensures
        due_for(dc, costs, n, item) >= 0,
    decreases n,
{
    if n > 0 {
        lemma_due_nonneg(dc, costs, n - 1, item);
    }
}

proof fn lemma_payer_pays(hs: Seq<HearthModel>, cover: Seq<u16>, m: int, due: int, k: int)
    requires
        0 <= k,
    ensures
        payer_from(hs, cover, m, due, k) is Some ==> {
            let j = payer_from(hs, cover, m, due, k)->0;
            k <= j < cover.len() && hs[cover[j] as int].stock[m] >= due
        },
    decreases cover.len() - k,
{
    if k < cover.len() && hs[cover[k] as int].stock[m] < due {
        lemma_payer_pays(hs, cover, m, due, k + 1);
    }
}

/// Charging only ever spends: it takes from covering hearths' stocks and
/// nothing else — a hearth outside the cover keeps every unit, no stock
/// grows, and no hearth changes in anything but its stock.
pub proof fn law_charging_only_spends_covering_stock(
    hs: Seq<HearthModel>,
    dc: DeployContent,
    cover: Seq<u16>,
    costs: Seq<(u16, u16)>,
    n: int,
    m: int,
    paid: bool,
)
    requires
        0 <= m,
        cover_ok(cover, hs),
        forall|h: int| 0 <= h < hs.len() ==> (#[trigger] hs[h]).stock.len() == HEARTH_STOCK_ROWS,
    ensures
        ({
            let r = charge_from(hs, dc, cover, costs, n, m, paid).0;
            &&& r.len() == hs.len()
            &&& forall|h: int| 0 <= h < hs.len() ==> (#[trigger] r[h]).stock.len() == HEARTH_STOCK_ROWS
            &&& forall|h: int| 0 <= h < hs.len() && !cover.contains(h as u16) ==> #[trigger] r[h] == hs[h]
            &&& forall|h: int, j: int| 0 <= h < hs.len() && 0 <= j < HEARTH_STOCK_ROWS ==> #[trigger] r[h].stock[j] <= hs[h].stock[j]
            &&& forall|h: int| 0 <= h < hs.len() ==> (#[trigger] r[h]) == (HearthModel { stock: r[h].stock, ..hs[h] })
        }),
    decreases HEARTH_STOCK_ROWS - m,
{
    if m < 0 || m >= dc.mat_count || m >= HEARTH_STOCK_ROWS {
    } else {
        let due = due_for(dc, costs, n, dc.mats[m]);
        if due == 0 {
            law_charging_only_spends_covering_stock(hs, dc, cover, costs, n, m + 1, paid);
        } else {
            match payer_from(hs, cover, m, due, 0) {
                Some(k) => {
                    lemma_payer_pays(hs, cover, m, due, 0);
                    lemma_due_nonneg(dc, costs, n, dc.mats[m]);
                    let h0 = cover[k] as int;
                    let hs2 = spend(hs, h0, m, due);
                    assert(cover[k] == h0 as u16);
                    assert forall|h: int| 0 <= h < hs2.len() implies (#[trigger] hs2[h]).stock.len() == HEARTH_STOCK_ROWS by {
                        assert(hs[h].stock.len() == HEARTH_STOCK_ROWS);
                    }
                    law_charging_only_spends_covering_stock(hs2, dc, cover, costs, n, m + 1, paid);
                    let r = charge_from(hs2, dc, cover, costs, n, m + 1, paid).0;
                    assert forall|h: int| 0 <= h < hs.len() && !cover.contains(h as u16) implies #[trigger] r[h] == hs[h] by {
                        if h == h0 {
                            assert(cover.contains(h as u16));
                        }
                        assert(hs2[h] == hs[h]);
                    }
                    assert forall|h: int, j: int| 0 <= h < hs.len() && 0 <= j < HEARTH_STOCK_ROWS implies #[trigger] r[h].stock[j] <= hs[h].stock[j] by {
                        assert(r[h].stock[j] <= hs2[h].stock[j]);
                    }
                    assert forall|h: int| 0 <= h < hs.len() implies (#[trigger] r[h]) == (HearthModel { stock: r[h].stock, ..hs[h] }) by {
                        assert(r[h] == (HearthModel { stock: r[h].stock, ..hs2[h] }));
                    }
                },
                None => {
                    law_charging_only_spends_covering_stock(hs, dc, cover, costs, n, m + 1, false);
                },
            }
        }
    }
}

/// No hearth, no protection — and a twig scaffold is never paid for: such
/// a period spends no stock and rots the piece by its material's rate.
pub proof fn law_unprotected_pieces_rot(
    hs: Seq<HearthModel>,
    dc: DeployContent,
    cover: Seq<u16>,
    costs: Seq<(u16, u16)>,
    n: int,
    material: u8,
    max_hp: u16,
    hp: int,
)
    requires
        cover.len() == 0 || material == MAT_TWIG,
    ensures
        ({
            let p = piece_period(hs, dc, cover, costs, n, material, max_hp, hp);
            let d = decay_value(max_hp, spec_piece_decay_pct(dc, material));
            &&& p.0 == hs
            &&& p.2 == (hp <= d)
            &&& p.1 == (if hp <= d { 0 } else { hp - d })
        }),
{
}

/// A covered deployable never rots: every due period is free.
pub proof fn law_covered_deployables_are_free(max_hp: u16, hp: int, uh: int, h_now: int, steps: int, catchup: int)
    ensures
        ({
            let r = deploy_periods_from(max_hp, true, hp, uh, h_now, steps, catchup);
            r.0 == hp && !r.2
        }),
    decreases catchup - steps,
{
    if uh < h_now && steps < catchup {
        law_covered_deployables_are_free(max_hp, hp, uh + 1, h_now, steps + 1, catchup);
    }
}

/// What one period costs a piece in `item`.
fn due_of(dc: &DeployContent, costs: &[(u16, u16); MAX_RECIPE_INPUTS], n: usize, item: u16) -> (due: u32)
    requires
        n <= MAX_RECIPE_INPUTS,
    ensures
        due as int == due_for(*dc, costs@, n as int, item),
{
    let mut due: u32 = 0;
    let mut k: usize = 0;
    while k < n
        invariant
            k <= n <= MAX_RECIPE_INPUTS,
            due as int == due_for(*dc, costs@, k as int, item),
            due <= k * 1_789_570,
        decreases n - k,
    {
        let (it, cost) = costs[k];
        if it == item {
            assert(cost as u32 * dc.upkeep_pct_per_day as u32 <= 65535 * 65535) by (nonlinear_arith);
            let c = crate::deploy::charge_of(cost, dc.upkeep_pct_per_day);
            assert(c <= 1_789_570);
            due = due + c;
        }
        k += 1;
    }
    due
}

/// The first covering hearth, from position `k` on, able to pay `due` of
/// material `m`.
fn payer(deploys: &Deploys, cover: &[u16], m: usize, due: u32) -> (r: Option<usize>)
    requires
        m < HEARTH_STOCK_ROWS,
        cover_ok(cover@, deploys.hearth_models()),
    ensures
        match r {
            Some(k) => payer_from(deploys.hearth_models(), cover@, m as int, due as int, 0) == Some(k as int)
                && k < cover@.len() && deploys.hearth_models()[cover@[k as int] as int].stock[m as int] >= due,
            None => payer_from(deploys.hearth_models(), cover@, m as int, due as int, 0) == None::<int>,
        },
{
    let ghost hs = deploys.hearth_models();
    let mut k: usize = 0;
    while k < cover.len()
        invariant
            k <= cover@.len(),
            m < HEARTH_STOCK_ROWS,
            hs == deploys.hearth_models(),
            cover_ok(cover@, hs),
            payer_from(hs, cover@, m as int, due as int, 0) == payer_from(hs, cover@, m as int, due as int, k as int),
        decreases cover@.len() - k,
    {
        if deploys.hearth_stock(cover[k] as usize, m) >= due {
            return Some(k);
        }
        k += 1;
    }
    None
}

/// Charge one period's upkeep of a piece with these cost rows to its
/// covering hearths (`cover`, hearth indices in list order). Returns
/// whether every row found a payer.
pub fn charge_period(
    dc: &DeployContent,
    deploys: &mut Deploys,
    cover: &[u16],
    costs: &[(u16, u16); MAX_RECIPE_INPUTS],
    n_costs: u8,
) -> (paid: bool)
    requires
        old(deploys).wf(),
        dc.mat_count as int <= HEARTH_STOCK_ROWS,
        cover_ok(cover@, old(deploys).hearth_models()),
    ensures
        ({
            let n = if n_costs as int <= MAX_RECIPE_INPUTS { n_costs as int } else { MAX_RECIPE_INPUTS as int };
            (final(deploys).hearth_models(), paid) == charge_from(
                old(deploys).hearth_models(),
                *dc,
                cover@,
                costs@,
                n,
                0,
                true,
            )
        }),
        final(deploys).wf(),
        final(deploys).hearth_models().len() == old(deploys).hearth_models().len(),
        final(deploys).recs() == old(deploys).recs(),
        final(deploys).readies() == old(deploys).readies(),
        final(deploys).placed_ticks() == old(deploys).placed_ticks(),
        final(deploys).lock_models() == old(deploys).lock_models(),
        final(deploys).box_recs() == old(deploys).box_recs(),
        final(deploys).spilled() == old(deploys).spilled(),
{
    let n: usize = if (n_costs as usize) <= MAX_RECIPE_INPUTS { n_costs as usize } else { MAX_RECIPE_INPUTS };
    let ghost goal = charge_from(deploys.hearth_models(), *dc, cover@, costs@, n as int, 0, true);
    let mut paid = true;
    let mut m: usize = 0;
    while m < dc.mat_count as usize
        invariant
            m <= dc.mat_count,
            dc.mat_count as int <= HEARTH_STOCK_ROWS,
            n <= MAX_RECIPE_INPUTS,
            deploys.wf(),
            cover_ok(cover@, deploys.hearth_models()),
            deploys.hearth_models().len() == old(deploys).hearth_models().len(),
            charge_from(deploys.hearth_models(), *dc, cover@, costs@, n as int, m as int, paid) == goal,
            deploys.recs() == old(deploys).recs(),
            deploys.readies() == old(deploys).readies(),
            deploys.placed_ticks() == old(deploys).placed_ticks(),
            deploys.lock_models() == old(deploys).lock_models(),
            deploys.box_recs() == old(deploys).box_recs(),
            deploys.spilled() == old(deploys).spilled(),
        decreases dc.mat_count - m,
    {
        let due = due_of(dc, costs, n, dc.mats[m]);
        if due != 0 {
            match payer(deploys, cover, m, due) {
                Some(k) => {
                    let h = cover[k] as usize;
                    let have = deploys.hearth_stock(h, m);
                    deploys.set_hearth_stock(h, m, have - due);
                },
                None => {
                    paid = false;
                },
            }
        }
        m += 1;
    }
    paid
}

/// Work the due periods of one piece: returns its hp and upkeep hour
/// afterwards, and whether it fell. At most `catchup` periods are worked;
/// a piece owed more is forgiven the rest.
pub fn upkeep_piece(
    dc: &DeployContent,
    deploys: &mut Deploys,
    cover: &[u16],
    costs: &[(u16, u16); MAX_RECIPE_INPUTS],
    n_costs: u8,
    material: u8,
    max_hp: u16,
    hp: u16,
    uh: u16,
    h_now: u16,
    catchup: u32,
) -> (r: (u16, u16, bool))
    requires
        old(deploys).wf(),
        dc.mat_count as int <= HEARTH_STOCK_ROWS,
        cover_ok(cover@, old(deploys).hearth_models()),
    ensures
        ({
            let n = if n_costs as int <= MAX_RECIPE_INPUTS { n_costs as int } else { MAX_RECIPE_INPUTS as int };
            let res = piece_periods_from(
                old(deploys).hearth_models(),
                *dc,
                cover@,
                costs@,
                n,
                material,
                max_hp,
                hp as int,
                uh as int,
                h_now as int,
                0,
                catchup as int,
            );
            &&& final(deploys).hearth_models() == res.0
            &&& r.0 as int == res.1
            &&& r.1 as int == res.2
            &&& r.2 == res.3
        }),
        final(deploys).wf(),
        final(deploys).recs() == old(deploys).recs(),
        final(deploys).lock_models() == old(deploys).lock_models(),
        final(deploys).box_recs() == old(deploys).box_recs(),
{
    let ghost n = if n_costs as int <= MAX_RECIPE_INPUTS { n_costs as int } else { MAX_RECIPE_INPUTS as int };
    let ghost goal = piece_periods_from(
        deploys.hearth_models(), *dc, cover@, costs@, n, material, max_hp, hp as int, uh as int, h_now as int, 0, catchup as int,
    );
    let pct = crate::deploy::piece_decay_pct(dc, material);
    let mut hp = hp;
    let mut uh = uh;
    let mut steps: u32 = 0;
    let mut removed = false;
    while uh < h_now && steps < catchup
        invariant_except_break
            !removed,
            piece_periods_from(deploys.hearth_models(), *dc, cover@, costs@, n, material, max_hp, hp as int, uh as int, h_now as int, steps as int, catchup as int) == goal,
        invariant
            deploys.wf(),
            dc.mat_count as int <= HEARTH_STOCK_ROWS,
            pct == spec_piece_decay_pct(*dc, material),
            n == (if n_costs as int <= MAX_RECIPE_INPUTS { n_costs as int } else { MAX_RECIPE_INPUTS as int }),
            cover_ok(cover@, deploys.hearth_models()),
            deploys.hearth_models().len() == old(deploys).hearth_models().len(),
            deploys.recs() == old(deploys).recs(),
            deploys.lock_models() == old(deploys).lock_models(),
            deploys.box_recs() == old(deploys).box_recs(),
            steps <= catchup,
            uh <= h_now || steps == 0,
        ensures
            removed ==> hp == 0,
            removed ==> (deploys.hearth_models(), 0int, if steps >= catchup { h_now as int } else { uh as int }, true) == goal,
            !removed ==> piece_periods_from(deploys.hearth_models(), *dc, cover@, costs@, n, material, max_hp, hp as int, uh as int, h_now as int, steps as int, catchup as int) == goal,
            !removed ==> !(uh < h_now && steps < catchup),
        decreases catchup - steps,
    {
        steps += 1;
        uh += 1;
        let paid = if cover.len() > 0 && material != MAT_TWIG {
            charge_period(dc, deploys, cover, costs, n_costs)
        } else {
            false
        };
        if !paid {
            assert(max_hp as u32 * pct <= 65535 * 65535) by (nonlinear_arith)
                requires
                    pct <= 65535,
            ;
            let d = crate::deploy::decay_at(max_hp, pct);
            if hp <= d {
                hp = 0;
                removed = true;
                break;
            }
            hp -= d;
        }
    }
    if steps >= catchup {
        uh = h_now;
    }
    (hp, uh, removed)
}

/// The due periods of one deployable, from step `steps` on: a covered one
/// is free, an uncovered one rots at the flat rate.
pub open spec fn deploy_periods_from(
    max_hp: u16,
    covered: bool,
    hp: int,
    uh: int,
    h_now: int,
    steps: int,
    catchup: int,
) -> (int, int, bool)
    decreases catchup - steps,
{
    if !(uh < h_now && steps < catchup) {
        (hp, if steps >= catchup { h_now } else { uh }, false)
    } else if !covered && hp <= decay_value(max_hp, DECAY_PCT_PER_PERIOD) {
        (0, if steps + 1 >= catchup { h_now } else { uh + 1 }, true)
    } else {
        let hp2 = if covered { hp } else { hp - decay_value(max_hp, DECAY_PCT_PER_PERIOD) };
        deploy_periods_from(max_hp, covered, hp2, uh + 1, h_now, steps + 1, catchup)
    }
}

/// The max hp a record's row bakes, or none for a row past the table.
pub open spec fn row_hp(dc: DeployContent, row: u8) -> u16 {
    if (row as int) < MAX_DEPLOY_DEFS { dc.defs[row as int].hp } else { 0 }
}

/// Work the due periods of the deployable at store index `i`: `covered`
/// is whether any stocked hearth's claim covers its cell. One that rots
/// to nothing goes through the one removal path; otherwise its hp and
/// upkeep hour are written back. An entry with nothing due is left alone.
pub fn upkeep_deploy(
    dc: &DeployContent,
    deploys: &mut Deploys,
    i: usize,
    h_now: u16,
    covered: bool,
    catchup: u32,
    events: &mut EventQueue,
) -> (removed: bool)
    requires
        old(deploys).wf(),
        i < old(deploys).recs().len(),
    ensures
        final(deploys).wf(),
        ({
            let d = old(deploys).recs()[i as int];
            let res = deploy_periods_from(row_hp(*dc, d.row), covered, d.hp as int, d.uh as int, h_now as int, 0, catchup as int);
            &&& !removed ==> final(deploys).readies() == old(deploys).readies()
                && final(deploys).placed_ticks() == old(deploys).placed_ticks()
                && final(deploys).lock_models() == old(deploys).lock_models()
                && final(deploys).hearth_models() == old(deploys).hearth_models()
                && final(deploys).box_recs() == old(deploys).box_recs()
                && final(deploys).spilled() == old(deploys).spilled()
            &&& removed ==> final(deploys).readies() == swap_removed(old(deploys).readies(), i as int)
                && final(deploys).placed_ticks() == swap_removed(old(deploys).placed_ticks(), i as int)
                && final(deploys).lock_models() == locks_after_drop(old(deploys).lock_models(), *dc, d)
                && final(deploys).hearth_models() == hearths_after_drop(old(deploys).hearth_models(), *dc, d)
                && final(deploys).box_recs() == boxes_after_drop(old(deploys).box_recs(), *dc, d)
                && final(deploys).spilled() == spill_after_drop(old(deploys).box_recs(), old(deploys).spilled(), *dc, d)
            &&& d.uh >= h_now ==> !removed && final(deploys).recs() == old(deploys).recs()
                && final(events)@ == old(events)@
            &&& d.uh < h_now ==> removed == res.2
            &&& d.uh < h_now && !removed ==> final(deploys).recs() == old(deploys).recs().update(
                i as int,
                DeployRec { hp: res.0 as u16, uh: res.1 as u16, ..d },
            ) && final(events)@ == old(events)@
            &&& d.uh < h_now && removed ==> final(deploys).recs() == swap_removed(old(deploys).recs(), i as int)
                && final(events)@ == old(events)@.push(
                    Event { code: EV_DEPLOY_REMOVED, a: spec_cell_key(d.cx, d.cz), b: address_word(d), c: 0 },
                )
        }),
{
    let rec = deploys.entries()[i];
    if rec.uh >= h_now {
        return false;
    }
    let max_hp: u16 = if (rec.row as usize) < MAX_DEPLOY_DEFS { dc.defs[rec.row as usize].hp } else { 0 };
    let ghost goal = deploy_periods_from(max_hp, covered, rec.hp as int, rec.uh as int, h_now as int, 0, catchup as int);
    let mut hp = rec.hp;
    let mut uh = rec.uh;
    let mut steps: u32 = 0;
    let mut removed = false;
    while uh < h_now && steps < catchup
        invariant_except_break
            !removed,
            deploy_periods_from(max_hp, covered, hp as int, uh as int, h_now as int, steps as int, catchup as int) == goal,
        invariant
            steps <= catchup,
        ensures
            removed ==> (0int, if steps >= catchup { h_now as int } else { uh as int }, true) == goal,
            !removed ==> deploy_periods_from(max_hp, covered, hp as int, uh as int, h_now as int, steps as int, catchup as int) == goal,
            !removed ==> !(uh < h_now && steps < catchup),
        decreases catchup - steps,
    {
        steps += 1;
        uh += 1;
        if !covered {
            let d = crate::deploy::decay_at(max_hp, DECAY_PCT_PER_PERIOD);
            if hp <= d {
                hp = 0;
                removed = true;
                break;
            }
            hp -= d;
        }
    }
    if steps >= catchup {
        uh = h_now;
    }
    if removed {
        drop_deploy(dc, deploys, i, events);
    } else {
        deploys.set_upkeep(i, hp, uh);
    }
    removed
}

/// Due periods one sweep visit works at most; a deployable owed more is
/// forgiven the rest.
pub const SWEEP_CATCHUP_MAX: u32 = 4;

/// Whether a hearth at one of the addresses `claims` is standing with
/// stock in `hearths`: the record those claims cover rots for free.
pub open spec fn covered_now(hearths: Seq<HearthModel>, claims: Seq<(u16, u16, u8)>) -> bool {
    exists|k: int| 0 <= k < claims.len() && hearth_stocked_at(hearths, #[trigger] claims[k].0, claims[k].1, claims[k].2)
}

/// Whether a hearth at one of `claims` stands with stock right now.
fn covered_by(deploys: &Deploys, claims: &Vec<(u16, u16, u8)>) -> (b: bool)
    ensures
        b == covered_now(deploys.hearth_models(), claims@),
{
    let mut k: usize = 0;
    while k < claims.len()
        invariant
            k <= claims@.len(),
            forall|j: int|
                0 <= j < k ==> !hearth_stocked_at(deploys.hearth_models(), #[trigger] claims@[j].0, claims@[j].1, claims@[j].2),
        decreases claims@.len() - k,
    {
        let (cx, cz, level) = claims[k];
        if deploys.hearth_stocked(cx, cz, level) {
            return true;
        }
        k += 1;
    }
    false
}

/// What the deployable half of the upkeep sweep reads and writes: the
/// records with their side columns, locks, hearths, boxes and spill queue,
/// the addresses of the hearths whose claim covers each record
/// (index-aligned), the cursor and the announcements.
pub struct DeploySweep {
    pub recs: Seq<DeployRec>,
    pub readies: Seq<u64>,
    pub placed: Seq<u64>,
    pub locks: Seq<LockModel>,
    pub hearths: Seq<HearthModel>,
    pub boxes: Seq<BoxRec>,
    pub spill: Seq<BoxRec>,
    pub claims: Seq<Vec<(u16, u16, u8)>>,
    pub cursor: u32,
    pub events: Seq<Event>,
}

/// The sweep's view of a store, its coverage column, cursor and queue.
pub open spec fn sweep_state(d: Deploys, claims: Seq<Vec<(u16, u16, u8)>>, cursor: u32, events: Seq<Event>) -> DeploySweep {
    DeploySweep {
        recs: d.recs(),
        readies: d.readies(),
        placed: d.placed_ticks(),
        locks: d.lock_models(),
        hearths: d.hearth_models(),
        boxes: d.box_recs(),
        spill: d.spilled(),
        claims,
        cursor,
        events,
    }
}

/// `left` more visits of the deployable sweep at period `h_now`. Each
/// visit takes the record under the cursor (modulo the store's length),
/// moves the cursor one on, and works that record's due periods; one that
/// rots away is swap-removed with its column entries, its lock and its
/// announcement, and the cursor comes back onto the slot it vacated (or
/// the new last one).
pub open spec fn sweep_visits(dc: DeployContent, h_now: u16, s: DeploySweep, left: nat) -> DeploySweep
    decreases left,
{
    if left == 0 || s.recs.len() == 0 {
        s
    } else {
        let n = s.recs.len() as int;
        let i = (s.cursor as int) % n;
        let next = ((i + 1) % n) as u32;
        let d = s.recs[i];
        if d.uh >= h_now {
            sweep_visits(dc, h_now, DeploySweep { cursor: next, ..s }, (left - 1) as nat)
        } else {
            let res = deploy_periods_from(
                row_hp(dc, d.row),
                covered_now(s.hearths, s.claims[i]@),
                d.hp as int,
                d.uh as int,
                h_now as int,
                0,
                SWEEP_CATCHUP_MAX as int,
            );
            if res.2 {
                let last = if n - 1 >= 1 { n - 2 } else { 0 };
                let s2 = DeploySweep {
                    recs: swap_removed(s.recs, i),
                    readies: swap_removed(s.readies, i),
                    placed: swap_removed(s.placed, i),
                    locks: locks_after_drop(s.locks, dc, d),
                    hearths: hearths_after_drop(s.hearths, dc, d),
                    boxes: boxes_after_drop(s.boxes, dc, d),
                    spill: spill_after_drop(s.boxes, s.spill, dc, d),
                    claims: swap_removed(s.claims, i),
                    cursor: (if i < last { i } else { last }) as u32,
                    events: s.events.push(
                        Event { code: EV_DEPLOY_REMOVED, a: spec_cell_key(d.cx, d.cz), b: address_word(d), c: 0 },
                    ),
                };
                sweep_visits(dc, h_now, s2, (left - 1) as nat)
            } else {
                let s2 = DeploySweep {
                    recs: s.recs.update(i, DeployRec { hp: res.0 as u16, uh: res.1 as u16, ..d }),
                    cursor: next,
                    ..s
                };
                sweep_visits(dc, h_now, s2, (left - 1) as nat)
            }
        }
    }
}

/// One tick of the deployable half of the upkeep sweep: visit
/// [`UPKEEP_SWEEP_PER_TICK`] records from the cursor on, working each
/// one's due periods — free where a hearth whose claim covers it (by
/// `claims`, what the claim volumes answer) is standing with stock at the
/// moment of the visit, decaying at the flat rate where not, removed at
/// nothing. A hearth that rots away earlier in the sweep covers nothing
/// after. `claims` is index-aligned with the records and is swap-removed
/// with them. With no upkeep material priced, decay is off and nothing moves.
pub fn sweep_deploys(
    dc: &DeployContent,
    deploys: &mut Deploys,
    tick: u64,
    cursor: &mut u32,
    claims: &mut Vec<Vec<(u16, u16, u8)>>,
    events: &mut EventQueue,
)
    requires
        old(deploys).wf(),
        old(claims)@.len() == old(deploys).recs().len(),
    ensures
        final(deploys).wf(),
        ({
            let s0 = sweep_state(*old(deploys), old(claims)@, *old(cursor), old(events)@);
            let s1 = if dc.mat_count == 0 {
                s0
            } else {
                sweep_visits(*dc, (tick / UPKEEP_PERIOD_TICKS) as u16, s0, UPKEEP_SWEEP_PER_TICK as nat)
            };
            sweep_state(*final(deploys), final(claims)@, *final(cursor), final(events)@) == s1
        }),
{
    if dc.mat_count == 0 {
        return;
    }
    let h_now = (tick / UPKEEP_PERIOD_TICKS) as u16;
    let ghost goal = sweep_visits(*dc, h_now, sweep_state(*deploys, claims@, *cursor, events@), UPKEEP_SWEEP_PER_TICK as nat);
    let mut visits: usize = 0;
    while visits < UPKEEP_SWEEP_PER_TICK && deploys.len() > 0
        invariant
            deploys.wf(),
            claims@.len() == deploys.recs().len(),
            visits <= UPKEEP_SWEEP_PER_TICK,
            sweep_visits(*dc, h_now, sweep_state(*deploys, claims@, *cursor, events@), (UPKEEP_SWEEP_PER_TICK - visits) as nat)
                == goal,
        decreases UPKEEP_SWEEP_PER_TICK - visits,
    {
        let ghost s = sweep_state(*deploys, claims@, *cursor, events@);
        let ghost left = (UPKEEP_SWEEP_PER_TICK - visits) as nat;
        visits += 1;
        let n = deploys.len();
        let i = (*cursor as usize) % n;
        *cursor = ((i + 1) % n) as u32;
        let c = covered_by(deploys, &claims[i]);
        let removed = upkeep_deploy(dc, deploys, i, h_now, c, SWEEP_CATCHUP_MAX, events);
        if removed {
            claims.swap_remove(i);
            let n2 = deploys.len();
            let last: usize = if n2 >= 1 { n2 - 1 } else { 0 };
            *cursor = if i < last { i as u32 } else { last as u32 };
        }
        assert(sweep_visits(*dc, h_now, s, left) == sweep_visits(
            *dc,
            h_now,
            sweep_state(*deploys, claims@, *cursor, events@),
            (left - 1) as nat,
        ));
    }
}

/// The sweep is bounded work that only ever takes away: it never adds a
/// record, removes at most one per visit, and keeps every column aligned
/// with the records.
pub proof fn law_the_sweep_only_shrinks_the_store(dc: DeployContent, h_now: u16, s: DeploySweep, left: nat)
    requires
        s.readies.len() == s.recs.len(),
        s.placed.len() == s.recs.len(),
        s.claims.len() == s.recs.len(),
    ensures
        sweep_visits(dc, h_now, s, left).recs.len() <= s.recs.len(),
        sweep_visits(dc, h_now, s, left).recs.len() + left >= s.recs.len(),
        sweep_visits(dc, h_now, s, left).readies.len() == sweep_visits(dc, h_now, s, left).recs.len(),
        sweep_visits(dc, h_now, s, left).placed.len() == sweep_visits(dc, h_now, s, left).recs.len(),
        sweep_visits(dc, h_now, s, left).claims.len() == sweep_visits(dc, h_now, s, left).recs.len(),
        sweep_visits(dc, h_now, s, left).events.len() >= s.events.len(),
    decreases left,
{
    if left == 0 || s.recs.len() == 0 {
    } else {
        let n = s.recs.len() as int;
        let i = (s.cursor as int) % n;
        let next = ((i + 1) % n) as u32;
        let d = s.recs[i];
        if d.uh >= h_now {
            law_the_sweep_only_shrinks_the_store(dc, h_now, DeploySweep { cursor: next, ..s }, (left - 1) as nat);
        } else {
            let res = deploy_periods_from(
                row_hp(dc, d.row),
                covered_now(s.hearths, s.claims[i]@),
                d.hp as int,
                d.uh as int,
                h_now as int,
                0,
                SWEEP_CATCHUP_MAX as int,
            );
            if res.2 {
                let last = if n - 1 >= 1 { n - 2 } else { 0 };
                let s2 = DeploySweep {
                    recs: swap_removed(s.recs, i),
                    readies: swap_removed(s.readies, i),
                    placed: swap_removed(s.placed, i),
                    locks: locks_after_drop(s.locks, dc, d),
                    hearths: hearths_after_drop(s.hearths, dc, d),
                    boxes: boxes_after_drop(s.boxes, dc, d),
                    spill: spill_after_drop(s.boxes, s.spill, dc, d),
                    claims: swap_removed(s.claims, i),
                    cursor: (if i < last { i } else { last }) as u32,
                    events: s.events.push(
                        Event { code: EV_DEPLOY_REMOVED, a: spec_cell_key(d.cx, d.cz), b: address_word(d), c: 0 },
                    ),
                };
                law_the_sweep_only_shrinks_the_store(dc, h_now, s2, (left - 1) as nat);
            } else {
                let s2 = DeploySweep {
                    recs: s.recs.update(i, DeployRec { hp: res.0 as u16, uh: res.1 as u16, ..d }),
                    cursor: next,
                    ..s
                };
                law_the_sweep_only_shrinks_the_store(dc, h_now, s2, (left - 1) as nat);
            }
        }
    }
}

} // verus!
