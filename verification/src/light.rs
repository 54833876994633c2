//! A held light burns itself. A flame is not stored anywhere: it is
//! derived every tick from the player's `BTN_LIGHT` latch, the held item's
//! content row declaring a burn rate, and that stack having condition left
//! to spend. The debit is counted out in whole condition points.
use vstd::prelude::*;

use crate::gather::{table_of, GatherContent};
use crate::input::BTN_LIGHT;
use crate::limits::{HOTBAR_SLOTS, TICK_HZ};
use crate::survival::tick_units;
use crate::world::Player;

verus! {

/// Ticks × hundredths that buy one whole condition point.
pub const BURN_DEN: u32 = TICK_HZ * 60 * 100;

/// Whether this hand is actually alight: a body somebody is driving, the
/// latch up, a hotbar slot selected, and the held stack a light with
/// condition left.
pub open spec fn spec_lit(p: Player, gc: GatherContent) -> bool {
    &&& !p.dead
    &&& !p.sleeping
    &&& p.frame.buttons & BTN_LIGHT != 0
    &&& (p.frame.sel as int) < HOTBAR_SLOTS
    &&& p.inv[p.frame.sel as int].count > 0
    &&& p.inv[p.frame.sel as int].cond > 0
    &&& table_of(gc.light_burn@, p.inv[p.frame.sel as int].item) > 0
}

/// Is this hand actually alight?
pub fn is_lit(p: &Player, gc: &GatherContent) -> (b: bool)
    ensures
        b == spec_lit(*p, *gc),
{
    if p.dead || p.sleeping || p.frame.buttons & BTN_LIGHT == 0 {
        return false;
    }
    let sel = p.frame.sel as usize;
    if sel >= HOTBAR_SLOTS {
        return false;
    }
    let s = p.inv[sel];
    s.count > 0 && s.cond > 0 && gc.light_burn_of(s.item) > 0
}

/// One tick of burning, returning the whole condition points spent. A
/// dark hand spends nothing and leaves the accumulator alone; a lit one
/// adds its rate to the accumulator, and every whole point that comes out
/// is taken off the held stack's condition (never below zero).
pub fn step(p: &mut Player, gc: &GatherContent) -> (points: u32)
    ensures
        !spec_lit(*old(p), *gc) ==> points == 0 && *final(p) == *old(p),
        spec_lit(*old(p), *gc) ==> {
            let sel = old(p).frame.sel as int;
            let burn = table_of(gc.light_burn@, old(p).inv[sel].item);
            let c = old(p).inv[sel].cond;
            let debit: int = if points as int * 100 <= 65535 { points as int * 100 } else { 65535 };
            &&& points as int * BURN_DEN + final(p).light_acc == old(p).light_acc + burn
            &&& final(p).light_acc < BURN_DEN
            &&& (old(p).light_acc < BURN_DEN ==> points <= 1)
            &&& final(p).inv[sel].cond == (if c >= debit { c - debit } else { 0 })
            &&& final(p).inv[sel].item == old(p).inv[sel].item
            &&& final(p).inv[sel].count == old(p).inv[sel].count
            &&& forall|k: int| 0 <= k < 30 && k != sel ==> final(p).inv[k] == old(p).inv[k]
            &&& final(p).frame == old(p).frame
            &&& final(p).id == old(p).id
        },
{
    if !is_lit(p, gc) {
        return 0;
    }
    let sel = p.frame.sel as usize;
    let burn = gc.light_burn_of(p.inv[sel].item) as u32;
    let ghost acc0 = p.light_acc;
    let units = tick_units(&mut p.light_acc, burn, BURN_DEN);
    assert(units <= 23_861) by (nonlinear_arith)
        requires
            units * 180_000 + p.light_acc == acc0 + burn,
            acc0 <= 0xffff_ffff,
            burn <= 65_535,
    ;
    let points = units as u32;
    if points > 0 {
        let debit: u16 = if points <= 655 {
            (points * 100) as u16
        } else {
            65535
        };
        let c = p.inv[sel].cond;
        p.inv[sel].cond = c.saturating_sub(debit);
    }
    points
}

} // verus!
