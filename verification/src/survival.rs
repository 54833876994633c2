//! The survival clock's one piece of arithmetic: turning a per-tick rate
//! into whole units through an exact remainder, so nothing is lost to
//! rounding and nothing is owed twice.
use vstd::prelude::*;

use crate::world::Player;

verus! {

/// What one step of a per-body meter did.
#[derive(Clone, Copy, Debug, PartialEq, Eq, Structural)]
pub enum Step {
    /// Nothing anybody needs to hear about.
    Quiet,
    /// Hit points moved.
    Changed,
    /// The body died of it.
    Died,
}

/// Add `rate` to the accumulator and take out every whole `den` it now
/// holds. The remainder stays for the next tick, so the units paid over
/// any run of ticks are exactly the sum of the rates divided by `den`.
pub fn tick_units(acc: &mut u32, rate: u32, den: u32) -> (units: u64)
    requires
        den > 0,
    ensures
        units as int * den + *final(acc) == *old(acc) + rate,
        *final(acc) < den,
        *old(acc) < den && rate < den ==> units <= 1,
        *old(acc) < den && rate == 0 ==> units == 0 && *final(acc) == *old(acc),
{
    let total: u64 = *acc as u64 + rate as u64;
    let units = total / (den as u64);
    let rest = total % (den as u64);
    assert(units * den + rest == total) by (nonlinear_arith)
        requires
            units == total / (den as u64),
            rest == total % (den as u64),
            den > 0,
    ;
    assert(units <= total && rest < den) by (nonlinear_arith)
        requires
            units == total / (den as u64),
            rest == total % (den as u64),
            den > 0,
    ;
    assert(*acc < den && rate < den ==> units <= 1) by (nonlinear_arith)
        requires
            units * den + rest == total,
            total == *acc as u64 + rate as u64,
            rest >= 0,
            den > 0,
    ;
    assert(*acc < den && rate == 0 ==> units == 0 && rest == total) by (nonlinear_arith)
        requires
            units * den + rest == total,
            total == *acc as u64 + rate as u64,
            rest >= 0,
            den > 0,
    ;
    *acc = rest as u32;
    units
}

/// Take `dmg` hit points off a body with nothing to blunt them — the
/// cold and hunger are not hits, and armour does not soften them. Hp
/// floors at zero; returns whether this emptied it.
pub fn hurt_unreduced(p: &mut Player, dmg: u16) -> (died: bool)
    ensures
        *final(p) == (Player { hp: (if old(p).hp >= dmg { old(p).hp - dmg } else { 0 }) as u16, ..*old(p) }),
        died == (old(p).hp > 0 && final(p).hp == 0),
{
    let before = p.hp;
    p.hp = if p.hp >= dmg { p.hp - dmg } else { 0 };
    before > 0 && p.hp == 0
}

} // verus!
