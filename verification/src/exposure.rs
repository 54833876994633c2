//! Wet and cold — exposure, in the survival clock's shape.
//!
//! Two meters on the body, both per mille. **Wet**: rain soaks an
//! uncovered body, standing in the sea soaks it to the depth it stands
//! in, and out of both it dries — fast beside a fire. **Chill**: where the
//! body is heading is the night, the rain and the wind that reach it and
//! how wet it is, made worse by worn pieces that draw cold in, less what
//! it wears (wet clothes keep half their warmth) and less any fire or
//! flame in hand. The body moves toward that at a rate; past `hurt_at` it
//! costs hp through an exact accumulator. Every rate is integer
//! arithmetic. The empty table disarms it.
use vstd::prelude::*;

use crate::gather::ItemStack;
use crate::limits::MAX_ITEM_DEFS;
use crate::survival::{hurt_unreduced, tick_units, Step};
use crate::world::{Event, EventQueue, Player, WORN_SLOTS, EV_HEALTH};

verus! {

/// The exposure ruleset. Everything per mille of a full meter.
#[derive(Clone, Copy, Debug, PartialEq, Eq)]
pub struct ExposureContent {
    /// Wet gained a second in the heaviest rain, uncovered.
    pub wet_rain_per_s: u16,
    /// Wet lost a second when nothing is wetting you.
    pub dry_per_s: u16,
    /// …and beside a fire.
    pub dry_fire_per_s: u16,
    /// Water this deep, centimetres, soaks you through.
    pub soak_depth_cm: u16,
    /// Chill the night adds.
    pub night_cold: u16,
    /// Chill the heaviest rain adds, uncovered.
    pub rain_cold: u16,
    /// Chill the strongest wind adds, uncovered.
    pub wind_cold: u16,
    /// Chill being soaked through adds.
    pub wet_cold: u16,
    /// Chill a fire within reach takes away.
    pub fire_warmth: u16,
    /// Chill a lit torch in hand takes away.
    pub torch_warmth: u16,
    /// How near a fire has to be to warm you, centimetres.
    pub heat_radius_cm: u16,
    /// How fast the body's chill follows its target, a second, each way.
    pub chill_rise_per_s: u16,
    pub chill_fall_per_s: u16,
    /// Past this chill the cold costs hp.
    pub hurt_at: u16,
    /// Hit points a minute at full chill, scaling from zero at `hurt_at`.
    pub hurt_hp_per_min: u16,
    /// Per item index: the chill a worn piece keeps out. Negative draws it
    /// in, as a per-mille share of the cold the body is already in.
    pub warmth: [i16; MAX_ITEM_DEFS],
}

impl ExposureContent {
    /// Disarmed: nothing moves and nothing hurts.
    pub fn empty() -> (c: Self)
        ensures
            c.chill_rise_per_s == 0,
            c.hurt_at == 1000,
            c.wet_rain_per_s == 0 && c.dry_per_s == 0 && c.dry_fire_per_s == 0 && c.soak_depth_cm == 0,
            c.night_cold == 0 && c.rain_cold == 0 && c.wind_cold == 0 && c.wet_cold == 0,
            c.fire_warmth == 0 && c.torch_warmth == 0 && c.heat_radius_cm == 0,
            c.chill_fall_per_s == 0 && c.hurt_hp_per_min == 0,
            forall|i: int| 0 <= i < MAX_ITEM_DEFS ==> c.warmth[i] == 0,
    {
        ExposureContent {
            wet_rain_per_s: 0,
            dry_per_s: 0,
            dry_fire_per_s: 0,
            soak_depth_cm: 0,
            night_cold: 0,
            rain_cold: 0,
            wind_cold: 0,
            wet_cold: 0,
            fire_warmth: 0,
            torch_warmth: 0,
            heat_radius_cm: 0,
            chill_rise_per_s: 0,
            chill_fall_per_s: 0,
            hurt_at: 1000,
            hurt_hp_per_min: 0,
            warmth: [0; MAX_ITEM_DEFS],
        }
    }

    /// Is exposure armed? A zero chill rate means nothing ever moves.
    pub fn armed(&self) -> (b: bool)
        ensures
            b == (self.chill_rise_per_s > 0),
    {
        self.chill_rise_per_s > 0
    }

    /// Synthetic table for the parity, replay and allocation gates: fast
    /// enough that a soak, a chill and a cold death land inside a counted
    /// probe window; item 0 is worn warmth.
    pub fn probe_fixture() -> (c: Self)
        ensures
            c.wet_rain_per_s == 250 && c.dry_per_s == 20 && c.dry_fire_per_s == 200 && c.soak_depth_cm == 100,
            c.night_cold == 500 && c.rain_cold == 400 && c.wind_cold == 200 && c.wet_cold == 500,
            c.fire_warmth == 1000 && c.torch_warmth == 150 && c.heat_radius_cm == 450,
            c.chill_rise_per_s == 200 && c.chill_fall_per_s == 200,
            c.hurt_at == 500 && c.hurt_hp_per_min == 1200,
            c.warmth[0] == 100,
            forall|i: int| 1 <= i < MAX_ITEM_DEFS ==> c.warmth[i] == 0,
    {
        let mut c = Self::empty();
        c.wet_rain_per_s = 250;
        c.dry_per_s = 20;
        c.dry_fire_per_s = 200;
        c.soak_depth_cm = 100;
        c.night_cold = 500;
        c.rain_cold = 400;
        c.wind_cold = 200;
        c.wet_cold = 500;
        c.fire_warmth = 1000;
        c.torch_warmth = 150;
        c.heat_radius_cm = 450;
        c.chill_rise_per_s = 200;
        c.chill_fall_per_s = 200;
        c.hurt_at = 500;
        c.hurt_hp_per_min = 1200;
        c.warmth[0] = 100;
        c
    }
}

impl Default for ExposureContent {
    fn default() -> (c: Self)
        ensures
            c.chill_rise_per_s == 0 && c.hurt_at == 1000,
    {
        Self::empty()
    }
}

/// What the world around one body is doing this second.
#[derive(Clone, Copy, Debug, PartialEq, Eq, Structural)]
pub struct Inputs {
    /// The weather's rain and wind, per mille.
    pub rain: u16,
    pub wind: u16,
    /// After dusk on the day clock.
    pub night: bool,
    /// A roof overhead.
    pub roofed: bool,
    /// How deep the sea is at the body's feet, centimetres.
    pub depth_cm: u16,
    /// A lit fire within reach of its warmth.
    pub fire: bool,
    /// A lit torch in hand.
    pub torch: bool,
}

impl Default for Inputs {
    fn default() -> (i: Self)
        ensures
            i == (Inputs { rain: 0, wind: 0, night: false, roofed: false, depth_cm: 0, fire: false, torch: false }),
    {
        Inputs { rain: 0, wind: 0, night: false, roofed: false, depth_cm: 0, fire: false, torch: false }
    }
}

/// Division that truncates toward zero, as the machine's does.
pub open spec fn tdiv(a: int, b: int) -> int {
    if a >= 0 { a / b } else { -((-a) / b) }
}

/// Whether a value fits a 32-bit signed machine integer.
pub open spec fn fits_i32(x: int) -> bool {
    i32::MIN <= x <= i32::MAX
}

/// The warmth a worn slot contributes: nothing for an empty slot or an
/// item past the table.
pub open spec fn slot_warmth(ec: ExposureContent, s: ItemStack) -> int {
    if s.count == 0 || s.item as int >= MAX_ITEM_DEFS { 0 } else { ec.warmth[s.item as int] as int }
}

/// Warmth kept out by the first `k` worn slots.
pub open spec fn worn_keep(ec: ExposureContent, worn: Seq<ItemStack>, k: int) -> int
    decreases k,
{
    if k <= 0 {
        0
    } else {
        worn_keep(ec, worn, k - 1) + (if slot_warmth(ec, worn[k - 1]) >= 0 { slot_warmth(ec, worn[k - 1]) } else { 0 })
    }
}

/// Cold drawn in by the first `k` worn slots.
pub open spec fn worn_draw(ec: ExposureContent, worn: Seq<ItemStack>, k: int) -> int
    decreases k,
{
    if k <= 0 {
        0
    } else {
        worn_draw(ec, worn, k - 1) + (if slot_warmth(ec, worn[k - 1]) < 0 { -slot_warmth(ec, worn[k - 1]) } else { 0 })
    }
}

proof fn lemma_worn_bounds(ec: ExposureContent, worn: Seq<ItemStack>, k: int)
    requires
        0 <= k,
    ensures
        0 <= worn_keep(ec, worn, k) <= 32767 * k,
        0 <= worn_draw(ec, worn, k) <= 32768 * k,
    decreases k,
{
    if k > 0 {
        lemma_worn_bounds(ec, worn, k - 1);
    }
}

/// The weather's share of the chill, uncovered, before the per-mille
/// scale: rain and wind each weighted by their rate.
pub open spec fn weather_raw(ec: ExposureContent, inp: Inputs) -> int {
    inp.rain as int * ec.rain_cold as int + inp.wind as int * ec.wind_cold as int
}

/// The chill from the night, the weather and the wet.
pub open spec fn chill_base(ec: ExposureContent, inp: Inputs, wet: u16) -> int {
    (if inp.night { ec.night_cold as int } else { 0 }) + (if !inp.roofed { weather_raw(ec, inp) / 1000 } else { 0 })
        + wet as int * ec.wet_cold as int / 1000
}

/// …made worse by what draws cold in.
pub open spec fn chill_drawn(ec: ExposureContent, inp: Inputs, p: Player) -> int {
    let t = chill_base(ec, inp, p.wet);
    t + tdiv(t * worn_draw(ec, p.worn@, WORN_SLOTS as int), 1000)
}

/// …less what keeps it out (wet clothes keep half their warmth).
pub open spec fn chill_kept(ec: ExposureContent, inp: Inputs, p: Player) -> int {
    chill_drawn(ec, inp, p) - tdiv(worn_keep(ec, p.worn@, WORN_SLOTS as int) * (2000 - p.wet), 2000)
}

/// …less a fire and a flame in hand, before the clamp.
pub open spec fn chill_raw(ec: ExposureContent, inp: Inputs, p: Player) -> int {
    chill_kept(ec, inp, p) - (if inp.fire { ec.fire_warmth as int } else { 0 }) - (if inp.torch {
        ec.torch_warmth as int
    } else {
        0
    })
}

/// Every intermediate of the chill formula fits the 32-bit integers it
/// is computed in.
pub open spec fn chill_fits(ec: ExposureContent, inp: Inputs, p: Player) -> bool {
    let draw = worn_draw(ec, p.worn@, WORN_SLOTS as int);
    let keep = worn_keep(ec, p.worn@, WORN_SLOTS as int);
    let t = chill_base(ec, inp, p.wet);
    &&& !inp.roofed ==> fits_i32(inp.rain as int * ec.rain_cold as int) && fits_i32(inp.wind as int * ec.wind_cold as int)
        && fits_i32(weather_raw(ec, inp))
    &&& fits_i32(p.wet as int * ec.wet_cold as int)
    &&& fits_i32(t)
    &&& fits_i32(t * draw)
    &&& fits_i32(chill_drawn(ec, inp, p))
    &&& fits_i32(keep * (2000 - p.wet))
    &&& fits_i32(chill_kept(ec, inp, p))
    &&& fits_i32(chill_kept(ec, inp, p) - (if inp.fire { ec.fire_warmth as int } else { 0 }))
    &&& fits_i32(chill_raw(ec, inp, p))
}

/// The chill a body is heading for, per mille.
pub open spec fn spec_target_chill(ec: ExposureContent, inp: Inputs, p: Player) -> u16 {
    let t = chill_raw(ec, inp, p);
    (if t < 0 { 0 } else if t > 1000 { 1000 } else { t }) as u16
}

/// A lit torch in hand takes its warmth off the chill a body heads for:
/// lighting it never raises the target, lowers it by exactly the torch's
/// warmth whenever the torch-less target sits between that warmth and the
/// top of the scale, and leaves a target of zero at zero.
pub proof fn law_a_torch_takes_its_warmth_off_the_chill(ec: ExposureContent, inp: Inputs, p: Player)
    ensures
        ({
            let off = spec_target_chill(ec, Inputs { torch: false, ..inp }, p) as int;
            let on = spec_target_chill(ec, Inputs { torch: true, ..inp }, p) as int;
            let w = ec.torch_warmth as int;
            &&& on <= off
            &&& on >= off - w
            &&& (w <= off < 1000 ==> on == off - w)
            &&& (off == 0 ==> on == 0)
        }),
{
    let i0 = Inputs { torch: false, ..inp };
    let i1 = Inputs { torch: true, ..inp };
    assert(chill_kept(ec, i0, p) == chill_kept(ec, i1, p));
    assert(chill_raw(ec, i1, p) == chill_raw(ec, i0, p) - ec.torch_warmth as int);
}

/// A fire within reach takes its warmth off the chill the same way: it
/// never raises the target, lowers it by exactly the fire's warmth
/// whenever the fireless target sits between that warmth and the top of
/// the scale, and leaves a target of zero at zero.
pub proof fn law_a_fire_takes_its_warmth_off_the_chill(ec: ExposureContent, inp: Inputs, p: Player)
    ensures
        ({
            let off = spec_target_chill(ec, Inputs { fire: false, ..inp }, p) as int;
            let on = spec_target_chill(ec, Inputs { fire: true, ..inp }, p) as int;
            let w = ec.fire_warmth as int;
            &&& on <= off
            &&& on >= off - w
            &&& (w <= off < 1000 ==> on == off - w)
            &&& (off == 0 ==> on == 0)
        }),
{
    let i0 = Inputs { fire: false, ..inp };
    let i1 = Inputs { fire: true, ..inp };
    assert(chill_kept(ec, i0, p) == chill_kept(ec, i1, p));
    assert(chill_raw(ec, i1, p) == chill_raw(ec, i0, p) - ec.fire_warmth as int);
}

/// The chill a body is heading for, per mille — the whole rule in one
/// place.
pub fn target_chill(ec: &ExposureContent, inp: &Inputs, p: &Player) -> (r: u16)
    requires
        chill_fits(*ec, *inp, *p),
    ensures
        r == spec_target_chill(*ec, *inp, *p),
{
    proof {
        lemma_worn_bounds(*ec, p.worn@, WORN_SLOTS as int);
    }
    let mut t: i32 = 0;
    if inp.night {
        t += ec.night_cold as i32;
    }
    if !inp.roofed {
        t += (inp.rain as i32 * ec.rain_cold as i32 + inp.wind as i32 * ec.wind_cold as i32) / 1000;
    }
    t += p.wet as i32 * ec.wet_cold as i32 / 1000;
    assert(t == chill_base(*ec, *inp, p.wet));
    let mut keep: i32 = 0;
    let mut draw: i32 = 0;
    let mut k: usize = 0;
    while k < WORN_SLOTS
        invariant
            k <= WORN_SLOTS,
            keep == worn_keep(*ec, p.worn@, k as int),
            draw == worn_draw(*ec, p.worn@, k as int),
        decreases WORN_SLOTS - k,
    {
        proof {
            lemma_worn_bounds(*ec, p.worn@, k as int);
        }
        let s = p.worn[k];
        if !(s.count == 0 || s.item as usize >= MAX_ITEM_DEFS) {
            let w = ec.warmth[s.item as usize] as i32;
            if w >= 0 {
                keep += w;
            } else {
                draw -= w;
            }
        }
        k += 1;
    }
    t += t * draw / 1000;
    t -= keep * (2000 - p.wet as i32) / 2000;
    if inp.fire {
        t -= ec.fire_warmth as i32;
    }
    if inp.torch {
        t -= ec.torch_warmth as i32;
    }
    if t < 0 {
        0
    } else if t > 1000 {
        1000
    } else {
        t as u16
    }
}

/// `a + b`, held at the top of the meter's type.
pub open spec fn sat_add16(a: u16, b: u16) -> int {
    if a + b <= u16::MAX { a + b } else { u16::MAX as int }
}

/// `a - b`, floored at zero.
pub open spec fn sat_sub16(a: u16, b: u16) -> int {
    if a >= b { a - b } else { 0 }
}

/// The wet meter after one second.
pub open spec fn wet_after(ec: ExposureContent, inp: Inputs, wet: u16) -> u16 {
    let w1: int = if inp.rain > 0 && !inp.roofed {
        let add = ((inp.rain as int * ec.wet_rain_per_s as int / 1000) % 0x1_0000) as u16;
        if sat_add16(wet, add) < 1000 { sat_add16(wet, add) } else { 1000 }
    } else {
        sat_sub16(wet, if inp.fire { ec.dry_fire_per_s } else { ec.dry_per_s })
    };
    if ec.soak_depth_cm > 0 && inp.depth_cm > 0 {
        let soak_raw = inp.depth_cm as int * 1000 / ec.soak_depth_cm as int;
        let soak = if soak_raw < 1000 { soak_raw } else { 1000 };
        (if w1 >= soak { w1 } else { soak }) as u16
    } else {
        w1 as u16
    }
}

/// The chill meter after one second, following `target`.
pub open spec fn chill_after(ec: ExposureContent, chill: u16, target: u16) -> u16 {
    if chill < target {
        let up = sat_add16(chill, ec.chill_rise_per_s);
        (if up < target { up } else { target as int }) as u16
    } else {
        let down = sat_sub16(chill, ec.chill_fall_per_s);
        (if down > target { down } else { target as int }) as u16
    }
}

/// The body as the chill rule reads it, once its wet meter has moved.
pub open spec fn wetted(ec: ExposureContent, inp: Inputs, p: Player) -> Player {
    Player { wet: wet_after(ec, inp, p.wet), ..p }
}

/// The chill meter follows its target and never overshoots it: in one
/// second it rises by at most the rise rate and falls by at most the fall
/// rate, so a moment under a roof changes little and a night in the rain
/// changes a lot.
pub proof fn law_chill_follows_its_target(ec: ExposureContent, chill: u16, target: u16)
    ensures
        chill <= target ==> chill <= chill_after(ec, chill, target) <= target
            && chill_after(ec, chill, target) - chill <= ec.chill_rise_per_s,
        chill >= target ==> target <= chill_after(ec, chill, target) <= chill
            && chill - chill_after(ec, chill, target) <= ec.chill_fall_per_s,
{
}

/// The wet meter stays per mille: a body at most soaked through is, one
/// second later, still at most soaked through — rain, drying and the sea
/// alike.
pub proof fn law_wet_stays_per_mille(ec: ExposureContent, inp: Inputs, wet: u16)
    requires
        wet <= 1000,
    ensures
        wet_after(ec, inp, wet) <= 1000,
{
}

/// Whether the hurt's rate fits the 32-bit accumulator it is paid through.
pub open spec fn hurt_fits(ec: ExposureContent, inp: Inputs, p: Player) -> bool {
    let c = chill_after(ec, p.chill, spec_target_chill(ec, inp, wetted(ec, inp, p)));
    c > ec.hurt_at && ec.hurt_at < 1000 ==> ec.hurt_hp_per_min as int * (c - ec.hurt_at) <= u32::MAX
}

/// The wet meter after one second.
fn wet_step(ec: &ExposureContent, inp: &Inputs, wet: u16) -> (w: u16)
    ensures
        w == wet_after(*ec, *inp, wet),
{
    let mut w = wet;
    if inp.rain > 0 && !inp.roofed {
        assert(inp.rain as u32 * ec.wet_rain_per_s as u32 <= 65535 * 65535) by (nonlinear_arith);
        let add = ((inp.rain as u32 * ec.wet_rain_per_s as u32 / 1000) % 0x1_0000) as u16;
        let sum: u16 = if w as u32 + add as u32 <= u16::MAX as u32 { w + add } else { u16::MAX };
        w = if sum < 1000 { sum } else { 1000 };
    } else {
        let dry = if inp.fire { ec.dry_fire_per_s } else { ec.dry_per_s };
        w = if w >= dry { w - dry } else { 0 };
    }
    if ec.soak_depth_cm > 0 && inp.depth_cm > 0 {
        let raw = inp.depth_cm as u32 * 1000 / ec.soak_depth_cm as u32;
        let soak: u16 = if raw < 1000 { raw as u16 } else { 1000 };
        if w < soak {
            w = soak;
        }
    }
    w
}

/// The chill meter after one second, following `target`.
fn chill_step(ec: &ExposureContent, chill: u16, target: u16) -> (c: u16)
    ensures
        c == chill_after(*ec, chill, target),
{
    if chill < target {
        let up: u16 = if chill as u32 + ec.chill_rise_per_s as u32 <= u16::MAX as u32 {
            chill + ec.chill_rise_per_s
        } else {
            u16::MAX
        };
        if up < target { up } else { target }
    } else {
        let down: u16 = if chill >= ec.chill_fall_per_s { chill - ec.chill_fall_per_s } else { 0 };
        if down > target { down } else { target }
    }
}

/// One second of exposure for one body: wet, then chill, then hurt.
/// Announces the body's health when it moved, and says whether the cold
/// killed it.
pub fn step(ec: &ExposureContent, inp: &Inputs, p: &mut Player, events: &mut EventQueue) -> (r: Step)
    requires
        chill_fits(*ec, *inp, wetted(*ec, *inp, *old(p))),
        hurt_fits(*ec, *inp, *old(p)),
    ensures
        ec.chill_rise_per_s == 0 ==> r == Step::Quiet && *final(p) == *old(p) && final(events)@ == old(events)@,
        ec.chill_rise_per_s > 0 ==> {
            let w = wet_after(*ec, *inp, old(p).wet);
            let c = chill_after(*ec, old(p).chill, spec_target_chill(*ec, *inp, wetted(*ec, *inp, *old(p))));
            let hurting = c > ec.hurt_at && ec.hurt_at < 1000;
            &&& *final(p) == (Player { wet: w, chill: c, hp: final(p).hp, cold_acc: final(p).cold_acc, ..*old(p) })
            &&& !hurting ==> final(p).cold_acc == 0 && final(p).hp == old(p).hp
            &&& hurting ==> {
                let rate = ec.hurt_hp_per_min as int * (c - ec.hurt_at);
                let den = (1000 - ec.hurt_at) * 60;
                let owed = (old(p).cold_acc + rate) / den;
                &&& final(p).cold_acc == (old(p).cold_acc + rate) % den
                &&& final(p).hp == (if owed > 0 && old(p).hp > 0 {
                    sat_sub16(old(p).hp, (if owed < u16::MAX { owed } else { u16::MAX as int }) as u16)
                } else {
                    old(p).hp as int
                })
            }
            &&& r == (if old(p).hp > 0 && final(p).hp == 0 {
                Step::Died
            } else if final(p).hp != old(p).hp {
                Step::Changed
            } else {
                Step::Quiet
            })
            &&& r == Step::Changed ==> final(events)@ == old(events)@.push(
                Event { code: EV_HEALTH, a: old(p).id, b: final(p).hp as u32, c: old(p).hp_max as u32 },
            )
            &&& r != Step::Changed ==> final(events)@ == old(events)@
        },
{
    if !ec.armed() {
        return Step::Quiet;
    }
    let hp_before = p.hp;
    p.wet = wet_step(ec, inp, p.wet);
    let target = target_chill(ec, inp, p);
    p.chill = chill_step(ec, p.chill, target);
    let mut died = false;
    if p.chill > ec.hurt_at && ec.hurt_at < 1000 {
        let over = (p.chill - ec.hurt_at) as u32;
        let span = (1000 - ec.hurt_at) as u32;
        let dmg = tick_units(&mut p.cold_acc, ec.hurt_hp_per_min as u32 * over, span * 60);
        proof {
            let total = old(p).cold_acc + ec.hurt_hp_per_min as int * over;
            let den = span * 60;
            vstd::arithmetic::div_mod::lemma_fundamental_div_mod_converse(total, den as int, dmg as int, p.cold_acc as int);
        }
        if dmg > 0 && p.hp > 0 {
            let d: u16 = if dmg < u16::MAX as u64 { dmg as u16 } else { u16::MAX };
            died = hurt_unreduced(p, d);
        }
    } else {
        p.cold_acc = 0;
    }
    if died {
        return Step::Died;
    }
    if p.hp != hp_before {
        events.push(EV_HEALTH, p.id, p.hp as u32, p.hp_max as u32);
        return Step::Changed;
    }
    Step::Quiet
}

/// A fresh body comes up dry and warm.
pub fn reset(p: &mut Player)
    ensures
        *final(p) == (Player { wet: 0, chill: 0, cold_acc: 0, ..*old(p) }),
{
    p.wet = 0;
    p.chill = 0;
    p.cold_acc = 0;
}

/// The two meters as the owner's HUD reads them: wet %, cold %, and
/// whether the cold is hurting.
pub fn readout(ec: &ExposureContent, p: &Player) -> (r: (u8, u8, bool))
    ensures
        r.0 as int == (if p.wet / 10 < 100 { p.wet / 10 } else { 100 }),
        r.1 as int == (if p.chill / 10 < 100 { p.chill / 10 } else { 100 }),
        r.2 == (ec.chill_rise_per_s > 0 && p.chill > ec.hurt_at),
{
    let w = p.wet / 10;
    let c = p.chill / 10;
    (
        if w < 100 { w as u8 } else { 100 },
        if c < 100 { c as u8 } else { 100 },
        ec.armed() && p.chill > ec.hurt_at,
    )
}

} // verus!
