//! The input frame: seq, buttons, yaw, pitch, the two move axes and the
//! selected hotbar slot. The sim consumes one effective frame per player
//! per tick and keeps the last one applied; a tick with no fresh frame
//! reuses it through [`decay_frame`]'s ramp.
use vstd::prelude::*;

verus! {

pub const BTN_SPRINT: u8 = 1;
pub const BTN_CROUCH: u8 = 2;
pub const BTN_PRIMARY: u8 = 4;
pub const BTN_JUMP: u8 = 8;
/// Hold the light in your hand up, lit. A latch, not an edge.
pub const BTN_LIGHT: u8 = 16;
/// Every button bit the sim means.
pub const BTN_MASK: u8 = 31;

#[derive(Clone, Copy, PartialEq, Eq, Debug)]
pub struct InputFrame {
    pub seq: u16,
    pub buttons: u8,
    /// View yaw; the high byte indexes the shared yaw table.
    pub yaw: u16,
    pub pitch: u8,
    /// Strafe axis, +right, -127..=127.
    pub move_x: i8,
    /// Forward axis, +forward, -127..=127.
    pub move_z: i8,
    /// Selected hotbar slot — the held item.
    pub sel: u8,
}

impl InputFrame {
    /// The frame nobody has pressed anything on.
    pub open spec fn spec_blank() -> InputFrame {
        InputFrame { seq: 0, buttons: 0, yaw: 0, pitch: 0, move_x: 0, move_z: 0, sel: 0 }
    }
}

impl Default for InputFrame {
    fn default() -> (f: Self)
        ensures
            f == InputFrame::spec_blank(),
    {
        InputFrame { seq: 0, buttons: 0, yaw: 0, pitch: 0, move_x: 0, move_z: 0, sel: 0 }
    }
}

/// How many starved reuses fully extinguish a frame's movement.
pub const DECAY_STEPS: u32 = 3;

/// One move axis after `repeat` starved reuses: scaled by
/// `(DECAY_STEPS - repeat) / DECAY_STEPS`, floored at zero steps left, and
/// truncated toward zero so a left strafe decays exactly as a right one.
pub open spec fn decayed_axis(v: i8, repeat: u32) -> i8 {
    let keep: int = if repeat >= DECAY_STEPS { 0 } else { DECAY_STEPS - repeat };
    let scaled: int = v as int * keep;
    // Truncating division, the way the machine divides.
    (if scaled >= 0 { scaled / 3 } else { -((-scaled) / 3) }) as i8
}

/// The starved-reuse frame: axes fade over [`DECAY_STEPS`] reuses, edges
/// and holds clear from the first reuse, latches (`yaw`, `pitch`, `sel`,
/// `BTN_LIGHT`) ride through. `repeat == 0` is the frame itself.
pub fn decay_frame(f: &InputFrame, repeat: u32) -> (d: InputFrame)
    ensures
        d.seq == f.seq,
        d.yaw == f.yaw,
        d.pitch == f.pitch,
        d.sel == f.sel,
        d.buttons == (if repeat == 0 { f.buttons } else { f.buttons & BTN_LIGHT }),
        d.move_x == decayed_axis(f.move_x, repeat),
        d.move_z == decayed_axis(f.move_z, repeat),
        repeat == 0 ==> d == *f,
{
    let keep: i32 = if repeat >= DECAY_STEPS { 0 } else { (DECAY_STEPS - repeat) as i32 };
    let mx = scale_axis(f.move_x, keep);
    let mz = scale_axis(f.move_z, keep);
    InputFrame {
        seq: f.seq,
        buttons: if repeat == 0 { f.buttons } else { f.buttons & BTN_LIGHT },
        yaw: f.yaw,
        pitch: f.pitch,
        move_x: mx,
        move_z: mz,
        sel: f.sel,
    }
}

fn scale_axis(v: i8, keep: i32) -> (r: i8)
    requires
        0 <= keep <= 3,
    ensures
        ({
            let scaled: int = v as int * keep;
            r == (if scaled >= 0 { scaled / 3 } else { -((-scaled) / 3) }) as i8
        }),
        -127 <= v <= 127 ==> -127 <= r <= 127,
        keep == 3 ==> r == v,
{
    let w = v as i32;
    assert(-384 <= w * keep <= 381) by (nonlinear_arith)
        requires
            -128 <= w <= 127,
            0 <= keep <= 3,
    ;
    let scaled = w * keep;
    let q: i32 = if scaled >= 0 { scaled / 3 } else { -((-scaled) / 3) };
    assert(keep == 3 ==> q == w) by (nonlinear_arith)
        requires
            scaled == w * keep,
            q == (if scaled >= 0 { scaled / 3 } else { -((-scaled) / 3) }),
    ;
    q as i8
}

} // verus!
