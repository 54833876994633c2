use sim_core::input::{
    decay_frame, InputFrame, BTN_JUMP, BTN_LIGHT, BTN_MASK, BTN_PRIMARY, BTN_SPRINT, DECAY_STEPS,
};

fn frame(move_x: i8, move_z: i8, buttons: u8) -> InputFrame {
    InputFrame {
        seq: 9,
        buttons,
        yaw: 0x1234,
        pitch: 77,
        move_x,
        move_z,
        sel: 3,
    }
}

/// repeat 0 is the frame itself, bit for bit.
#[test]
fn repeat_zero_is_identity() {
    let f = frame(-127, 127, BTN_MASK);
    assert_eq!(decay_frame(&f, 0), f);
}

/// The ramp is 2/3, 1/3, 0 — and symmetric in sign.
#[test]
fn movement_decays_symmetrically_to_zero() {
    let f = frame(-127, 127, 0);
    let d1 = decay_frame(&f, 1);
    assert_eq!((d1.move_x, d1.move_z), (-84, 84));
    let d2 = decay_frame(&f, 2);
    assert_eq!((d2.move_x, d2.move_z), (-42, 42));
    for repeat in DECAY_STEPS.. {
        let d = decay_frame(&f, repeat);
        assert_eq!((d.move_x, d.move_z), (0, 0));
        if repeat > DECAY_STEPS + 2 {
            break;
        }
    }
}

/// Edges and holds clear on the first reuse while the flame latch rides
/// through.
#[test]
fn buttons_clear_except_the_light_latch() {
    let f = frame(50, 50, BTN_MASK);
    let d = decay_frame(&f, 1);
    assert_eq!(d.buttons, BTN_LIGHT);
    let dark = frame(50, 50, BTN_SPRINT | BTN_JUMP | BTN_PRIMARY);
    assert_eq!(decay_frame(&dark, 1).buttons, 0);
}

/// The facts of the frame — look, hand, seq — never decay.
#[test]
fn latches_ride_through_every_step() {
    let f = frame(10, -10, BTN_LIGHT);
    for repeat in 0..6 {
        let d = decay_frame(&f, repeat);
        assert_eq!((d.seq, d.yaw, d.pitch, d.sel), (9, 0x1234, 77, 3));
    }
}

/// An odd axis truncates toward zero on both sides.
#[test]
fn an_odd_axis_truncates_toward_zero_both_ways() {
    let f = frame(-100, 100, 0);
    let d = decay_frame(&f, 1);
    assert_eq!((d.move_x, d.move_z), (-66, 66));
    let d = decay_frame(&f, 2);
    assert_eq!((d.move_x, d.move_z), (-33, 33));
}
