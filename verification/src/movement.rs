//! The body a player or an animal moves: its position in the quanta the
//! wire carries.
use vstd::prelude::*;

verus! {

/// The x/z position quantum, in centimetres.
pub const POS_XZ_Q_CM: i64 = 3;

/// A body's quantized state: position in `3 cm` (x, z) and `1 cm` (y)
/// quanta, vertical speed in `1 cm/s` quanta, and whether it stands on
/// something.
#[derive(Clone, Copy, Debug, PartialEq, Eq)]
pub struct Body {
    pub qx: i32,
    pub qy: i32,
    pub qz: i32,
    pub qvy: i32,
    pub grounded: bool,
}

impl Default for Body {
    fn default() -> (b: Self)
        ensures
            b == (Body { qx: 0, qy: 0, qz: 0, qvy: 0, grounded: false }),
    {
        Body { qx: 0, qy: 0, qz: 0, qvy: 0, grounded: false }
    }
}

} // verus!
