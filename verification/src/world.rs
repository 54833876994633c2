//! The pieces of the world the rule modules read and write: the event
//! queue a tick fills, and the player record its verbs act on.
use vstd::prelude::*;

use crate::gather::ItemStack;
use crate::input::InputFrame;
use crate::limits::INV_SLOTS;
use crate::movement::Body;

verus! {

/// A node's slot came back after its respawn timer (`a` = cell key).
pub const EV_SLOT_RESPAWNED: u8 = 1;
/// Items entered a player's hands (`a` = id, `b` = item << 16 | added).
pub const EV_GATHER: u8 = 2;
/// A body's hit points changed (`a` = id, `b` = hp, `c` = hp max).
pub const EV_HEALTH: u8 = 3;
/// A deployable verb was refused (`a` = id, `b` = reason).
pub const EV_DEPLOY_REFUSED: u8 = 4;
/// A hand's rights at a lock or hearth changed (`a` = cell key,
/// `b` = level << 16 | loc << 8 | grant, `c` = id).
pub const EV_AUTH: u8 = 5;

/// A door's state was announced (`a` = cell key, `b` = level << 16 |
/// loc << 8 | has_lock << 2 | locked << 1 | open, `c` = who).
pub const EV_DOOR: u8 = 6;
/// Somebody knocked on a door they may not open (`a` = cell key,
/// `b` = level << 16 | loc << 8, `c` = who).
pub const EV_KNOCK: u8 = 7;

/// A hearth took a feed (`a` = id, `b` = cell key, `c` = level).
pub const EV_STOCK: u8 = 8;

/// A deployable left the world (`a` = cell key, `b` = level << 16 |
/// loc << 8 | row).
pub const EV_DEPLOY_REMOVED: u8 = 9;
/// A structure took a hit (`a` = cell key, `b` = address, `c` = dealt << 16
/// | hp left).
pub const EV_STRUCT_HIT: u8 = 10;
/// Set in a structure hit's address when it names a deployable rather
/// than a building piece.
pub const STRUCT_DEPLOY_BIT: u32 = 0x8000_0000;

/// A gather swing was refused (`a` = id, `b` = held item << 16 | reason).
pub const EV_GATHER_REFUSED: u8 = 11;
/// A scattered slot stopped standing (`a` = cell key, `b` = occupant).
pub const EV_SLOT_HARVESTED: u8 = 12;
/// The weak spot a swinger is chasing moved (`a` = id, `b` = cell key,
/// `c` = hit << 8 | next mark).
pub const EV_WEAK_MARK: u8 = 13;
/// An arm swung (`a` = id).
pub const EV_SWING: u8 = 14;
/// A surface was struck at a quantized point (`a` = surface << 24 |
/// weapon kind << 20 | x, see [`impact_a`]; `b` = z, `c` = y).
pub const EV_IMPACT: u8 = 15;
/// A deployable was placed (`a` = cell key, `b` = level << 16 | loc << 8 |
/// row, `c` = owner).
pub const EV_DEPLOY_PLACED: u8 = 16;

/// A shot was fired: `a` is the shooter's id, `c` carries the projectile's
/// flight speed in its high half (zero for a firearm's hitscan).
pub const EV_SHOT: u8 = 17;

/// The surface an impact struck: the open world.
pub const SURF_WORLD: u8 = 0;
/// The weapon kind of an impact: a hand-held blow.
pub const IMPACT_MELEE: u8 = 1;
/// An impact's `a` word carries the struck point's x in its low
/// `IMPACT_X_BITS` bits, the weapon kind in the four above, and the
/// surface in the top byte.
pub const IMPACT_X_BITS: u32 = 20;

/// Pack an impact's `a` word from its surface, weapon kind and x quanta.
pub fn impact_a(surf: u8, kind: u8, x: u32) -> (a: u32)
    requires
        kind < 16,
        x < 0x10_0000,
    ensures
        a == surf as int * 0x100_0000 + kind as int * 0x10_0000 + x,
        spec_impact_x(a) == x,
{
    (surf as u32) * 0x100_0000 + (kind as u32) * 0x10_0000 + x
}

/// The struck point's x quanta in an impact's `a` word.
pub open spec fn spec_impact_x(a: u32) -> int {
    a as int % 0x10_0000
}

/// The struck point's x quanta in an impact's `a` word; the weapon kind and
/// the surface above it do not move it.
pub fn impact_x(a: u32) -> (x: i32)
    ensures
        x == spec_impact_x(a),
{
    (a % 0x10_0000) as i32
}

/// Worn-gear slots on a body.
pub const WORN_SLOTS: usize = 6;

/// One announced fact.
#[derive(Clone, Copy, Debug, PartialEq, Eq, Default)]
pub struct Event {
    pub code: u8,
    pub a: u32,
    pub b: u32,
    pub c: u32,
}

/// The facts one tick announced, in the order they happened.
#[derive(Debug)]
pub struct EventQueue {
    events: Vec<Event>,
}

impl View for EventQueue {
    type V = Seq<Event>;

    closed spec fn view(&self) -> Seq<Event> {
        self.events@
    }
}

impl Default for EventQueue {
    fn default() -> (q: Self)
        ensures
            q@ == Seq::<Event>::empty(),
    {
        EventQueue::new()
    }
}

impl EventQueue {
    pub fn new() -> (q: Self)
        ensures
            q@ == Seq::<Event>::empty(),
    {
        EventQueue { events: Vec::new() }
    }

    /// Append one fact.
    pub fn push(&mut self, code: u8, a: u32, b: u32, c: u32)
        ensures
            final(self)@ == old(self)@.push(Event { code, a, b, c }),
    {
        self.events.push(Event { code, a, b, c });
    }

    pub fn len(&self) -> (n: usize)
        ensures
            n == self@.len(),
    {
        self.events.len()
    }

    pub fn entries(&self) -> (s: &[Event])
        ensures
            s@ == self@,
    {
        self.events.as_slice()
    }
}

/// A player's body and hands, as far as the rule modules read them.
#[derive(Clone, Copy, Debug)]
pub struct Player {
    pub id: u32,
    pub active: bool,
    pub dead: bool,
    pub sleeping: bool,
    pub hp: u16,
    pub hp_max: u16,
    pub body: Body,
    /// The last input frame applied.
    pub frame: InputFrame,
    pub inv: [ItemStack; INV_SLOTS],
    pub worn: [ItemStack; WORN_SLOTS],
    /// Sub-point remainder of a burning light.
    pub light_acc: u32,
    /// Wetness, per mille.
    pub wet: u16,
    /// Chill, per mille.
    pub chill: u16,
    /// Sub-point remainder of hp owed to the cold.
    pub cold_acc: u32,
    /// First tick the arm may swing again.
    pub next_swing: u64,
    /// The node cell whose weak spot this hand is chasing, and the landed
    /// hits of that chase.
    pub ws_cell: u32,
    pub ws_hits: u16,
}

impl Default for Player {
    fn default() -> (p: Self)
        ensures
            p.id == 0,
            !p.active,
            !p.dead,
            !p.sleeping,
            p.hp == 0,
            p.frame == InputFrame::spec_blank(),
            p.light_acc == 0,
            forall|i: int| 0 <= i < INV_SLOTS ==> p.inv[i] == ItemStack::spec_blank(),
    {
        Player {
            id: 0,
            active: false,
            dead: false,
            sleeping: false,
            hp: 0,
            hp_max: 0,
            body: Body::default(),
            frame: InputFrame::default(),
            inv: [ItemStack::default(); INV_SLOTS],
            worn: [ItemStack::default(); WORN_SLOTS],
            light_acc: 0,
            wet: 0,
            chill: 0,
            cold_acc: 0,
            next_swing: 0,
            ws_cell: u32::MAX,
            ws_hits: 0,
        }
    }
}

} // verus!
