//! What the animals hear. A noise is a point, a radius and a tick, kept in
//! a small ring; an animal that thinks inside a noise's radius within a
//! think of it heard it. A full ring forgets the oldest.
use vstd::prelude::*;

use crate::limits::{MAX_NOISES, MAX_PLAYERS, MOB_THINK_TICKS};
use crate::world::{impact_x, spec_impact_x, Event, EventQueue, Player, EV_IMPACT, EV_SHOT};

verus! {

/// How far each kind of noise carries, centimetres.
pub const NOISE_GUN_CM: i64 = 10_000;
/// A bow is quiet.
pub const NOISE_BOW_CM: i64 = 1_500;
/// A strike on a surface.
pub const NOISE_STRIKE_CM: i64 = 2_500;
/// A satchel going off.
pub const NOISE_BLAST_CM: i64 = 20_000;

/// One noise, at a position in `3 cm` quanta.
#[derive(Clone, Copy, Debug, PartialEq, Eq, Structural)]
pub struct Noise {
    pub qx: i32,
    pub qz: i32,
    pub radius_cm: i64,
    /// The tick it was made on.
    pub at: u64,
}

impl Default for Noise {
    fn default() -> (n: Self)
        ensures
            n == (Noise { qx: 0, qz: 0, radius_cm: 0, at: 0 }),
    {
        Noise { qx: 0, qz: 0, radius_cm: 0, at: 0 }
    }
}

/// The recent noises, a ring.
pub struct Noises {
    ring: [Noise; MAX_NOISES],
    next: usize,
}

/// Whether `n` is audible at `(qx, qz)` on `tick`: a real noise, made no
/// later than now and within one think of it, and inside its radius.
pub open spec fn audible(n: Noise, tick: u64, qx: i32, qz: i32) -> bool {
    let dx: int = (n.qx - qx) * 3;
    let dz: int = (n.qz - qz) * 3;
    &&& n.radius_cm != 0
    &&& n.at <= tick
    &&& tick - n.at <= MOB_THINK_TICKS
    &&& dx * dx + dz * dz <= n.radius_cm * n.radius_cm
}

/// Whether `a` beats `b` for the ear: newer, or as new and louder.
pub open spec fn louder_news(a: Noise, b: Noise) -> bool {
    a.at > b.at || (a.at == b.at && a.radius_cm > b.radius_cm)
}

/// The noise [`Noises::heard`] answers with: the first audible one that no
/// other audible one beats.
pub open spec fn is_heard_pick(ring: Seq<Noise>, j: int, tick: u64, qx: i32, qz: i32) -> bool {
    &&& 0 <= j < ring.len()
    &&& audible(ring[j], tick, qx, qz)
    &&& forall|k: int| 0 <= k < ring.len() && audible(ring[k], tick, qx, qz) ==> !louder_news(ring[k], ring[j])
    &&& forall|k: int| 0 <= k < j && audible(ring[k], tick, qx, qz) ==> louder_news(ring[j], ring[k])
}

/// The first active player with id `id` among `players[k..]`.
pub open spec fn shooter_from(players: Seq<Player>, id: u32, k: int) -> Option<int>
    decreases players.len() - k,
{
    if k < 0 || k >= players.len() {
        None
    } else if players[k].active && players[k].id == id {
        Some(k)
    } else {
        shooter_from(players, id, k + 1)
    }
}

/// The noise one event makes on `tick`: a shot at its shooter's body —
/// loud from a firearm (flight speed zero), quiet from a bow — and an
/// impact at the point struck; nothing for a shot whose shooter is not
/// among the active players, nor for any other event.
pub open spec fn noise_of(e: Event, players: Seq<Player>, tick: u64) -> Option<Noise> {
    if e.code == EV_SHOT {
        match shooter_from(players, e.a, 0) {
            Some(j) => Some(
                Noise {
                    qx: players[j].body.qx,
                    qz: players[j].body.qz,
                    radius_cm: if e.c < 0x1_0000 { NOISE_GUN_CM } else { NOISE_BOW_CM },
                    at: tick,
                },
            ),
            None => None,
        }
    } else if e.code == EV_IMPACT {
        Some(Noise { qx: spec_impact_x(e.a) as i32, qz: e.b as i32, radius_cm: NOISE_STRIKE_CM, at: tick })
    } else {
        None
    }
}

/// The noises the first `n` events make, in their order.
pub open spec fn noises_of(events: Seq<Event>, players: Seq<Player>, tick: u64, n: int) -> Seq<Noise>
    decreases n,
{
    if n <= 0 {
        Seq::empty()
    } else {
        noises_of(events, players, tick, n - 1) + match noise_of(events[n - 1], players, tick) {
            Some(x) => seq![x],
            None => Seq::<Noise>::empty(),
        }
    }
}

/// A ring's slots and cursor after pushing `ns` in order.
pub open spec fn pushed_all(slots: Seq<Noise>, cursor: int, ns: Seq<Noise>) -> (Seq<Noise>, int)
    decreases ns.len(),
{
    if ns.len() == 0 {
        (slots, cursor)
    } else {
        let before = pushed_all(slots, cursor, ns.drop_last());
        (before.0.update(before.1, ns.last()), (before.1 + 1) % (MAX_NOISES as int))
    }
}

impl Noises {
    /// The ring's slots, oldest overwritten first.
    pub closed spec fn slots(&self) -> Seq<Noise> {
        self.ring@
    }

    /// Where the next noise goes.
    pub closed spec fn cursor(&self) -> int {
        self.next as int
    }

    pub closed spec fn wf(&self) -> bool {
        self.next < MAX_NOISES
    }

    pub fn new() -> (n: Self)
        ensures
            n.wf(),
            n.cursor() == 0,
            forall|i: int| 0 <= i < MAX_NOISES ==> n.slots()[i] == (Noise { qx: 0, qz: 0, radius_cm: 0, at: 0 }),
            n.slots().len() == MAX_NOISES,
    {
        Noises { ring: [Noise { qx: 0, qz: 0, radius_cm: 0, at: 0 }; MAX_NOISES], next: 0 }
    }

    /// The ring's slots, in storage order.
    pub fn ring(&self) -> (s: &[Noise])
        ensures
            s@ == self.slots(),
    {
        self.ring.as_slice()
    }

    /// Record a noise over the oldest slot.
    pub fn push(&mut self, n: Noise)
        requires
            old(self).wf(),
        ensures
            final(self).wf(),
            final(self).slots() == old(self).slots().update(old(self).cursor(), n),
            final(self).cursor() == (old(self).cursor() + 1) % (MAX_NOISES as int),
    {
        self.ring[self.next] = n;
        self.next = (self.next + 1) % MAX_NOISES;
    }

    /// The noise one event makes on `tick`.
    fn noise_from(e: Event, players: &[Player; MAX_PLAYERS], tick: u64) -> (r: Option<Noise>)
        ensures
            r == noise_of(e, players@, tick),
    {
        if e.code == EV_SHOT {
            let mut k: usize = 0;
            while k < MAX_PLAYERS
                invariant
                    k <= MAX_PLAYERS,
                    e.code == EV_SHOT,
                    players@.len() == MAX_PLAYERS,
                    shooter_from(players@, e.a, 0) == shooter_from(players@, e.a, k as int),
                decreases MAX_PLAYERS - k,
            {
                if players[k].active && players[k].id == e.a {
                    assert(shooter_from(players@, e.a, k as int) == Some(k as int));
                    let radius_cm = if e.c < 0x1_0000 { NOISE_GUN_CM } else { NOISE_BOW_CM };
                    let n = Noise { qx: players[k].body.qx, qz: players[k].body.qz, radius_cm, at: tick };

                    return Some(n);
                }
                k += 1;
            }
            None
        } else if e.code == EV_IMPACT {
            Some(Noise { qx: impact_x(e.a), qz: e.b as i32, radius_cm: NOISE_STRIKE_CM, at: tick })
        } else {
            None
        }
    }

    /// Record this tick's noises off its events, in their order: a shot
    /// where its shooter stands, an impact where it struck. Called once, at
    /// the end of the tick, so every producer has spoken.
    pub fn record(&mut self, tick: u64, events: &EventQueue, players: &[Player; MAX_PLAYERS])
        requires
            old(self).wf(),
        ensures
            final(self).wf(),
            ({
                let after = pushed_all(
                    old(self).slots(),
                    old(self).cursor(),
                    noises_of(events@, players@, tick, events@.len() as int),
                );
                &&& final(self).slots() == after.0
                &&& final(self).cursor() == after.1
            }),
    {
        let es = events.entries();
        let mut i: usize = 0;
        while i < es.len()
            invariant
                i <= es@.len(),
                es@ == events@,
                self.wf(),
                ({
                    let after = pushed_all(old(self).slots(), old(self).cursor(), noises_of(es@, players@, tick, i as int));
                    &&& self.slots() == after.0
                    &&& self.cursor() == after.1
                }),
            decreases es@.len() - i,
        {
            let got = Self::noise_from(es[i], players, tick);
            let ghost ns = noises_of(es@, players@, tick, i as int);
            match got {
                Some(n) => {
                    self.push(n);
                    assert(noises_of(es@, players@, tick, i + 1) == ns + seq![n]);
                    assert((ns + seq![n]).drop_last() =~= ns);
                },
                None => {
                    assert(noises_of(es@, players@, tick, i + 1) =~= ns);
                },
            }
            i += 1;
        }
    }

    /// The most recent noise audible at `(qx, qz)` on `tick`; ties go to
    /// the louder, then to the earlier slot.
    pub fn heard(&self, tick: u64, qx: i32, qz: i32) -> (r: Option<Noise>)
        ensures
            r == None::<Noise> <==> forall|k: int| 0 <= k < MAX_NOISES ==> !audible(self.slots()[k], tick, qx, qz),
            r matches Some(n) ==> exists|j: int| is_heard_pick(self.slots(), j, tick, qx, qz) && self.slots()[j] == n,
    {
        let mut best: Option<usize> = None;
        let mut i: usize = 0;
        while i < MAX_NOISES
            invariant
                i <= MAX_NOISES,
                self.ring@.len() == MAX_NOISES,
                match best {
                    None => forall|k: int| 0 <= k < i ==> !audible(self.ring@[k], tick, qx, qz),
                    Some(b) => b < i && is_heard_pick(self.ring@.subrange(0, i as int), b as int, tick, qx, qz),
                },
            decreases MAX_NOISES - i,
        {
            let n = self.ring[i];
            let ok = self.audible_at(i, tick, qx, qz);
            if ok {
                let take = match best {
                    None => true,
                    Some(b) => n.at > self.ring[b].at || (n.at == self.ring[b].at && n.radius_cm > self.ring[b].radius_cm),
                };
                if take {
                    best = Some(i);
                }
            }
            proof {
                let s = self.ring@;
                let sub = s.subrange(0, i + 1);
                match best {
                    None => {},
                    Some(b) => {
                        assert forall|k: int| 0 <= k < sub.len() && audible(sub[k], tick, qx, qz) implies !louder_news(sub[k], sub[b as int]) by {
                            if k < i as int {
                                assert(sub[k] == s.subrange(0, i as int)[k]);
                            }
                        }
                        assert forall|k: int| 0 <= k < b && audible(sub[k], tick, qx, qz) implies louder_news(sub[b as int], sub[k]) by {
                            assert(sub[k] == s.subrange(0, i as int)[k]);
                        }
                    },
                }
            }
            i += 1;
        }
        assert(self.ring@.subrange(0, MAX_NOISES as int) =~= self.ring@);
        assert(self.slots() == self.ring@);
        match best {
            None => None,
            Some(b) => {
                assert(is_heard_pick(self.slots(), b as int, tick, qx, qz));
                Some(self.ring[b])
            },
        }
    }

    fn audible_at(&self, i: usize, tick: u64, qx: i32, qz: i32) -> (b: bool)
        requires
            i < MAX_NOISES,
        ensures
            b == audible(self.ring@[i as int], tick, qx, qz),
    {
        let n = self.ring[i];
        if n.radius_cm == 0 || n.at > tick || tick - n.at > MOB_THINK_TICKS {
            return false;
        }
        let dx: i128 = (n.qx as i128 - qx as i128) * 3;
        let dz: i128 = (n.qz as i128 - qz as i128) * 3;
        assert(dx * dx <= 0x100_0000_0000_0000_0000_0000) by (nonlinear_arith)
            requires
                -0x3_0000_0000 <= dx <= 0x3_0000_0000,
        ;
        assert(dz * dz <= 0x100_0000_0000_0000_0000_0000) by (nonlinear_arith)
            requires
                -0x3_0000_0000 <= dz <= 0x3_0000_0000,
        ;
        assert(dx * dx >= 0 && dz * dz >= 0) by (nonlinear_arith);
        let r = n.radius_cm as i128;
        assert(r * r <= 0x4000_0000_0000_0000_0000_0000_0000_0000 && r * r >= 0) by (nonlinear_arith)
            requires
                -0x8000_0000_0000_0000 <= r <= 0x7fff_ffff_ffff_ffff,
        ;
        dx * dx + dz * dz <= r * r
    }
}

} // verus!
