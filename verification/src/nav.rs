//! Routing's small arithmetic: the path a body follows corner by corner,
//! the planar distance in the AOI convention, the octile metric, and the
//! heading turns, all in the sim's own integer units.
use vstd::prelude::*;
use vstd::multiset::Multiset;

use crate::limits::NAV_MAX_CORNERS;

verus! {

/// The straight and diagonal step costs of the octile metric.
pub const COST_STRAIGHT: u32 = 10;
pub const COST_DIAG: u32 = 14;
/// How near a corner counts as reaching it, centimetres.
pub const CORNER_REACH_CM: i64 = 100;
/// The closest a path's end ever asks a body to stop, centimetres.
pub const MIN_STOP_CM: i64 = 50;

/// A route: corner cells to pass, then the exact goal.
#[derive(Clone, Copy, Debug, PartialEq, Eq)]
pub struct NavPath {
    pub cx: [u16; NAV_MAX_CORNERS],
    pub cz: [u16; NAV_MAX_CORNERS],
    pub len: u8,
    pub next: u8,
    pub goal_qx: i32,
    pub goal_qz: i32,
    pub stop_cm: u16,
    pub partial: bool,
    pub arrived: bool,
}

impl NavPath {
    /// Whether corners remain to walk.
    pub fn active(&self) -> (b: bool)
        ensures
            b == (self.next < self.len),
    {
        self.next < self.len
    }

    /// Drop the route.
    pub fn clear(&mut self)
        ensures
            *final(self) == (NavPath { len: 0, next: 0, partial: false, arrived: false, ..*old(self) }),
    {
        self.len = 0;
        self.next = 0;
        self.partial = false;
        self.arrived = false;
    }
}

/// A corner coordinate clamped into the path's cell range.
pub open spec fn clamp_cell(c: i32) -> u16 {
    if c < 0 { 0 } else if c > u16::MAX { u16::MAX } else { c as u16 }
}

/// Write a planned route into `out`: the first [`NAV_MAX_CORNERS`]
/// corners, each coordinate clamped into the cell range, walking from the
/// first, toward `goal_q`, stopping within `stop_cm`; `partial` marks a
/// route cut short of the goal. Corner slots past the route keep whatever
/// they held.
pub fn write_path(out: &mut NavPath, corners: &[(i32, i32)], goal_q: (i32, i32), stop_cm: u16, partial: bool)
    ensures
        ({
            let n = if corners@.len() < NAV_MAX_CORNERS { corners@.len() as int } else { NAV_MAX_CORNERS as int };
            &&& final(out).len == n
            &&& final(out).next == 0
            &&& final(out).goal_qx == goal_q.0 && final(out).goal_qz == goal_q.1
            &&& final(out).stop_cm == stop_cm
            &&& final(out).partial == partial
            &&& !final(out).arrived
            &&& forall|k: int| 0 <= k < n ==> final(out).cx[k] == clamp_cell(corners@[k].0) && final(out).cz[k]
                == clamp_cell(corners@[k].1)
            &&& forall|k: int| n <= k < NAV_MAX_CORNERS ==> final(out).cx[k] == old(out).cx[k] && final(out).cz[k]
                == old(out).cz[k]
        }),
{
    let n = if corners.len() < NAV_MAX_CORNERS { corners.len() } else { NAV_MAX_CORNERS };
    let mut k: usize = 0;
    while k < n
        invariant
            n <= NAV_MAX_CORNERS,
            n <= corners@.len(),
            k <= n,
            forall|j: int| 0 <= j < k ==> out.cx[j] == clamp_cell(corners@[j].0) && out.cz[j] == clamp_cell(corners@[j].1),
            forall|j: int| k <= j < NAV_MAX_CORNERS ==> out.cx[j] == old(out).cx[j] && out.cz[j] == old(out).cz[j],
        decreases n - k,
    {
        let (cx, cz) = corners[k];
        out.cx[k] = if cx < 0 { 0 } else if cx > 65535 { 65535 } else { cx as u16 };
        out.cz[k] = if cz < 0 { 0 } else if cz > 65535 { 65535 } else { cz as u16 };
        k += 1;
    }
    out.len = n as u8;
    out.next = 0;
    out.goal_qx = goal_q.0;
    out.goal_qz = goal_q.1;
    out.stop_cm = stop_cm;
    out.partial = partial;
    out.arrived = false;
}

/// What a planning request came to.
#[derive(Clone, Copy, Debug, PartialEq, Eq, Structural)]
pub enum Plan {
    Direct,
    Found,
    Toward,
    Partial,
    Unreachable,
    NoWay,
    Deferred,
}

impl Plan {
    /// Whether the body should walk on this plan.
    pub fn moving(self) -> (b: bool)
        ensures
            b == (self is Direct || self is Found || self is Toward || self is Partial || self is Unreachable),
    {
        match self {
            Plan::Direct | Plan::Found | Plan::Toward | Plan::Partial | Plan::Unreachable => true,
            _ => false,
        }
    }
}

/// Planar distance² in cm² from a delta in `3 cm` quanta.
pub open spec fn spec_dist2_cm(dqx: int, dqz: int) -> int {
    (dqx * 3) * (dqx * 3) + (dqz * 3) * (dqz * 3)
}

/// Planar distance² in centimetres² from a delta in position quanta.
pub fn dist2_cm(dqx: i32, dqz: i32) -> (d: i64)
    requires
        spec_dist2_cm(dqx as int, dqz as int) <= i64::MAX,
    ensures
        d == spec_dist2_cm(dqx as int, dqz as int),
{
    let (x, z) = (dqx as i64 * 3, dqz as i64 * 3);
    assert(x * x >= 0 && z * z >= 0) by (nonlinear_arith);
    x * x + z * z
}

/// The unsigned angle between two headings, yaw units (65536 a turn).
pub open spec fn spec_yaw_gap(a: u16, b: u16) -> int {
    let d: int = (b - a + 65536) % 65536;
    if d <= 32768 { d } else { 65536 - d }
}

/// The unsigned angle between two headings.
pub fn yaw_gap(a: u16, b: u16) -> (g: u16)
    ensures
        g == spec_yaw_gap(a, b),
{
    let d = b.wrapping_sub(a);
    if d <= 32768 {
        d
    } else {
        (65536u32 - d as u32) as u16
    }
}

/// Turn `cur` toward `want` by at most `step`, the short way round.
pub open spec fn spec_turn(cur: u16, want: u16, step: u16) -> u16 {
    let d: int = (want - cur + 65536) % 65536;
    if spec_yaw_gap(cur, want) <= step {
        want
    } else if 0 < d < 32768 {
        ((cur + step) % 65536) as u16
    } else {
        ((cur - step + 65536) % 65536) as u16
    }
}

/// Turn `cur` toward `want` by at most `step`, the short way round.
pub fn turn_toward(cur: u16, want: u16, step: u16) -> (t: u16)
    ensures
        t == spec_turn(cur, want, step),
        spec_yaw_gap(cur, want) <= step ==> t == want,
{
    let d = want.wrapping_sub(cur);
    let gap = yaw_gap(cur, want);
    if gap <= step {
        want
    } else if d > 0 && d < 32768 {
        cur.wrapping_add(step)
    } else {
        cur.wrapping_sub(step)
    }
}

/// The octile metric on a grid delta.
pub open spec fn spec_octile(dx: int, dz: int) -> int {
    let ax = if dx < 0 { -dx } else { dx };
    let az = if dz < 0 { -dz } else { dz };
    let lo = if ax < az { ax } else { az };
    let hi = if ax < az { az } else { ax };
    COST_STRAIGHT * hi + (COST_DIAG - COST_STRAIGHT) * lo
}

/// The octile metric: straight steps cost 10, diagonal ones 14.
pub fn octile(dx: i32, dz: i32) -> (c: u32)
    requires
        spec_octile(dx as int, dz as int) <= u32::MAX,
    ensures
        c == spec_octile(dx as int, dz as int),
{
    let ax: u32 = if dx < 0 { (-(dx as i64)) as u32 } else { dx as u32 };
    let az: u32 = if dz < 0 { (-(dz as i64)) as u32 } else { dz as u32 };
    let (lo, hi) = if ax < az { (ax, az) } else { (az, ax) };
    COST_STRAIGHT * hi + (COST_DIAG - COST_STRAIGHT) * lo
}

/// The quantized position of the centre of nav cell `c` (1 m cells, `3 cm`
/// quanta, rounded to nearest): `⌊((c + ½) m / 3 cm) + ½⌋`.
pub open spec fn spec_corner_q(c: u16) -> int {
    (200 * c + 103) / 6
}

fn corner_q(c: u16) -> (q: i32)
    ensures
        q == spec_corner_q(c),
{
    ((200 * c as i64 + 103) / 6) as i32
}

/// Where corner `k` of `path` asks a body to head: the exact goal for the
/// last corner, the corner cell's centre otherwise.
pub open spec fn spec_target(path: NavPath, k: int) -> (int, int) {
    if k + 1 == path.len {
        (path.goal_qx as int, path.goal_qz as int)
    } else {
        (spec_corner_q(path.cx[k]), spec_corner_q(path.cz[k]))
    }
}

/// Whether a body at `(qx, qz)` has reached corner `k`: within the stop
/// distance for the last one (never closer than [`MIN_STOP_CM`]), within
/// [`CORNER_REACH_CM`] for the others.
pub open spec fn spec_reached(path: NavPath, k: int, qx: i32, qz: i32) -> bool {
    let (tx, tz) = spec_target(path, k);
    let reach: int = if k + 1 == path.len {
        if path.stop_cm as int > MIN_STOP_CM { path.stop_cm as int } else { MIN_STOP_CM as int }
    } else {
        CORNER_REACH_CM as int
    };
    spec_dist2_cm(tx - qx, tz - qz) <= reach * reach
}

/// The goal is reached within the path's stop distance, never asked
/// closer than 50 cm: a body whose planar distance to the goal, in
/// centimetres (3 cm a quantum), is at most the larger of `stop_cm` and 50
/// has reached the last corner, and one farther has not; every other
/// corner is reached within 100 cm of its cell's centre.
pub proof fn law_the_goal_is_reached_within_the_stop_distance(path: NavPath, k: int, qx: i32, qz: i32)
    requires
        0 <= k < path.len,
    ensures
        k + 1 == path.len ==> (spec_reached(path, k, qx, qz) <==> ((path.goal_qx - qx) * 3) * ((path.goal_qx - qx) * 3) + (
        (path.goal_qz - qz) * 3) * ((path.goal_qz - qz) * 3) <= (if path.stop_cm >= 50 {
            path.stop_cm as int
        } else {
            50int
        }) * (if path.stop_cm >= 50 {
            path.stop_cm as int
        } else {
            50int
        })),
        k + 1 < path.len ==> (spec_reached(path, k, qx, qz) <==> ((spec_corner_q(path.cx[k]) - qx) * 3) * ((
        spec_corner_q(path.cx[k]) - qx) * 3) + ((spec_corner_q(path.cz[k]) - qz) * 3) * ((spec_corner_q(path.cz[k]) - qz)
            * 3) <= 100 * 100),
{
}

/// The walk stopped at corner `k`: every corner before it reached, `k`
/// not, `t` its target, and the path pointing at it.
pub open spec fn stops_at(o: NavPath, f: NavPath, k: int, t: (i32, i32), qx: i32, qz: i32) -> bool {
    &&& o.next <= k < o.len
    &&& !spec_reached(o, k, qx, qz)
    &&& forall|j: int| o.next <= j < k ==> spec_reached(o, j, qx, qz)
    &&& t.0 == spec_target(o, k).0
    &&& t.1 == spec_target(o, k).1
    &&& f == (NavPath { next: k as u8, ..o })
}

/// Where the body should head now: the current corner, advancing past
/// corners it has already reached. `None` once the path is done, and the
/// arrival is recorded on the path.
pub fn waypoint(path: &mut NavPath, qx: i32, qz: i32) -> (r: Option<(i32, i32)>)
    requires
        old(path).len <= NAV_MAX_CORNERS,
    ensures
        r is None ==> forall|k: int| old(path).next <= k < old(path).len ==> spec_reached(*old(path), k, qx, qz),
        r is None && old(path).next < old(path).len ==> *final(path) == (NavPath { next: old(path).len, arrived: true, ..*old(path) }),
        r is None && old(path).next >= old(path).len ==> *final(path) == *old(path),
        r is Some ==> stops_at(*old(path), *final(path), final(path).next as int, r->0, qx, qz),
{
    let ghost o = *path;
    let mut k = path.next;
    let mut stopped = false;
    let mut target: (i32, i32) = (0, 0);
    while !stopped && k < path.len
        invariant
            *path == o,
            o.len <= NAV_MAX_CORNERS,
            o.next <= k,
            k <= o.len || k == o.next,
            forall|j: int| o.next <= j < k ==> spec_reached(o, j, qx, qz),
            stopped ==> k < o.len && !spec_reached(o, k as int, qx, qz) && target.0
                == spec_target(o, k as int).0 && target.1 == spec_target(o, k as int).1,
        decreases path.len - k, if stopped { 0int } else { 1int },
    {
        let (reached, t) = corner(path, k, qx, qz);
        if reached {
            k += 1;
        } else {
            stopped = true;
            target = t;
        }
    }
    if stopped {
        path.next = k;
        assert(stops_at(o, *path, k as int, target, qx, qz));
        return Some(target);
    }
    if path.next < path.len {
        path.next = path.len;
        path.arrived = true;
    }
    None
}

/// Whether corner `k` is reached from `(qx, qz)`, and where it points.
fn corner(path: &NavPath, k: u8, qx: i32, qz: i32) -> (r: (bool, (i32, i32)))
    requires
        k < path.len,
        path.len <= NAV_MAX_CORNERS,
    ensures
        r.0 == spec_reached(*path, k as int, qx, qz),
        r.1.0 == spec_target(*path, k as int).0,
        r.1.1 == spec_target(*path, k as int).1,
{
    let ku = k as usize;
    let last = k + 1 == path.len;
    let (tx, tz) = if last {
        (path.goal_qx, path.goal_qz)
    } else {
        (corner_q(path.cx[ku]), corner_q(path.cz[ku]))
    };
    let dx = (tx as i128 - qx as i128) * 3;
    let dz = (tz as i128 - qz as i128) * 3;
    assert(dx * dx + dz * dz <= 0x1_0000_0000_0000_0000_0000 && dx * dx >= 0 && dz * dz >= 0) by (nonlinear_arith)
        requires
            -0x3_0000_0000 <= dx <= 0x3_0000_0000,
            -0x3_0000_0000 <= dz <= 0x3_0000_0000,
    ;
    let reach: i128 = if last {
        if path.stop_cm as i64 > MIN_STOP_CM { path.stop_cm as i128 } else { MIN_STOP_CM as i128 }
    } else {
        CORNER_REACH_CM as i128
    };
    assert(reach * reach <= 65535 * 65535) by (nonlinear_arith)
        requires
            0 <= reach <= 65535,
    ;
    (dx * dx + dz * dz <= reach * reach, (tx, tz))
}

/// The parent of heap position `j`.
pub open spec fn parent(j: int) -> int {
    (j - 1) / 2
}

/// Every key sits at or above its parent: the smallest key is at the root.
pub open spec fn heap_ordered(s: Seq<u64>) -> bool {
    forall|j: int| 0 < j < s.len() ==> #[trigger] s[parent(j)] <= s[j]
}

/// `s` with positions `a` and `b` exchanged.
pub open spec fn swapped(s: Seq<u64>, a: int, b: int) -> Seq<u64> {
    s.update(a, s[b]).update(b, s[a])
}

proof fn lemma_swap_keeps_multiset(s: Seq<u64>, a: int, b: int)
    requires
        0 <= a < s.len(),
        0 <= b < s.len(),
    ensures
        swapped(s, a, b).to_multiset() == s.to_multiset(),
        swapped(s, a, b).len() == s.len(),
{
    broadcast use vstd::multiset::group_multiset_axioms;
    broadcast use vstd::seq_lib::group_to_multiset_ensures;

    assert(s.contains(s[a]) && s.contains(s[b]));
    let s1 = s.update(a, s[b]);
    vstd::seq_lib::to_multiset_update(s, a, s[b]);
    vstd::seq_lib::to_multiset_update(s1, b, s[a]);
    if a == b {
        assert(s1 =~= s);
        assert(swapped(s, a, b) =~= s);
    } else {
        assert(s1[b] == s[b]);
        assert(swapped(s, a, b).to_multiset() =~= s.to_multiset());
    }
}

/// The root of an ordered heap is its smallest key.
proof fn lemma_root_is_least(s: Seq<u64>, k: int)
    requires
        heap_ordered(s),
        0 <= k < s.len(),
    ensures
        s[0] <= s[k],
    decreases k,
{
    if k > 0 {
        assert(s[parent(k)] <= s[k]);
        lemma_root_is_least(s, parent(k));
    }
}

/// A bounded binary min-heap of packed search keys: the frontier an A*
/// expands in key order. A full heap forgets the newest key, never panics.
pub struct KeyHeap<const CAP: usize> {
    keys: Vec<u64>,
}

impl<const CAP: usize> View for KeyHeap<CAP> {
    type V = Seq<u64>;

    closed spec fn view(&self) -> Seq<u64> {
        self.keys@
    }
}

impl<const CAP: usize> KeyHeap<CAP> {
    /// Within its cap and ordered.
    pub closed spec fn wf(&self) -> bool {
        self.keys@.len() <= CAP && heap_ordered(self.keys@)
    }

    pub fn new() -> (h: Self)
        ensures
            h.wf(),
            h@ == Seq::<u64>::empty(),
    {
        KeyHeap { keys: Vec::new() }
    }

    pub fn len(&self) -> (n: usize)
        ensures
            n == self@.len(),
    {
        self.keys.len()
    }

    pub fn is_empty(&self) -> (b: bool)
        ensures
            b == (self@.len() == 0),
    {
        self.keys.len() == 0
    }

    /// Forget every key.
    pub fn clear(&mut self)
        ensures
            final(self).wf(),
            final(self)@ == Seq::<u64>::empty(),
    {
        self.keys = Vec::new();
    }

    fn swap_at(&mut self, a: usize, b: usize)
        requires
            a < old(self)@.len(),
            b < old(self)@.len(),
        ensures
            final(self)@ == swapped(old(self)@, a as int, b as int),
    {
        let x = self.keys[a];
        let y = self.keys[b];
        self.keys.set(a, y);
        self.keys.set(b, x);
    }

    /// Add a key; a full heap keeps what it had.
    pub fn push(&mut self, k: u64)
        requires
            old(self).wf(),
        ensures
            final(self).wf(),
            old(self)@.len() < CAP ==> final(self)@.to_multiset() == old(self)@.to_multiset().insert(k)
                && final(self)@.len() == old(self)@.len() + 1,
            old(self)@.len() >= CAP ==> final(self)@ == old(self)@,
    {
        if self.keys.len() >= CAP {
            return;
        }
        proof {
            vstd::seq_lib::to_multiset_build(self.keys@, k);
        }
        self.keys.push(k);
        let ghost want = self.keys@.to_multiset();
        let mut i: usize = self.keys.len() - 1;
        while i > 0
            invariant
                self.keys@.len() <= CAP,
                self.keys@.len() == old(self)@.len() + 1,
                i < self.keys@.len(),
                self.keys@.to_multiset() == want,
                forall|j: int| 0 < j < self.keys@.len() && j != i ==> #[trigger] self.keys@[parent(j)] <= self.keys@[j],
                i > 0 ==> forall|c: int|
                    0 < c < self.keys@.len() && parent(c) == i ==> self.keys@[parent(i as int)] <= #[trigger] self.keys@[c],
            ensures
                self.keys@.len() <= CAP,
                self.keys@.len() == old(self)@.len() + 1,
                self.keys@.to_multiset() == want,
                heap_ordered(self.keys@),
            decreases i,
        {
            let p = (i - 1) / 2;
            if self.keys[p] <= self.keys[i] {
                proof {
                    let t = self.keys@;
                    assert forall|j: int| 0 < j < t.len() implies #[trigger] t[parent(j)] <= t[j] by {
                        if j == i as int {
                        }
                    }
                }
                break;
            }
            let ghost s = self.keys@;
            proof {
                lemma_swap_keeps_multiset(s, p as int, i as int);
            }
            self.swap_at(p, i);
            proof {
                let t = self.keys@;
                assert forall|j: int| 0 < j < t.len() && j != p implies #[trigger] t[parent(j)] <= t[j] by {
                    if j == i as int {
                    } else if parent(j) == p as int {
                        assert(s[parent(j)] <= s[j]);
                    } else if parent(j) == i as int {
                    } else if j == p as int {
                    } else {
                        assert(s[parent(j)] <= s[j]);
                    }
                }
                if p > 0 {
                    assert(s[parent(p as int)] <= s[p as int]);
                    assert forall|c: int| 0 < c < t.len() && parent(c) == p implies t[parent(p as int)] <= #[trigger] t[c] by {
                        if c != i as int {
                            assert(s[parent(c)] <= s[c]);
                        }
                    }
                }
            }
            i = p;
        }
    }

    /// Take the smallest key out, or `None` from an empty heap.
    pub fn pop(&mut self) -> (r: Option<u64>)
        requires
            old(self).wf(),
        ensures
            final(self).wf(),
            old(self)@.len() == 0 ==> r is None && final(self)@ == old(self)@,
            old(self)@.len() > 0 ==> r is Some && old(self)@.contains(r->0)
                && (forall|j: int| 0 <= j < old(self)@.len() ==> r->0 <= #[trigger] old(self)@[j])
                && final(self)@.to_multiset() == old(self)@.to_multiset().remove(r->0)
                && final(self)@.len() == old(self)@.len() - 1,
    {
        if self.keys.len() == 0 {
            return None;
        }
        let ghost s0 = self.keys@;
        let top = self.keys[0];
        proof {
            assert forall|j: int| 0 <= j < s0.len() implies top <= #[trigger] s0[j] by {
                lemma_root_is_least(s0, j);
            }
            broadcast use vstd::seq_lib::group_to_multiset_ensures;
            broadcast use vstd::multiset::group_multiset_axioms;
            vstd::seq_lib::to_multiset_remove(s0, 0);
            assert(s0.remove(0).to_multiset() == s0.to_multiset().remove(top));
        }
        let last = self.keys.pop().unwrap();
        if self.keys.len() == 0 {
            proof {
                assert(s0.remove(0) =~= self.keys@);
            }
            return Some(top);
        }
        self.keys.set(0, last);
        proof {
            // The root now holds the old last key, and the rest stand where
            // they stood: the same keys as `s0` without its root.
            let t = self.keys@;
            broadcast use vstd::multiset::group_multiset_axioms;
            let u = s0.update(0, s0.last());
            vstd::seq_lib::to_multiset_update(s0, 0, s0.last());
            vstd::seq_lib::to_multiset_remove(u, u.len() - 1);
            assert(u.remove(u.len() - 1) =~= t);
            assert(t.to_multiset() =~= s0.to_multiset().remove(top));
        }
        let ghost want = self.keys@.to_multiset();
        let n = self.keys.len();
        let mut i: usize = 0;
        loop
            invariant
                n == self.keys@.len(),
                n <= CAP,
                i < n,
                self.keys@.to_multiset() == want,
                forall|j: int| 0 < j < n && parent(j) != i ==> #[trigger] self.keys@[parent(j)] <= self.keys@[j],
                i > 0 ==> forall|c: int| 0 < c < n && parent(c) == i ==> self.keys@[parent(i as int)] <= #[trigger] self.keys@[c],
            ensures
                n == self.keys@.len(),
                self.keys@.to_multiset() == want,
                heap_ordered(self.keys@),
            decreases n - i,
        {
            if i >= n / 2 {
                proof {
                    let t = self.keys@;
                    assert forall|j: int| 0 < j < n implies #[trigger] t[parent(j)] <= t[j] by {
                        if parent(j) == i as int {
                            assert(j >= 2 * i + 1);
                        }
                    }
                }
                break;
            }
            let l = 2 * i + 1;
            let mut m = i;
            if self.keys[l] < self.keys[m] {
                m = l;
            }
            if l < n - 1 {
                let r = l + 1;
                if self.keys[r] < self.keys[m] {
                    m = r;
                }
            }
            if m == i {
                proof {
                    let t = self.keys@;
                    assert forall|j: int| 0 < j < n implies #[trigger] t[parent(j)] <= t[j] by {
                        if parent(j) == i as int {
                            assert(j == l || j == l + 1);
                        }
                    }
                }
                break;
            }
            let ghost s = self.keys@;
            proof {
                lemma_swap_keeps_multiset(s, i as int, m as int);
            }
            self.swap_at(i, m);
            proof {
                let t = self.keys@;
                assert(parent(m as int) == i as int);
                assert forall|j: int| 0 < j < n && parent(j) != m implies #[trigger] t[parent(j)] <= t[j] by {
                    if j == m as int {
                    } else if parent(j) == i as int {
                        assert(j == l || j == l + 1);
                    } else if j == i as int {
                    } else {
                        assert(s[parent(j)] <= s[j]);
                    }
                }
                assert forall|c: int| 0 < c < n && parent(c) == m implies t[parent(m as int)] <= #[trigger] t[c] by {
                    assert(s[parent(c)] <= s[c]);
                }
            }
            i = m;
        }
        Some(top)
    }
}

/// `x` held at `cap`.
pub open spec fn capped(x: u32, cap: u32) -> u64 {
    (if x < cap { x } else { cap }) as u64
}

/// A search key: lower cost first, then lower remaining estimate (nearer
/// the goal), then the lower window index, so equal-cost ties break the
/// same way on every build. Cost and estimate saturate at their fields.
pub fn key(f: u32, h: u32, i: usize) -> (k: u64)
    ensures
        k == (capped(f, 0x3FFF_FFFF) << 34u64) | (capped(h, 0xF_FFFF) << 14u64) | (i as u64),
        (i as int) < 0x4000 ==> k == capped(f, 0x3FFF_FFFF) * 0x4_0000_0000 + capped(h, 0xF_FFFF) * 0x4000 + i,
{
    let fc: u64 = if f < 0x3FFF_FFFF { f as u64 } else { 0x3FFF_FFFF };
    let hc: u64 = if h < 0xF_FFFF { h as u64 } else { 0xF_FFFF };
    let iu = i as u64;
    let k = (fc << 34) | (hc << 14) | iu;
    assert(fc <= 0x3FFF_FFFF && hc <= 0xF_FFFF && iu < 0x4000 ==> k == fc * 0x4_0000_0000 + hc * 0x4000 + iu)
        by (bit_vector)
        requires
            k == (fc << 34) | (hc << 14) | iu,
    ;
    k
}

/// Keys order a frontier by cost, then by the estimate, then by window
/// index: comparing two keys is comparing those three in turn.
pub proof fn law_keys_order_lexicographically(f1: u32, h1: u32, i1: int, f2: u32, h2: u32, i2: int)
    requires
        0 <= i1 < 0x4000,
        0 <= i2 < 0x4000,
    ensures
        ({
            let k1 = capped(f1, 0x3FFF_FFFF) * 0x4_0000_0000 + capped(h1, 0xF_FFFF) * 0x4000 + i1;
            let k2 = capped(f2, 0x3FFF_FFFF) * 0x4_0000_0000 + capped(h2, 0xF_FFFF) * 0x4000 + i2;
            k1 < k2 <==> (capped(f1, 0x3FFF_FFFF) < capped(f2, 0x3FFF_FFFF) || (capped(f1, 0x3FFF_FFFF)
                == capped(f2, 0x3FFF_FFFF) && (capped(h1, 0xF_FFFF) < capped(h2, 0xF_FFFF) || (capped(h1, 0xF_FFFF)
                == capped(h2, 0xF_FFFF) && i1 < i2))))
        }),
{
}

/// Extra cost of stepping onto a beach cell, tenths of a metre.
pub const COST_BEACH: u32 = 12;
/// Extra cost of stepping into shallow water.
pub const COST_WATER: u32 = 40;
/// Extra cost per decimetre climbed.
pub const COST_CLIMB_PER_DM: u32 = 1;
/// A probed cell's flag: beach underfoot.
pub const F_BEACH: u8 = 8;
/// A probed cell's flag: shallow water.
pub const F_WATER: u8 = 64;
/// The parent of a cell reached by no step.
pub const PARENT_NONE: u8 = 8;

/// A window index's place in a search key (its low 14 bits).
pub open spec fn key_index(k: u64) -> int {
    (k % 0x4000) as int
}

/// The search key `key(f, h, i)` for an in-window index.
pub open spec fn key_of(f: u32, h: u32, i: int) -> u64 {
    (capped(f, 0x3FFF_FFFF) * 0x4_0000_0000 + capped(h, 0xF_FFFF) * 0x4000 + i) as u64
}

/// What one search has learnt so far: per window cell its cost from the
/// start, whether it has been seen and closed, and the step it was reached
/// by; the open frontier; the window's origin and width; the best cell
/// reached, its estimate, and the expansions spent.
pub struct SearchModel {
    pub g: Seq<u32>,
    pub seen: Seq<bool>,
    pub closed: Seq<bool>,
    pub parent: Seq<u8>,
    pub frontier: Multiset<u64>,
    pub ox: i32,
    pub oz: i32,
    pub win: nat,
    pub best: int,
    pub best_h: u32,
    pub spent: u32,
}

/// One A* search over a square window of nav cells. The probes (what a
/// cell is, whether a step between two is walkable, how far it climbs)
/// are the terrain's and are handed in; the search bookkeeping is here.
pub struct Search<const CAP: usize> {
    g: Vec<u32>,
    seen: Vec<bool>,
    closed: Vec<bool>,
    parent: Vec<u8>,
    heap: KeyHeap<CAP>,
    ox: i32,
    oz: i32,
    win: usize,
    best: usize,
    best_h: u32,
    spent: u32,
}

impl<const CAP: usize> View for Search<CAP> {
    type V = SearchModel;

    closed spec fn view(&self) -> SearchModel {
        SearchModel {
            g: self.g@,
            seen: self.seen@,
            closed: self.closed@,
            parent: self.parent@,
            frontier: self.heap@.to_multiset(),
            ox: self.ox,
            oz: self.oz,
            win: self.win as nat,
            best: self.best as int,
            best_h: self.best_h,
            spent: self.spent,
        }
    }
}

/// The cost of reaching a neighbour from a cell at cost `g` by step `d`
/// (straight for 0..4, diagonal after), onto a cell probed as `probe`,
/// climbing `rise_dm` decimetres.
pub open spec fn relax_cost(g: u32, d: u8, probe: u8, rise_dm: u32) -> int {
    g + (if d < 4 { COST_STRAIGHT } else { COST_DIAG }) + (if probe & F_BEACH != 0 { COST_BEACH } else { 0u32 })
        + (if probe & F_WATER != 0 { COST_WATER } else { 0u32 }) + rise_dm * COST_CLIMB_PER_DM
}

/// What relaxing the step from cell `i` to neighbour `ni` does to a
/// search: nothing when the neighbour is already closed or the step is
/// not walkable, or when the neighbour was already seen at no greater
/// cost; otherwise the neighbour is seen at the new cost, reached by `d`,
/// and enters the frontier keyed by cost plus its estimate `nh`.
pub open spec fn relaxed(cap: nat, m: SearchModel, i: int, ni: int, d: u8, edge_ok: bool, rise_dm: u32, probe: u8, nh: u32) -> SearchModel {
    let cost = relax_cost(m.g[i], d, probe, rise_dm);
    if m.closed[ni] || !edge_ok || (m.seen[ni] && cost >= m.g[ni]) {
        m
    } else {
        SearchModel {
            g: m.g.update(ni, cost as u32),
            seen: m.seen.update(ni, true),
            parent: m.parent.update(ni, d),
            frontier: if m.frontier.len() < cap {
                m.frontier.insert(key_of((cost + nh) as u32, nh, ni))
            } else {
                m.frontier
            },
            ..m
        }
    }
}

/// A newly seen neighbour is priced by the ground it stands on: the
/// cost a relaxation records is the cost of the cell it steps from, plus
/// 10 for a straight step or 14 for a diagonal one, plus 12 on a beach,
/// plus 40 in water, plus 1 for every decimetre climbed; the neighbour is
/// then seen, reached by that step.
pub proof fn law_a_step_is_priced_by_its_ground(
    cap: nat,
    m: SearchModel,
    i: int,
    ni: int,
    d: u8,
    rise_dm: u32,
    probe: u8,
    nh: u32,
)
    requires
        0 <= i < m.g.len(),
        0 <= ni < m.g.len(),
        ni < m.seen.len(),
        ni < m.closed.len(),
        ni < m.parent.len(),
        !m.closed[ni],
        !m.seen[ni],
        m.g[i] + 14 + 12 + 40 + rise_dm <= u32::MAX,
    ensures
        ({
            let r = relaxed(cap, m, i, ni, d, true, rise_dm, probe, nh);
            &&& r.g[ni] == m.g[i] + (if d < 4 { 10int } else { 14int }) + (if probe & 8u8 != 0 { 12int } else { 0int })
                + (if probe & 64u8 != 0 { 40int } else { 0int }) + rise_dm
            &&& r.seen[ni]
            &&& r.parent[ni] == d
        }),
{
}

/// A beach costs a step exactly 12 more than dry ground, and water 40
/// more: the same step into the same neighbour, priced with and without
/// the flag.
pub proof fn law_sand_and_water_cost_more_than_dry_ground(
    cap: nat,
    m: SearchModel,
    i: int,
    ni: int,
    d: u8,
    rise_dm: u32,
    nh: u32,
)
    requires
        0 <= i < m.g.len(),
        0 <= ni < m.g.len(),
        ni < m.seen.len(),
        ni < m.closed.len(),
        !m.closed[ni],
        !m.seen[ni],
        m.g[i] + 14 + 12 + 40 + rise_dm <= u32::MAX,
    ensures
        relaxed(cap, m, i, ni, d, true, rise_dm, 8u8, nh).g[ni] == relaxed(cap, m, i, ni, d, true, rise_dm, 0u8, nh).g[ni]
            + 12,
        relaxed(cap, m, i, ni, d, true, rise_dm, 64u8, nh).g[ni] == relaxed(cap, m, i, ni, d, true, rise_dm, 0u8, nh).g[ni]
            + 40,
{
    assert(8u8 & 8u8 != 0 && 8u8 & 64u8 == 0 && 0u8 & 8u8 == 0 && 0u8 & 64u8 == 0 && 64u8 & 8u8 == 0 && 64u8 & 64u8 != 0)
        by (bit_vector);
}

impl<const CAP: usize> Search<CAP> {
    /// Index-aligned columns over the window, a bounded ordered frontier of
    /// in-window keys, and an in-window best cell.
    pub closed spec fn wf(&self) -> bool {
        let cells = self.win * self.win;
        &&& 1 <= self.win
        &&& cells <= 0x4000
        &&& self.g@.len() == cells
        &&& self.seen@.len() == cells
        &&& self.closed@.len() == cells
        &&& self.parent@.len() == cells
        &&& self.heap.wf()
        &&& self.heap@.len() <= CAP
        &&& forall|k: u64| #[trigger] self.heap@.to_multiset().count(k) > 0 ==> key_index(k) < cells
        &&& self.best < cells
    }

    /// A fresh search over the `win`-wide window whose low corner is
    /// `(ox, oz)`, from window cell `si` whose estimate to the goal is
    /// `h0`: only the start is seen, at cost 0, nothing is closed, nothing
    /// has a parent, and the start is the frontier and the best so far.
    pub fn start(ox: i32, oz: i32, win: usize, si: usize, h0: u32) -> (s: Self)
        requires
            1 <= win,
            win * win <= 0x4000,
            si < win * win,
        ensures
            s.wf(),
            s@ == (SearchModel {
                g: Seq::new((win * win) as nat, |j: int| 0u32),
                seen: Seq::new((win * win) as nat, |j: int| j == si),
                closed: Seq::new((win * win) as nat, |j: int| false),
                parent: Seq::new((win * win) as nat, |j: int| PARENT_NONE),
                frontier: if CAP > 0 { Multiset::<u64>::empty().insert(key_of(h0, h0, si as int)) } else { Multiset::empty() },
                ox,
                oz,
                win: win as nat,
                best: si as int,
                best_h: h0,
                spent: 0,
            }),
    {
        let cells = win * win;
        let mut g: Vec<u32> = Vec::new();
        let mut seen: Vec<bool> = Vec::new();
        let mut closed: Vec<bool> = Vec::new();
        let mut parent: Vec<u8> = Vec::new();
        let mut j: usize = 0;
        while j < cells
            invariant
                j <= cells,
                g@ == Seq::new(j as nat, |x: int| 0u32),
                seen@ == Seq::new(j as nat, |x: int| x == si),
                closed@ == Seq::new(j as nat, |x: int| false),
                parent@ == Seq::new(j as nat, |x: int| PARENT_NONE),
            decreases cells - j,
        {
            g.push(0);
            seen.push(j == si);
            closed.push(false);
            parent.push(PARENT_NONE);
            j += 1;
            assert(g@ =~= Seq::new(j as nat, |x: int| 0u32));
            assert(seen@ =~= Seq::new(j as nat, |x: int| x == si));
            assert(closed@ =~= Seq::new(j as nat, |x: int| false));
            assert(parent@ =~= Seq::new(j as nat, |x: int| PARENT_NONE));
        }
        let mut heap = KeyHeap::<CAP>::new();
        proof {
            broadcast use vstd::seq_lib::group_to_multiset_ensures;
            broadcast use vstd::multiset::group_multiset_axioms;
            assert(heap@.to_multiset() =~= Multiset::<u64>::empty());
        }
        let k = key(h0, h0, si);
        heap.push(k);
        proof {
            broadcast use vstd::multiset::group_multiset_axioms;
            assert(k == key_of(h0, h0, si as int));
            assert((k as int) % 0x4000 == si) by (nonlinear_arith)
                requires
                    k as int == capped(h0, 0x3FFF_FFFF) * 0x4_0000_0000 + capped(h0, 0xF_FFFF) * 0x4000 + si,
                    0 <= si < 0x4000,
            ;
            if CAP > 0 {
                assert(heap@.to_multiset() =~= Multiset::<u64>::empty().insert(k));
            } else {
                assert(heap@.to_multiset() =~= Multiset::<u64>::empty());
            }
        }
        Search { g, seen, closed, parent, heap, ox, oz, win, best: si, best_h: h0, spent: 0 }
    }

    /// Relax the step from window cell `i` to its neighbour `ni` by step
    /// `d` (straight 0..4, diagonal 4..8): see [`relaxed`]. `edge_ok` is
    /// the terrain's answer to whether the step is walkable, `probe` the
    /// neighbour's probed flags, `rise_dm` how many whole decimetres the
    /// step climbs (0 for level or down), and `nh` the neighbour's octile
    /// estimate to the goal.
    pub fn astar_relax(&mut self, i: usize, ni: usize, d: u8, edge_ok: bool, rise_dm: u32, probe: u8, nh: u32)
        requires
            old(self).wf(),
            i < old(self)@.g.len(),
            ni < old(self)@.g.len(),
            !old(self)@.closed[ni as int] && edge_ok ==> relax_cost(old(self)@.g[i as int], d, probe, rise_dm) <= u32::MAX,
            !old(self)@.closed[ni as int] && edge_ok && !(old(self)@.seen[ni as int] && relax_cost(
                old(self)@.g[i as int],
                d,
                probe,
                rise_dm,
            ) >= old(self)@.g[ni as int]) ==> relax_cost(old(self)@.g[i as int], d, probe, rise_dm) + nh <= u32::MAX,
        ensures
            final(self).wf(),
            final(self)@ == relaxed(CAP as nat, old(self)@, i as int, ni as int, d, edge_ok, rise_dm, probe, nh),
    {
        if self.closed[ni] || !edge_ok {
            return;
        }
        let mut cost = self.g[i] + if d < 4 { COST_STRAIGHT } else { COST_DIAG };
        if probe & F_BEACH != 0 {
            cost = cost + COST_BEACH;
        }
        if probe & F_WATER != 0 {
            cost = cost + COST_WATER;
        }
        cost = cost + rise_dm * COST_CLIMB_PER_DM;
        if self.seen[ni] && cost >= self.g[ni] {
            return;
        }
        let ghost m0 = self@;
        self.seen.set(ni, true);
        self.g.set(ni, cost);
        self.parent.set(ni, d);
        let k = key(cost + nh, nh, ni);
        proof {
            assert((k as int) % 0x4000 == ni) by (nonlinear_arith)
                requires
                    k as int == capped((cost + nh) as u32, 0x3FFF_FFFF) * 0x4_0000_0000 + capped(nh, 0xF_FFFF) * 0x4000 + ni,
                    0 <= ni < 0x4000,
            ;
        }
        self.heap.push(k);
        proof {
            broadcast use vstd::multiset::group_multiset_axioms;
            broadcast use vstd::seq_lib::group_to_multiset_ensures;
            assert(self@ == relaxed(CAP as nat, m0, i as int, ni as int, d, edge_ok, rise_dm, probe, nh));
        }
    }
}

/// `k` is a least key of the frontier `m`.
pub open spec fn is_least(m: Multiset<u64>, k: u64) -> bool {
    m.count(k) > 0 && forall|x: u64| #[trigger] m.count(x) > 0 ==> k <= x
}

pub proof fn lemma_remove_shrinks(m: Multiset<u64>, k: u64)
    requires
        m.count(k) > 0,
    ensures
        m.remove(k).len() == m.len() - 1,
{
    broadcast use vstd::multiset::group_multiset_axioms;
    assert(Multiset::singleton(k).subset_of(m));
}

/// Popping the frontier `m` until a cell not yet closed comes off: that
/// cell's window index, or `None` when the frontier runs dry, and the
/// frontier left. Keys of closed cells are dropped on the way.
pub open spec fn open_from(m: Multiset<u64>, closed: Seq<bool>) -> (Option<int>, Multiset<u64>)
    decreases m.len(),
{
    if exists|k: u64| is_least(m, k) {
        let k = choose|k: u64| is_least(m, k);
        let i = key_index(k);
        proof {
            lemma_remove_shrinks(m, k);
        }
        if 0 <= i < closed.len() && closed[i] {
            open_from(m.remove(k), closed)
        } else {
            (Some(i), m.remove(k))
        }
    } else {
        (None, m)
    }
}

/// What one expansion step of a search found.
#[derive(Clone, Copy, Debug, PartialEq, Eq, Structural)]
pub enum Expand {
    /// The goal came off the frontier: the search is done.
    Goal(usize),
    /// This cell is closed and counted; relax its neighbours next.
    Cell(usize),
    /// The expansion budget is spent: the best cell reached stands.
    Spent,
    /// The frontier ran dry: nothing more in the window reaches the goal.
    Dry,
}

/// The window cell `i`'s global coordinates.
pub open spec fn cell_x(m: SearchModel, i: int) -> int {
    m.ox + i % (m.win as int)
}

pub open spec fn cell_z(m: SearchModel, i: int) -> int {
    m.oz + i / (m.win as int)
}

/// One expansion step of a search toward the goal cell `gi` at global
/// `(gcx, gcz)` with `cap` expansions allowed: the next open cell off the
/// frontier is closed; the goal ends the search; any other cell becomes
/// the best so far when its estimate beats the best's, counts against the
/// budget, and is handed back for its neighbours unless the budget is now
/// spent.
pub open spec fn expand_spec(m: SearchModel, gi: int, gcx: i32, gcz: i32, cap: u32) -> (Expand, SearchModel) {
    let (o, rest) = open_from(m.frontier, m.closed);
    match o {
        None => (Expand::Dry, SearchModel { frontier: rest, ..m }),
        Some(i) => {
            let m1 = SearchModel { frontier: rest, closed: m.closed.update(i, true), ..m };
            if i == gi {
                (Expand::Goal(i as usize), m1)
            } else {
                let h = spec_octile(cell_x(m, i) - gcx, cell_z(m, i) - gcz) as u32;
                let better = h < m.best_h;
                let m2 = SearchModel {
                    best: if better { i } else { m.best },
                    best_h: if better { h } else { m.best_h },
                    spent: (m.spent + 1) as u32,
                    ..m1
                };
                if m.spent + 1 >= cap {
                    (Expand::Spent, m2)
                } else {
                    (Expand::Cell(i as usize), m2)
                }
            }
        },
    }
}

impl<const CAP: usize> Search<CAP> {
    /// The best cell reached so far.
    pub fn best(&self) -> (b: usize)
        ensures
            b == self@.best,
    {
        self.best
    }

    /// Window cell `i`'s cost from the start and the step it was reached by.
    pub fn reached(&self, i: usize) -> (r: (u32, u8))
        requires
            i < self@.g.len(),
            self.wf(),
        ensures
            r == (self@.g[i as int], self@.parent[i as int]),
    {
        (self.g[i], self.parent[i])
    }

    /// One expansion step: see [`expand_spec`].
    pub fn next_open(&mut self, gi: usize, gcx: i32, gcz: i32, cap: u32) -> (r: Expand)
        requires
            old(self).wf(),
            old(self)@.spent < u32::MAX,
            forall|i: int|
                0 <= i < old(self)@.g.len() ==> i32::MIN <= #[trigger] cell_x(old(self)@, i) <= i32::MAX && i32::MIN
                    <= cell_z(old(self)@, i) <= i32::MAX && i32::MIN <= cell_x(old(self)@, i) - gcx <= i32::MAX
                    && i32::MIN <= cell_z(old(self)@, i) - gcz <= i32::MAX && spec_octile(
                    cell_x(old(self)@, i) - gcx,
                    cell_z(old(self)@, i) - gcz,
                ) <= u32::MAX,
        ensures
            final(self).wf(),
            (r, final(self)@) == expand_spec(old(self)@, gi as int, gcx, gcz, cap),
    {
        let ghost m0 = self@;
        let ghost goal = open_from(m0.frontier, m0.closed);
        let cells = self.win * self.win;
        let mut found: Option<usize> = None;
        loop
            invariant_except_break
                found is None,
            invariant
                self.wf(),
                self.win == m0.win,
                self.ox == m0.ox && self.oz == m0.oz,
                self.g@ == m0.g && self.seen@ == m0.seen && self.parent@ == m0.parent && self.closed@ == m0.closed,
                self.best == m0.best && self.best_h == m0.best_h && self.spent == m0.spent,
                cells == self.win * self.win,
                found is None ==> open_from(self.heap@.to_multiset(), self.closed@) == goal,
            ensures
                self.wf(),
                self.win == m0.win,
                self.ox == m0.ox && self.oz == m0.oz,
                self.g@ == m0.g && self.seen@ == m0.seen && self.parent@ == m0.parent && self.closed@ == m0.closed,
                self.best == m0.best && self.best_h == m0.best_h && self.spent == m0.spent,
                match found {
                    None => goal == (None::<int>, self.heap@.to_multiset()),
                    Some(i) => goal == (Some(i as int), self.heap@.to_multiset()) && i < cells,
                },
            decreases self.heap@.len(),
        {
            let ghost s = self.heap@;
            let ghost m = s.to_multiset();
            match self.heap.pop() {
                None => {
                    proof {
                        broadcast use vstd::seq_lib::group_to_multiset_ensures;
                        broadcast use vstd::multiset::group_multiset_axioms;
                        assert(!exists|k: u64| is_least(m, k));
                    }
                    break;
                },
                Some(k) => {
                    let i = (k & 0x3FFF) as usize;
                    proof {
                        broadcast use vstd::seq_lib::group_to_multiset_ensures;
                        broadcast use vstd::multiset::group_multiset_axioms;
                        assert(k & 0x3FFF == k % 0x4000) by (bit_vector);
                        assert(is_least(m, k)) by {
                            assert forall|x: u64| #[trigger] m.count(x) > 0 implies k <= x by {
                                assert(s.contains(x));
                                let j = choose|j: int| 0 <= j < s.len() && s[j] == x;
                                assert(k <= s[j]);
                            }
                        }
                        let c = choose|c: u64| is_least(m, c);
                        assert(c <= k && k <= c);
                        assert(c == k);
                        assert(self.heap@.to_multiset() =~= m.remove(k));
                        assert(forall|x: u64| #[trigger] self.heap@.to_multiset().count(x) > 0 ==> m.count(x) > 0);
                    }
                    if !self.closed[i] {
                        found = Some(i);
                        break;
                    }
                },
            }
        }
        match found {
            None => Expand::Dry,
            Some(i) => {
                self.closed.set(i, true);
                if i == gi {
                    return Expand::Goal(i);
                }
                let lx = i % self.win;
                let lz = i / self.win;
                proof {
                    assert(0 <= i < m0.g.len());
                    assert(i32::MIN <= cell_x(m0, i as int) <= i32::MAX);
                    assert(lx as int == (i as int) % (m0.win as int));
                    assert(lz as int == (i as int) / (m0.win as int));
                    assert(lx < 0x4000 && lz <= 0x4000) by (nonlinear_arith)
                        requires
                            lx == i % self.win,
                            lz == i / self.win,
                            i < self.win * self.win,
                            self.win * self.win <= 0x4000,
                            self.win >= 1,
                    ;
                }
                let cx: i32 = self.ox + lx as i32;
                let cz: i32 = self.oz + lz as i32;
                let h = octile(cx - gcx, cz - gcz);
                if h < self.best_h {
                    self.best = i;
                    self.best_h = h;
                }
                self.spent = self.spent + 1;
                if self.spent >= cap {
                    Expand::Spent
                } else {
                    Expand::Cell(i)
                }
            },
        }
    }
}

} // verus!
