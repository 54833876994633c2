//! Loose items lying on the ground — what a smashed container leaves
//! behind. A record is one stack at rest: an address in the body's
//! quanta, what it is, and when it goes. The store is dense and
//! swap-removed; ids are minted monotonic from 1 and never reused.
use vstd::prelude::*;

use crate::gather::{added_slot, inv_add_lost, inv_add_spilling, table_of, GatherContent, ItemStack};
use crate::limits::{INV_SLOTS, MAX_GROUND_ITEMS};
use crate::lock::swap_removed;
use crate::movement::POS_XZ_Q_CM;
use crate::world::{Event, EventQueue, Player, EV_GATHER};

verus! {

/// The arm every world interaction shares, centimetres: a loose stack
/// farther than this from a body cannot be taken by it.
pub const LOOT_REACH_CM: i64 = 500;

/// One stack at rest.
#[derive(Clone, Copy, Debug, PartialEq, Eq, Structural)]
pub struct GroundItemRec {
    /// Shard-unique, monotonic from 1. Zero is "no item".
    pub id: u32,
    pub qx: i32,
    pub qy: i32,
    pub qz: i32,
    pub stack: ItemStack,
    /// Tick at which it despawns.
    pub expires: u64,
}

impl Default for GroundItemRec {
    fn default() -> (r: Self)
        ensures
            r == (GroundItemRec { id: 0, qx: 0, qy: 0, qz: 0, stack: ItemStack::spec_blank(), expires: 0 }),
    {
        GroundItemRec { id: 0, qx: 0, qy: 0, qz: 0, stack: ItemStack { item: 0, count: 0, cond: 0 }, expires: 0 }
    }
}

/// Every loose stack on the island.
pub struct GroundItems {
    entries: Vec<GroundItemRec>,
    next_id: u32,
}

impl View for GroundItems {
    type V = Seq<GroundItemRec>;

    closed spec fn view(&self) -> Seq<GroundItemRec> {
        self.entries@
    }
}

/// Squared planar distance from a stack to a body, in position quanta.
pub open spec fn quanta_d2(e: GroundItemRec, p: Player) -> int {
    (e.qx - p.body.qx) * (e.qx - p.body.qx) + (e.qz - p.body.qz) * (e.qz - p.body.qz)
}

/// Whether a stack lies within arm's reach of a body, planar.
pub open spec fn spec_in_reach(e: GroundItemRec, p: Player) -> bool {
    POS_XZ_Q_CM * POS_XZ_Q_CM * quanta_d2(e, p) <= LOOT_REACH_CM * LOOT_REACH_CM
}

/// Record `i` is the nearest stack in reach, ties to the lower index.
pub open spec fn is_nearest(s: Seq<GroundItemRec>, p: Player, i: int) -> bool {
    &&& 0 <= i < s.len()
    &&& spec_in_reach(s[i], p)
    &&& forall|j: int| 0 <= j < s.len() && spec_in_reach(#[trigger] s[j], p) ==> quanta_d2(s[i], p) <= quanta_d2(s[j], p)
    &&& forall|j: int| 0 <= j < i && spec_in_reach(#[trigger] s[j], p) ==> quanta_d2(s[i], p) < quanta_d2(s[j], p)
}

/// Ids on the ground are live handles: none is 0, no two records share
/// one, and each was minted before `next_id` (unless the counter has
/// saturated).
pub open spec fn ids_unique(s: Seq<GroundItemRec>, next_id: u32) -> bool {
    &&& forall|i: int| 0 <= i < s.len() ==> (#[trigger] s[i]).id != 0 && (s[i].id < next_id || next_id == u32::MAX)
    &&& forall|i: int, j: int| 0 <= i < j < s.len() ==> (#[trigger] s[i]).id != (#[trigger] s[j]).id
}

/// A swap-remove keeps the ids unique.
proof fn lemma_swap_removed_ids(s: Seq<GroundItemRec>, next_id: u32, i: int)
    requires
        ids_unique(s, next_id),
        0 <= i < s.len(),
    ensures
        ids_unique(swap_removed(s, i), next_id),
        forall|j: int| 0 <= j < swap_removed(s, i).len() ==> (#[trigger] swap_removed(s, i)[j]).id != s[i].id,
{
    let t = swap_removed(s, i);
    let last = s.len() - 1;
    assert forall|a: int| 0 <= a < t.len() implies (#[trigger] t[a]) == s[if a == i { last } else { a }] by {}
    assert forall|a: int, b: int| 0 <= a < b < t.len() implies (#[trigger] t[a]).id != (#[trigger] t[b]).id by {
        let sa = if a == i { last } else { a };
        let sb = if b == i { last } else { b };
        assert(t[a] == s[sa] && t[b] == s[sb]);
        if sa < sb {
            assert(s[sa].id != s[sb].id);
        } else {
            assert(s[sb].id != s[sa].id);
        }
    }
    assert forall|a: int| 0 <= a < t.len() implies (#[trigger] t[a]).id != s[i].id by {
        let sa = if a == i { last } else { a };
        assert(t[a] == s[sa]);
        if sa < i {
            assert(s[sa].id != s[i].id);
        } else {
            assert(s[i].id != s[sa].id);
        }
    }
}

/// The store after the expiry sweep has passed index `i`: a record whose
/// timer ran out is swapped out for the last and the same index looked at
/// again; a live one is stepped over.
pub open spec fn expire_from(s: Seq<GroundItemRec>, tick: u64, i: int) -> Seq<GroundItemRec>
    decreases s.len() - i,
{
    if i < 0 || i >= s.len() {
        s
    } else if s[i].expires <= tick {
        expire_from(swap_removed(s, i), tick, i)
    } else {
        expire_from(s, tick, i + 1)
    }
}

/// A swap-remove takes exactly the removed record out of the multiset.
pub proof fn lemma_swap_removed_multiset(s: Seq<GroundItemRec>, i: int)
    requires
        0 <= i < s.len(),
    ensures
        swap_removed(s, i).to_multiset() == s.to_multiset().remove(s[i]),
        swap_removed(s, i).len() == s.len() - 1,
{
    broadcast use vstd::seq_lib::group_to_multiset_ensures;
    broadcast use vstd::multiset::group_multiset_axioms;

    let u = s.update(i, s.last());
    vstd::seq_lib::to_multiset_update(s, i, s.last());
    vstd::seq_lib::to_multiset_remove(u, u.len() - 1);
    assert(u.drop_last() =~= u.remove(u.len() - 1));
    assert(u[u.len() - 1] == s.last());
    assert(swap_removed(s, i).to_multiset() =~= s.to_multiset().remove(s[i]));
}

/// The expiry sweep keeps every live stack as many times as it was there,
/// and nothing whose timer ran out.
pub proof fn lemma_expire_keeps_the_live(s: Seq<GroundItemRec>, tick: u64, i: int, x: GroundItemRec)
    requires
        0 <= i <= s.len(),
        forall|j: int| 0 <= j < i ==> (#[trigger] s[j]).expires > tick,
    ensures
        expire_from(s, tick, i).to_multiset().count(x) == (if x.expires > tick { s.to_multiset().count(x) } else { 0 }),
        forall|k: int| 0 <= k < expire_from(s, tick, i).len() ==> (#[trigger] expire_from(s, tick, i)[k]).expires > tick,
    decreases s.len() - i,
{
    broadcast use vstd::seq_lib::group_to_multiset_ensures;
    broadcast use vstd::multiset::group_multiset_axioms;

    if i >= s.len() {
        if x.expires <= tick && s.to_multiset().count(x) > 0 {
            assert(s.contains(x));
            let k = choose|k: int| 0 <= k < s.len() && s[k] == x;
            assert(s[k].expires > tick);
        }
    } else if s[i].expires <= tick {
        let t = swap_removed(s, i);
        lemma_swap_removed_multiset(s, i);
        assert forall|j: int| 0 <= j < i implies (#[trigger] t[j]).expires > tick by {
            assert(t[j] == s[j]);
        }
        lemma_expire_keeps_the_live(t, tick, i, x);
    } else {
        lemma_expire_keeps_the_live(s, tick, i + 1, x);
    }
}

proof fn lemma_square_bounded(d: i128)
    requires
        -0x1_0000_0000 <= d <= 0x1_0000_0000,
    ensures
        0 <= d * d <= 0x1_0000_0000_0000_0000,
{
    assert(0 <= d * d <= 0x1_0000_0000_0000_0000) by (nonlinear_arith)
        requires
            -0x1_0000_0000 <= d <= 0x1_0000_0000,
    ;
}

impl GroundItems {
    /// The store's shape: within its cap, its ids unique and minted.
    pub closed spec fn wf(&self) -> bool {
        &&& self.entries@.len() <= MAX_GROUND_ITEMS
        &&& ids_unique(self.entries@, self.next_id)
    }

    /// Ids are never reused: a well-formed store's ids are nonzero,
    /// distinct and below the next id it will mint.
    pub proof fn law_ids_are_never_reused(&self)
        requires
            self.wf(),
        ensures
            ids_unique(self@, self.spec_next_id()),
    {
    }

    /// The next id the store will mint.
    pub closed spec fn spec_next_id(&self) -> u32 {
        self.next_id
    }

    pub fn new() -> (g: Self)
        ensures
            g.wf(),
            g@ == Seq::<GroundItemRec>::empty(),
            g.spec_next_id() == 1,
    {
        GroundItems { entries: Vec::new(), next_id: 1 }
    }

    pub fn len(&self) -> (n: usize)
        ensures
            n == self@.len(),
    {
        self.entries.len()
    }

    pub fn is_empty(&self) -> (b: bool)
        ensures
            b == (self@.len() == 0),
    {
        self.entries.len() == 0
    }

    /// The live records, dense from 0.
    pub fn entries(&self) -> (s: &[GroundItemRec])
        ensures
            s@ == self@,
    {
        self.entries.as_slice()
    }

    /// The next id this store will mint.
    pub fn next_id(&self) -> (n: u32)
        ensures
            n == self.spec_next_id(),
    {
        self.next_id
    }

    /// Where the item with this id sits: the first record carrying it, or
    /// `None` for id 0 and for an id no record carries.
    pub fn index_of_id(&self, id: u32) -> (r: Option<usize>)
        ensures
            r is None ==> id == 0 || forall|j: int| 0 <= j < self@.len() ==> (#[trigger] self@[j]).id != id,
            r is Some ==> id != 0 && r->0 < self@.len() && self@[r->0 as int].id == id
                && forall|j: int| 0 <= j < r->0 ==> (#[trigger] self@[j]).id != id,
    {
        if id == 0 {
            return None;
        }
        let mut i: usize = 0;
        while i < self.entries.len()
            invariant
                i <= self.entries@.len(),
                self@ == self.entries@,
                id != 0,
                forall|j: int| 0 <= j < i ==> (#[trigger] self.entries@[j]).id != id,
            decreases self.entries@.len() - i,
        {
            if self.entries[i].id == id {
                return Some(i);
            }
            i += 1;
        }
        None
    }

    /// Drop record `i`, swap-removing so the store stays dense; a no-op
    /// past the end.
    fn remove(&mut self, i: usize)
        requires
            old(self).wf(),
        ensures
            final(self).wf(),
            final(self).spec_next_id() == old(self).spec_next_id(),
            i < old(self)@.len() ==> final(self)@ == swap_removed(old(self)@, i as int),
            i >= old(self)@.len() ==> final(self)@ == old(self)@,
    {
        if i >= self.entries.len() {
            return;
        }
        proof {
            lemma_swap_removed_ids(self.entries@, self.next_id, i as int);
        }
        self.entries.swap_remove(i);
        assert(self.entries@ =~= swap_removed(old(self)@, i as int));
    }

    /// Retire every stack whose timer ran out. Returns how many went.
    pub fn expire_due(&mut self, tick: u64) -> (gone: usize)
        requires
            old(self).wf(),
        ensures
            final(self).wf(),
            final(self).spec_next_id() == old(self).spec_next_id(),
            final(self)@ == expire_from(old(self)@, tick, 0),
            gone == old(self)@.len() - final(self)@.len(),
    {
        let mut gone: usize = 0;
        let mut i: usize = 0;
        while i < self.entries.len()
            invariant
                self.wf(),
                old(self).wf(),
                self.spec_next_id() == old(self).spec_next_id(),
                i <= self.entries@.len(),
                expire_from(self@, tick, i as int) == expire_from(old(self)@, tick, 0),
                gone + self@.len() == old(self)@.len(),
            decreases self.entries@.len() - i,
        {
            if self.entries[i].expires <= tick {
                self.remove(i);
                gone += 1;
            } else {
                i += 1;
            }
        }
        gone
    }

    /// Whether record `i` lies within arm's reach of `p`.
    pub fn in_reach(&self, i: usize, p: &Player) -> (b: bool)
        ensures
            b == (i < self@.len() && spec_in_reach(self@[i as int], *p)),
    {
        if i >= self.entries.len() {
            return false;
        }
        let d2 = self.d2_to(i, p);
        9 * d2 <= 250_000
    }

    /// The squared planar distance from record `i` to `p`, in quanta.
    fn d2_to(&self, i: usize, p: &Player) -> (d: i128)
        requires
            i < self@.len(),
        ensures
            d as int == quanta_d2(self@[i as int], *p),
            0 <= d <= 0x2_0000_0000_0000_0000,
    {
        let e = &self.entries[i];
        let dx: i128 = e.qx as i128 - p.body.qx as i128;
        let dz: i128 = e.qz as i128 - p.body.qz as i128;
        proof {
            lemma_square_bounded(dx);
            lemma_square_bounded(dz);
        }
        dx * dx + dz * dz
    }

    /// The nearest loose stack within reach of `p`, ties to the lower
    /// index, or `None` when nothing is in reach.
    pub fn nearest(&self, p: &Player) -> (r: Option<usize>)
        ensures
            match r {
                None => forall|j: int| 0 <= j < self@.len() ==> !spec_in_reach(#[trigger] self@[j], *p),
                Some(i) => is_nearest(self@, *p, i as int),
            },
    {
        let mut best: Option<usize> = None;
        let mut best_d2: i128 = 0;
        let mut i: usize = 0;
        while i < self.entries.len()
            invariant
                i <= self@.len(),
                self@.len() == self.entries@.len(),
                match best {
                    None => forall|j: int| 0 <= j < i ==> !spec_in_reach(#[trigger] self@[j], *p),
                    Some(b) => b < i && best_d2 as int == quanta_d2(self@[b as int], *p) && spec_in_reach(self@[b as int], *p)
                        && (forall|j: int| 0 <= j < i && spec_in_reach(#[trigger] self@[j], *p) ==> best_d2 <= quanta_d2(self@[j], *p))
                        && (forall|j: int| 0 <= j < b && spec_in_reach(#[trigger] self@[j], *p) ==> best_d2 < quanta_d2(self@[j], *p)),
                },
            decreases self@.len() - i,
        {
            if self.in_reach(i, p) {
                let d2 = self.d2_to(i, p);
                match best {
                    Some(_) => {
                        if d2 < best_d2 {
                            best = Some(i);
                            best_d2 = d2;
                        }
                    },
                    None => {
                        best = Some(i);
                        best_d2 = d2;
                    },
                }
            }
            i += 1;
        }
        best
    }

    /// Take the nearest loose stack in reach into `p`'s hands; what will
    /// not fit goes into `spill`, so the whole stack leaves the ground —
    /// except when nothing moved anywhere (a ceiling of zero), which leaves
    /// the record lying. Announces the take and returns the taken id.
    pub fn take_nearest(
        &mut self,
        gc: &GatherContent,
        p: &mut Player,
        spill: &mut [ItemStack; INV_SLOTS],
        events: &mut EventQueue,
    ) -> (r: Option<u32>)
        requires
            old(self).wf(),
        ensures
            final(self).wf(),
            final(self).spec_next_id() == old(self).spec_next_id(),
            *final(p) == (Player { inv: final(p).inv, ..*old(p) }),
            match r {
                None => final(self)@ == old(self)@ && final(events)@ == old(events)@,
                Some(id) => (exists|i: int| #[trigger] is_nearest(old(self)@, *old(p), i)
                    && id == old(self)@[i].id && final(self)@ == swap_removed(old(self)@, i))
                    && forall|j: int| 0 <= j < final(self)@.len() ==> (#[trigger] final(self)@[j]).id != id,
            },
            forall|i: int| #[trigger] is_nearest(old(self)@, *old(p), i) ==> {
                let st = old(self)@[i].stack;
                let cap = table_of(gc.stack_max@, st.item);
                let took = st.count - inv_add_lost(old(p).inv@, st.item, st.count, cap);
                &&& forall|k: int| 0 <= k < INV_SLOTS ==> #[trigger] final(p).inv@[k] == added_slot(old(p).inv@, st.item, st.count, cap, st.cond, k)
                &&& forall|k: int| 0 <= k < INV_SLOTS ==> #[trigger] final(spill)@[k] == (if took < st.count {
                    added_slot(old(spill)@, st.item, (st.count - took) as u16, cap, st.cond, k)
                } else {
                    old(spill)@[k]
                })
                &&& (r is Some <==> (took > 0 || exists|k: int| 0 <= k < INV_SLOTS && (#[trigger] final(spill)@[k]).count != 0))
                &&& r is Some ==> final(events)@ == old(events)@.push(
                    Event { code: EV_GATHER, a: old(p).id, b: ((st.item as u32) << 16u32) | (took as u32), c: 0 },
                )
            },
            (forall|j: int| 0 <= j < old(self)@.len() ==> !spec_in_reach(#[trigger] old(self)@[j], *old(p)))
                ==> r is None && final(p).inv == old(p).inv && *final(spill) == *old(spill),
    {
        let i = match self.nearest(p) {
            Some(i) => i,
            None => return None,
        };
        proof {
            assert forall|j: int| #[trigger] is_nearest(old(self)@, *old(p), j) implies j == i as int by {
                if j < i as int {
                    assert(spec_in_reach(self@[j], *p));
                } else if j > i as int {
                    assert(spec_in_reach(self@[i as int], *p));
                }
            }
        }
        let rec = self.entries[i];
        let cap = gc.stack_max_of(rec.stack.item);
        let took = inv_add_spilling(&mut p.inv, spill, rec.stack.item, rec.stack.count, cap, rec.stack.cond);
        let mut any = false;
        let mut k: usize = 0;
        while k < INV_SLOTS
            invariant
                k <= INV_SLOTS,
                any <==> exists|j: int| 0 <= j < k && (#[trigger] spill@[j]).count != 0,
            decreases INV_SLOTS - k,
        {
            if spill[k].count != 0 {
                any = true;
            }
            k += 1;
        }
        if took == 0 && !any {
            return None;
        }
        events.push(EV_GATHER, p.id, ((rec.stack.item as u32) << 16) | took as u32, 0);
        proof {
            lemma_swap_removed_ids(self.entries@, self.next_id, i as int);
        }
        self.remove(i);
        Some(rec.id)
    }

    /// Install a record verbatim (a save loader's door). Refused when the
    /// store is full, the id is 0 or already lies on the ground (ids are
    /// never reused), or the stack is empty; the minted-id counter moves
    /// past every id installed.
    pub fn restore(&mut self, rec: GroundItemRec) -> (ok: bool)
        requires
            old(self).wf(),
        ensures
            final(self).wf(),
            ok == (old(self)@.len() < MAX_GROUND_ITEMS && rec.id != 0 && rec.stack.count != 0
                && forall|j: int| 0 <= j < old(self)@.len() ==> (#[trigger] old(self)@[j]).id != rec.id),
            ok ==> final(self)@ == old(self)@.push(rec),
            !ok ==> final(self)@ == old(self)@ && final(self).spec_next_id() == old(self).spec_next_id(),
            ok ==> final(self).spec_next_id() == (if rec.id >= old(self).spec_next_id() {
                if rec.id < u32::MAX { (rec.id + 1) as u32 } else { u32::MAX }
            } else {
                old(self).spec_next_id()
            }),
    {
        if self.entries.len() >= MAX_GROUND_ITEMS || rec.id == 0 || rec.stack.count == 0 {
            return false;
        }
        if self.index_of_id(rec.id).is_some() {
            return false;
        }
        let ghost s0 = self.entries@;
        let n0 = self.next_id;
        self.entries.push(rec);
        if rec.id >= self.next_id {
            self.next_id = rec.id.saturating_add(1);
        }
        assert forall|i: int| 0 <= i < self.entries@.len() implies (#[trigger] self.entries@[i]).id != 0
            && (self.entries@[i].id < self.next_id || self.next_id == u32::MAX) by {
            if i < s0.len() {
                assert(self.entries@[i] == s0[i]);
                assert(s0[i].id < n0 || n0 == u32::MAX);
            }
        }
        assert forall|a: int, b: int| 0 <= a < b < self.entries@.len() implies (#[trigger] self.entries@[a]).id
            != (#[trigger] self.entries@[b]).id by {
            assert(self.entries@[a] == s0[a]);
            if b < s0.len() {
                assert(self.entries@[b] == s0[b]);
            }
        }
        true
    }
}

impl Default for GroundItems {
    fn default() -> (g: Self)
        ensures
            g.wf(),
            g@ == Seq::<GroundItemRec>::empty(),
            g.spec_next_id() == 1,
    {
        GroundItems::new()
    }
}

} // verus!
