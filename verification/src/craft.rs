//! Counting what a hand holds: the question every cost check asks before
//! a price is taken.
use vstd::prelude::*;

use crate::gather::{min_int, sat, ItemStack};
use crate::limits::INV_SLOTS;

verus! {

/// Units of `item` in the first `k` slots of an inventory.
pub open spec fn count_in(inv: Seq<ItemStack>, item: u16, k: int) -> int
    decreases k,
{
    if k <= 0 {
        0
    } else {
        count_in(inv, item, k - 1) + (if inv[k - 1].count > 0 && inv[k - 1].item == item {
            inv[k - 1].count as int
        } else {
            0
        })
    }
}

pub proof fn lemma_count_in_bounds(inv: Seq<ItemStack>, item: u16, k: int)
    requires
        0 <= k,
    ensures
        0 <= count_in(inv, item, k) <= k * 65535,
    decreases k,
{
    if k > 0 {
        lemma_count_in_bounds(inv, item, k - 1);
    }
}

/// Units of `item` an inventory holds, across every slot.
pub fn inv_count(inv: &[ItemStack; INV_SLOTS], item: u16) -> (n: u32)
    ensures
        n as int == count_in(inv@, item, INV_SLOTS as int),
{
    let mut n: u32 = 0;
    let mut i: usize = 0;
    while i < INV_SLOTS
        invariant
            i <= INV_SLOTS,
            n as int == count_in(inv@, item, i as int),
        decreases INV_SLOTS - i,
    {
        proof {
            lemma_count_in_bounds(inv@, item, i as int);
        }
        let s = inv[i];
        if s.count > 0 && s.item == item {
            n = n + s.count as u32;
        }
        i += 1;
    }
    n
}

/// Slot `k` after taking `n` of `item` from the front of the inventory:
/// the units still owed when the scan reaches it come out of it, and a
/// slot emptied to nothing is cleared.
pub open spec fn take_at(inv: Seq<ItemStack>, item: u16, n: int, k: int) -> ItemStack {
    let s = inv[k];
    if s.count > 0 && s.item == item {
        let t = min_int(sat(n - count_in(inv, item, k)), s.count as int);
        if t == s.count {
            ItemStack::spec_blank()
        } else {
            ItemStack { count: (s.count - t) as u16, ..s }
        }
    } else {
        s
    }
}

/// The whole inventory after taking `n` of `item` from its front.
pub open spec fn taken(inv: Seq<ItemStack>, item: u16, n: int) -> Seq<ItemStack> {
    Seq::new(inv.len(), |k: int| take_at(inv, item, n, k))
}

/// Taking never makes units of `item` appear, takes exactly what the hand
/// had up to the ask, and leaves every other item's count alone.
pub proof fn lemma_take_counts(inv: Seq<ItemStack>, item: u16, n: int, other: u16, k: int)
    requires
        n >= 0,
        0 <= k <= inv.len(),
        other != item,
    ensures
        count_in(taken(inv, item, n), item, k) == count_in(inv, item, k) - min_int(n, count_in(inv, item, k)),
        count_in(taken(inv, item, n), other, k) == count_in(inv, other, k),
    decreases k,
{
    if k > 0 {
        lemma_take_counts(inv, item, n, other, k - 1);
        lemma_count_in_bounds(inv, item, k - 1);
    }
}

/// Taking nothing leaves the inventory as it was.
pub proof fn lemma_take_nothing(inv: Seq<ItemStack>, item: u16)
    ensures
        taken(inv, item, 0) == inv,
{
    assert forall|k: int| 0 <= k < inv.len() implies take_at(inv, item, 0, k) == inv[k] by {
        lemma_count_in_bounds(inv, item, k);
    }
    assert(taken(inv, item, 0) =~= inv);
}

/// Take up to `n` of `item` from the front of the inventory. Returns what
/// was taken: all of `n` when the hand held that many.
pub fn inv_take(inv: &mut [ItemStack; INV_SLOTS], item: u16, n: u32) -> (took: u32)
    ensures
        took as int == min_int(n as int, count_in(old(inv)@, item, INV_SLOTS as int)),
        final(inv)@ == taken(old(inv)@, item, n as int),
{
    let ghost inv0 = inv@;
    let mut left: u32 = n;
    let mut k: usize = 0;
    while k < INV_SLOTS
        invariant
            k <= INV_SLOTS,
            inv@.len() == INV_SLOTS,
            inv0.len() == INV_SLOTS,
            left <= n,
            left as int == n - min_int(n as int, count_in(inv0, item, k as int)),
            forall|j: int| 0 <= j < k ==> inv@[j] == take_at(inv0, item, n as int, j),
            forall|j: int| k <= j < INV_SLOTS ==> inv@[j] == inv0[j],
        decreases INV_SLOTS - k,
    {
        proof {
            lemma_count_in_bounds(inv0, item, k as int);
        }
        let s = inv[k];
        if s.count > 0 && s.item == item && left > 0 {
            let t: u16 = if (s.count as u32) <= left { s.count } else { left as u16 };
            if t == s.count {
                inv[k] = ItemStack { item: 0, count: 0, cond: 0 };
            } else {
                inv[k] = ItemStack { count: s.count - t, ..s };
            }
            left = left - t as u32;
        }
        k += 1;
    }
    assert(inv@ =~= taken(inv0, item, n as int));
    n - left
}

} // verus!
