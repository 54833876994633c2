//! Loot — the weighted container roll's tables. A smashed barrel rolls
//! its table into a container standing where it stood; this module holds
//! the baked tables and the questions every caller asks of them first.
use vstd::prelude::*;

use crate::gather::{added_inv, inv_add, inv_add_lost, table_of, GatherContent, ItemStack, NO_ITEM};
use crate::limits::{INV_SLOTS, MAX_ITEM_DEFS, MAX_LOOT_ENTRIES, MAX_LOOT_TABLES};

verus! {

/// Baked table index for `container = "barrel"`.
pub const LOOT_BARREL: usize = 0;
/// Baked table index for `container = "crate"`.
pub const LOOT_CRATE: usize = 1;
/// Baked table index for `container = "cache"`.
pub const LOOT_CACHE: usize = 2;

/// One weighted row. Counts are inclusive bounds.
#[derive(Clone, Copy, Debug)]
pub struct LootEntryDef {
    pub item: u16,
    pub weight: u16,
    pub count_min: u16,
    pub count_max: u16,
}

impl LootEntryDef {
    /// The row that pays nothing.
    pub fn empty() -> (e: Self)
        ensures
            e.item == NO_ITEM,
            e.weight == 0,
            e.count_min == 0,
            e.count_max == 0,
    {
        LootEntryDef { item: NO_ITEM, weight: 0, count_min: 0, count_max: 0 }
    }
}

/// One container archetype's baked table. `len == 0` ⇒ inert.
#[derive(Clone, Copy, Debug)]
pub struct LootTableDef {
    pub entries: [LootEntryDef; MAX_LOOT_ENTRIES],
    /// Sum of `entries[..len].weight`.
    pub total_weight: u32,
    pub len: u16,
    /// Rolls per open, inclusive bounds.
    pub rolls_min: u16,
    pub rolls_max: u16,
    /// Swings to smash the container that holds this table.
    pub hits: u16,
}

impl LootTableDef {
    /// The table that rolls nothing.
    pub fn inert() -> (t: Self)
        ensures
            t.len == 0,
            t.total_weight == 0,
            t.rolls_min == 0,
            t.rolls_max == 0,
            t.hits == 0,
            forall|i: int| 0 <= i < MAX_LOOT_ENTRIES ==> t.entries[i].item == NO_ITEM && t.entries[i].weight == 0,
    {
        LootTableDef {
            entries: [LootEntryDef::empty(); MAX_LOOT_ENTRIES],
            total_weight: 0,
            len: 0,
            rolls_min: 0,
            rolls_max: 0,
            hits: 0,
        }
    }
}

/// Every loot table the sim knows.
#[derive(Clone, Copy, Debug)]
pub struct LootContent {
    pub tables: [LootTableDef; MAX_LOOT_TABLES],
}

/// Whether a table would roll anything at all.
pub open spec fn table_live(t: LootTableDef) -> bool {
    t.len > 0 && t.total_weight > 0 && t.rolls_min > 0
}

/// How many rolls an open of table `t` makes for the roll-count draw `d`:
/// uniform over `rolls_min ..= max(rolls_max, rolls_min)`.
pub open spec fn roll_count(t: LootTableDef, d: u64) -> int {
    let hi = if t.rolls_max >= t.rolls_min { t.rolls_max } else { t.rolls_min };
    t.rolls_min + d as int % (hi - t.rolls_min + 1)
}

/// The weights of the first `k` rows.
pub open spec fn weight_prefix(t: LootTableDef, k: int) -> int
    decreases k,
{
    if k <= 0 { 0 } else { weight_prefix(t, k - 1) + t.entries[k - 1].weight }
}

/// The first row from `i` on whose running weight passes `target`: the
/// row a weighted pick of `target` lands on.
pub open spec fn row_from(t: LootTableDef, target: int, i: int) -> Option<int>
    decreases t.len - i,
{
    if i < 0 || i >= t.len {
        None
    } else if weight_prefix(t, i + 1) > target {
        Some(i)
    } else {
        row_from(t, target, i + 1)
    }
}

/// Where a 64-bit pick draw lands on the table's total weight:
/// multiply-shift on its high half, so no row is favoured by a modulo.
pub open spec fn pick_target(t: LootTableDef, pick: u64) -> int {
    (pick as int / 0x1_0000_0000) * t.total_weight as int / 0x1_0000_0000
}

/// One roll, number `n`, into `(out, written)`: its pick draw chooses the
/// row and its count draw how many (uniform over the row's bounds); the
/// units go into `out` by [`inv_add`] at the item's stack ceiling and full
/// condition, and `written` counts what went in, saturating. A roll that
/// lands on no row, on an inert row or on an item that cannot stack pays
/// nothing.
pub open spec fn one_roll(
    t: LootTableDef,
    gc: GatherContent,
    draws: Seq<u64>,
    n: int,
    out: Seq<ItemStack>,
    written: int,
) -> (Seq<ItemStack>, int) {
    match row_from(t, pick_target(t, draws[2 * n + 1]), 0) {
        None => (out, written),
        Some(r) => {
            let e = t.entries[r];
            let cap = table_of(gc.stack_max@, e.item);
            if e.item == NO_ITEM || e.item as int >= MAX_ITEM_DEFS || cap == 0 {
                (out, written)
            } else {
                let hi = if e.count_max >= e.count_min { e.count_max } else { e.count_min };
                let count = (e.count_min + draws[2 * n + 2] as int % (hi - e.count_min + 1)) as u16;
                let got = count - inv_add_lost(out, e.item, count, cap);
                (
                    added_inv(out, e.item, count, cap, table_of(gc.cond_max@, e.item)),
                    if written + got > u16::MAX { u16::MAX as int } else { written + got },
                )
            }
        },
    }
}

/// The container and the units written after the first `k` rolls.
pub open spec fn rolled(t: LootTableDef, gc: GatherContent, draws: Seq<u64>, k: int, out: Seq<ItemStack>) -> (
    Seq<ItemStack>,
    int,
)
    decreases k,
{
    if k <= 0 {
        (out, 0)
    } else {
        let before = rolled(t, gc, draws, k - 1, out);
        one_roll(t, gc, draws, k - 1, before.0, before.1)
    }
}

/// What adding a stack does slot by slot: an empty slot that fills takes
/// the item at condition `cond`; a slot that held a stack keeps its item
/// and condition and does not shrink.
proof fn lemma_added_conditions(inv: Seq<ItemStack>, item: u16, amount: u16, cap: u16, cond: u16)
    ensures
        added_inv(inv, item, amount, cap, cond).len() == inv.len(),
        forall|j: int|
            0 <= j < inv.len() ==> {
                let n = #[trigger] added_inv(inv, item, amount, cap, cond)[j];
                &&& (inv[j].count == 0 && n.count > 0 ==> n.item == item && n.cond == cond)
                &&& (inv[j].count > 0 ==> n.item == inv[j].item && n.cond == inv[j].cond && n.count >= inv[j].count)
            },
{
    assert forall|j: int| 0 <= j < inv.len() implies {
        let n = #[trigger] added_inv(inv, item, amount, cap, cond)[j];
        &&& (inv[j].count == 0 && n.count > 0 ==> n.item == item && n.cond == cond)
        &&& (inv[j].count > 0 ==> n.item == inv[j].item && n.cond == inv[j].cond && n.count >= inv[j].count)
    } by {
        assert(added_inv(inv, item, amount, cap, cond)[j] == crate::gather::added_slot(inv, item, amount, cap, cond, j));
    }
}

/// Looted items arrive whole: after any number of rolls, every slot that
/// was empty and now holds a stack holds it at its item's full condition
/// (`cond_max`), and every slot that already held a stack keeps its item
/// and its own condition.
pub proof fn law_looted_items_arrive_whole(t: LootTableDef, gc: GatherContent, draws: Seq<u64>, k: int, out: Seq<ItemStack>)
    ensures
        rolled(t, gc, draws, k, out).0.len() == out.len(),
        forall|j: int|
            0 <= j < out.len() ==> {
                let r = #[trigger] rolled(t, gc, draws, k, out).0[j];
                &&& (out[j].count == 0 && r.count > 0 ==> r.cond == table_of(gc.cond_max@, r.item))
                &&& (out[j].count > 0 ==> r.item == out[j].item && r.cond == out[j].cond && r.count > 0)
            },
    decreases k,
{
    if k > 0 {
        law_looted_items_arrive_whole(t, gc, draws, k - 1, out);
        let before = rolled(t, gc, draws, k - 1, out);
        let o = before.0;
        let n = k - 1;
        match row_from(t, pick_target(t, draws[2 * n + 1]), 0) {
            None => {},
            Some(r) => {
                let e = t.entries[r];
                let cap = table_of(gc.stack_max@, e.item);
                if e.item == NO_ITEM || e.item as int >= MAX_ITEM_DEFS || cap == 0 {
                } else {
                    let hi = if e.count_max >= e.count_min { e.count_max } else { e.count_min };
                    let count = (e.count_min + draws[2 * n + 2] as int % (hi - e.count_min + 1)) as u16;
                    let cm = table_of(gc.cond_max@, e.item);
                    lemma_added_conditions(o, e.item, count, cap, cm);
                    let after = added_inv(o, e.item, count, cap, cm);
                    assert(rolled(t, gc, draws, k, out).0 == after);
                    assert forall|j: int| 0 <= j < out.len() implies {
                        let x = #[trigger] rolled(t, gc, draws, k, out).0[j];
                        &&& (out[j].count == 0 && x.count > 0 ==> x.cond == table_of(gc.cond_max@, x.item))
                        &&& (out[j].count > 0 ==> x.item == out[j].item && x.cond == out[j].cond && x.count > 0)
                    } by {
                        assert(rolled(t, gc, draws, k - 1, out).0[j] == o[j]);
                        assert(after[j] == added_inv(o, e.item, count, cap, cm)[j]);
                    }
                }
            },
        }
    }
}

/// An open rolls at least the table's minimum and at most its maximum
/// (the minimum again where the maximum is below it), and a draw one
/// step further along the band rolls one more, up to the top.
pub proof fn law_the_roll_count_stays_in_its_band(t: LootTableDef, d: u64)
    ensures
        t.rolls_min <= roll_count(t, d) <= (if t.rolls_max >= t.rolls_min { t.rolls_max } else { t.rolls_min }),
        t.rolls_max > t.rolls_min && d < t.rolls_max - t.rolls_min ==> roll_count(t, d) == t.rolls_min + d,
{
    if t.rolls_max > t.rolls_min && d < t.rolls_max - t.rolls_min {
        vstd::arithmetic::div_mod::lemma_small_mod(d as nat, (t.rolls_max - t.rolls_min + 1) as nat);
    }
}

proof fn lemma_row_from(t: LootTableDef, target: int, i: int)
    requires
        0 <= i,
        0 <= target,
        i == 0 || weight_prefix(t, i) <= target,
    ensures
        match row_from(t, target, i) {
            Some(r) => i <= r < t.len && weight_prefix(t, r) <= target < weight_prefix(t, r + 1),
            None => i < t.len ==> weight_prefix(t, t.len as int) <= target,
        },
    decreases t.len - i,
{
    if i < t.len {
        if weight_prefix(t, i + 1) <= target {
            lemma_row_from(t, target, i + 1);
        }
    }
}

/// A weighted pick lands on the row whose band of the running weight
/// holds it: row `r` is picked for `target` exactly when the rows before
/// it weigh no more than `target` and the rows through it weigh more.
pub proof fn law_a_pick_lands_in_its_rows_weight_band(t: LootTableDef, target: int, r: int)
    requires
        0 <= target,
        0 <= r < t.len,
    ensures
        row_from(t, target, 0) == Some(r) <==> (weight_prefix(t, r) <= target < weight_prefix(t, r + 1)),
{
    lemma_row_from(t, target, 0);
    if weight_prefix(t, r) <= target < weight_prefix(t, r + 1) {
        match row_from(t, target, 0) {
            Some(q) => {
                if q < r {
                    lemma_prefix_monotone(t, q + 1, r);
                } else if q > r {
                    lemma_prefix_monotone(t, r + 1, q);
                }
            },
            None => {
                lemma_prefix_monotone(t, r + 1, t.len as int);
            },
        }
    }
}

proof fn lemma_prefix_monotone(t: LootTableDef, a: int, b: int)
    requires
        0 <= a <= b,
    ensures
        weight_prefix(t, a) <= weight_prefix(t, b),
    decreases b - a,
{
    if a < b {
        lemma_prefix_monotone(t, a, b - 1);
    }
}

proof fn lemma_weight_prefix_bounds(t: LootTableDef, k: int)
    requires
        0 <= k <= MAX_LOOT_ENTRIES,
    ensures
        0 <= weight_prefix(t, k) <= k * 0xFFFF,
    decreases k,
{
    if k > 0 {
        lemma_weight_prefix_bounds(t, k - 1);
    }
}

impl LootContent {
    /// Inert: every container rolls nothing.
    pub fn empty() -> (c: Self)
        ensures
            forall|i: int| 0 <= i < MAX_LOOT_TABLES ==> !table_live(#[trigger] c.tables[i]) && c.tables[i].hits == 0,
    {
        LootContent { tables: [LootTableDef::inert(); MAX_LOOT_TABLES] }
    }

    /// The table for a container index, or `None` when the index is past
    /// the store or the table is inert.
    pub fn table(&self, which: usize) -> (r: Option<&LootTableDef>)
        ensures
            match r {
                None => which >= MAX_LOOT_TABLES || !table_live(self.tables[which as int]),
                Some(t) => which < MAX_LOOT_TABLES && table_live(self.tables[which as int]) && *t
                    == self.tables[which as int],
            },
    {
        if which >= MAX_LOOT_TABLES {
            return None;
        }
        let t = &self.tables[which];
        if t.len > 0 && t.total_weight > 0 && t.rolls_min > 0 {
            Some(t)
        } else {
            None
        }
    }

    /// Swings to smash the container holding table `which`; 0 when the
    /// table is inert (the caller reads that as "not smashable").
    pub fn hits(&self, which: usize) -> (h: u16)
        ensures
            h == (if which < MAX_LOOT_TABLES && table_live(self.tables[which as int]) {
                self.tables[which as int].hits
            } else {
                0
            }),
    {
        match self.table(which) {
            None => 0,
            Some(t) => t.hits,
        }
    }

    /// Roll table `which` into `out`, returning the units written — zero
    /// when the table is inert or nothing fit. The draws are the roll's
    /// random words, in order: `draws[0]` sets how many rolls, and roll `n`
    /// takes `draws[2n + 1]` for its row and `draws[2n + 2]` for its count.
    pub fn roll_into(&self, which: usize, gc: &GatherContent, draws: &[u64], out: &mut [ItemStack; INV_SLOTS]) -> (written: u16)
        requires
            which < MAX_LOOT_TABLES && table_live(self.tables[which as int]) ==> {
                let t = self.tables[which as int];
                &&& t.len <= MAX_LOOT_ENTRIES
                &&& draws@.len() >= 1
                &&& draws@.len() >= 1 + 2 * roll_count(t, draws@[0])
            },
        ensures
            if which < MAX_LOOT_TABLES && table_live(self.tables[which as int]) {
                let t = self.tables[which as int];
                let r = rolled(t, *gc, draws@, roll_count(t, draws@[0]), old(out)@);
                &&& final(out)@ == r.0
                &&& written as int == r.1
            } else {
                &&& final(out)@ == old(out)@
                &&& written == 0
            },
    {
        let t = match self.table(which) {
            None => return 0,
            Some(t) => t,
        };
        let hi = if t.rolls_max >= t.rolls_min { t.rolls_max } else { t.rolls_min };
        let span = (hi - t.rolls_min) as u64 + 1;
        let rolls = t.rolls_min as u64 + draws[0] % span;
        let ghost o0 = out@;
        let mut written: u16 = 0;
        let mut n: u64 = 0;
        while n < rolls
            invariant
                n <= rolls,
                rolls == roll_count(*t, draws@[0]),
                draws@.len() >= 1 + 2 * rolls,
                t.len <= MAX_LOOT_ENTRIES,
                ({
                    let r = rolled(*t, *gc, draws@, n as int, o0);
                    &&& out@ == r.0
                    &&& written as int == r.1
                }),
            decreases rolls - n,
        {
            let ghost (o1, w1) = (out@, written as int);
            let pick = draws[(2 * n + 1) as usize];
            let hi32 = pick >> 32;
            assert(hi32 == pick / 0x1_0000_0000 && hi32 < 0x1_0000_0000) by (bit_vector)
                requires
                    hi32 == pick >> 32,
            ;
            let tw = t.total_weight as u64;
            assert(hi32 * tw < 0x1_0000_0000 * 0x1_0000_0000) by (nonlinear_arith)
                requires
                    hi32 < 0x1_0000_0000,
                    tw < 0x1_0000_0000,
            ;
            let prod = hi32 * tw;
            let t64 = prod >> 32;
            assert(t64 == prod / 0x1_0000_0000 && t64 < 0x1_0000_0000) by (bit_vector)
                requires
                    t64 == prod >> 32,
            ;
            let target = t64 as u32;
            assert(target == pick_target(*t, pick));
            let mut acc: u32 = 0;
            let mut row: Option<usize> = None;
            let mut i: usize = 0;
            while i < t.len as usize
                invariant_except_break
                    acc as int == weight_prefix(*t, i as int),
                    row is None,
                    row_from(*t, target as int, 0) == row_from(*t, target as int, i as int),
                invariant
                    i <= t.len,
                    t.len <= MAX_LOOT_ENTRIES,
                ensures
                    row matches Some(r) ==> r < t.len,
                    row_from(*t, target as int, 0) == match row {
                        Some(r) => Some(r as int),
                        None => None::<int>,
                    },
                decreases t.len - i,
            {
                proof {
                    lemma_weight_prefix_bounds(*t, i as int + 1);
                }
                acc += t.entries[i].weight as u32;
                if acc > target {
                    row = Some(i);
                    break;
                }
                i += 1;
            }
            match row {
                None => {},
                Some(r) => {
                    let e = t.entries[r];
                    let cap = gc.stack_max_of(e.item);
                    if e.item != NO_ITEM && (e.item as usize) < MAX_ITEM_DEFS && cap != 0 {
                        let chi = if e.count_max >= e.count_min { e.count_max } else { e.count_min };
                        let cspan = (chi - e.count_min) as u64 + 1;
                        let count = (e.count_min as u64 + draws[(2 * n + 2) as usize] % cspan) as u16;
                        let got = inv_add(out, e.item, count, cap, gc.cond_max_of(e.item));
                        written = written.saturating_add(got);
                        proof {
                            assert(out@ =~= added_inv(o1, e.item, count, cap, table_of(gc.cond_max@, e.item)));
                        }
                    }
                },
            }
            n += 1;
        }
        written
    }

    /// Synthetic table for the parity, replay and allocation gates: a
    /// barrel of two rows over items 0 (weight 3, 2..=5) and 1 (weight 1,
    /// exactly 1), one or two rolls, two swings to smash.
    pub fn probe_fixture() -> (c: Self)
        ensures
            ({
                let t = c.tables[LOOT_BARREL as int];
                &&& t.len == 2
                &&& t.total_weight == 4
                &&& t.rolls_min == 1
                &&& t.rolls_max == 2
                &&& t.hits == 2
                &&& t.entries[0].item == 0 && t.entries[0].weight == 3
                &&& t.entries[0].count_min == 2 && t.entries[0].count_max == 5
                &&& t.entries[1].item == 1 && t.entries[1].weight == 1
                &&& t.entries[1].count_min == 1 && t.entries[1].count_max == 1
            }),
            forall|i: int| 1 <= i < MAX_LOOT_TABLES ==> !table_live(#[trigger] c.tables[i]) && c.tables[i].hits == 0,
    {
        let mut c = Self::empty();
        let mut t = LootTableDef::inert();
        t.entries[0] = LootEntryDef { item: 0, weight: 3, count_min: 2, count_max: 5 };
        t.entries[1] = LootEntryDef { item: 1, weight: 1, count_min: 1, count_max: 1 };
        t.len = 2;
        t.total_weight = 4;
        t.rolls_min = 1;
        t.rolls_max = 2;
        t.hits = 2;
        c.tables[LOOT_BARREL] = t;
        c
    }
}

} // verus!
