//! Gather — the first survival verb. A swing at a standing scatter slot
//! pays yield into the swinger's inventory; enough hits exhaust the slot
//! until a jittered respawn. This module holds the item stack, the adder
//! every payout goes through, the per-archetype node rules and the
//! "one bit + one timer per slot" store.
use vstd::prelude::*;

use crate::limits::{INV_SLOTS, MAX_ITEM_DEFS, MAX_LOOT_TABLES, MAX_SLOT_LIVES};
use crate::loot::{table_live, LootContent, LOOT_BARREL};
use crate::input::BTN_PRIMARY;
use crate::world::{
    Event, EventQueue, Player, EV_GATHER, EV_GATHER_REFUSED, EV_IMPACT, EV_SLOT_HARVESTED, EV_SLOT_RESPAWNED,
    EV_SWING, EV_WEAK_MARK,
};

verus! {

/// Sentinel: no item. Doubles as the bare-hand "held item".
pub const NO_ITEM: u16 = 65535;

/// Why a gather swing was refused: the tool pays nothing here.
pub const REFUSE_G_TOOL: u32 = 1;
/// The held tool is dead (condition zero with a nonzero ceiling).
pub const REFUSE_G_BROKEN: u32 = 2;
pub const REFUSE_G_MAX: u32 = REFUSE_G_BROKEN;

/// Gatherable occupant kinds: Tree, StoneNode, MetalNode, SulfurNode, Bush.
pub const GATHERABLE_KINDS: usize = 5;
/// Tool rows one node archetype can carry.
pub const MAX_TOOLS_PER_NODE: usize = 8;
/// Ticks between swings while the primary button is held.
pub const SWING_INTERVAL_TICKS: u64 = 38;
/// Budget one unmarked swing spends against a node's pool.
pub const HIT_UNIT: u32 = 100;
/// Node respawn window in ticks.
pub const RESPAWN_MIN_TICKS: u64 = 36_000;
pub const RESPAWN_RANGE_TICKS: u64 = 45_000;

/// One inventory slot. Empty ⇔ `count == 0`; emptied slots zero all three
/// fields. `cond` is the stack's condition in hundredths of a point.
#[derive(Clone, Copy, Debug, PartialEq, Eq, Structural)]
pub struct ItemStack {
    pub item: u16,
    pub count: u16,
    pub cond: u16,
}

impl ItemStack {
    /// The canonical empty slot.
    pub open spec fn spec_blank() -> ItemStack {
        ItemStack { item: 0, count: 0, cond: 0 }
    }
}

impl Default for ItemStack {
    fn default() -> (s: Self)
        ensures
            s == ItemStack::spec_blank(),
    {
        ItemStack { item: 0, count: 0, cond: 0 }
    }
}

/// One gatherable archetype's baked rules. `output == NO_ITEM` ⇒ inert.
#[derive(Clone, Copy, Debug)]
pub struct NodeDef {
    /// Item index this node yields.
    pub output: u16,
    /// Unmarked swings to exhaust the node.
    pub hits: u16,
    /// Units per bare-hand swing.
    pub hand_yield: u16,
    /// Extra budget a marked swing consumes, %.
    pub weak_pct: u16,
    /// Share of the node's payout withheld for the finishing swing, %.
    pub finish_pct: u16,
    /// (item index, units per swing) rows; `(NO_ITEM, 0)` = empty row.
    pub tools: [(u16, u16); MAX_TOOLS_PER_NODE],
    /// (item index, condition loss per landed hit) rows.
    pub wear: [(u16, u16); MAX_TOOLS_PER_NODE],
    /// A second, flat payout: `(item, units per swing)`.
    pub secondary: (u16, u16),
}

/// The value of the first row of `rows` keyed by `key`, or `fallback` when
/// no row is (or `key` is the bare hand).
pub open spec fn row_lookup(rows: Seq<(u16, u16)>, key: u16, fallback: u16) -> u16
    decreases rows.len(),
{
    if key == NO_ITEM || rows.len() == 0 {
        fallback
    } else if rows[0].0 == key {
        rows[0].1
    } else {
        row_lookup(rows.drop_first(), key, fallback)
    }
}

fn lookup(rows: &[(u16, u16); MAX_TOOLS_PER_NODE], key: u16, fallback: u16) -> (r: u16)
    ensures
        r == row_lookup(rows@, key, fallback),
{
    if key == NO_ITEM {
        return fallback;
    }
    let mut i: usize = 0;
    assert(rows@.skip(0) =~= rows@);
    while i < MAX_TOOLS_PER_NODE
        invariant
            i <= MAX_TOOLS_PER_NODE,
            key != NO_ITEM,
            row_lookup(rows@, key, fallback) == row_lookup(rows@.skip(i as int), key, fallback),
        decreases MAX_TOOLS_PER_NODE - i,
    {
        assert(rows@.skip(i as int).drop_first() =~= rows@.skip(i as int + 1));
        if rows[i].0 == key {
            return rows[i].1;
        }
        i += 1;
    }
    assert(rows@.skip(MAX_TOOLS_PER_NODE as int).len() == 0);
    fallback
}

impl NodeDef {
    pub fn inert() -> (d: Self)
        ensures
            d.output == NO_ITEM,
            d.hits == 0,
            d.hand_yield == 0,
            d.weak_pct == 0,
            d.finish_pct == 0,
            forall|i: int| 0 <= i < MAX_TOOLS_PER_NODE ==> d.tools[i] == (NO_ITEM, 0u16),
            forall|i: int| 0 <= i < MAX_TOOLS_PER_NODE ==> d.wear[i] == (NO_ITEM, 0u16),
            d.secondary == (NO_ITEM, 0u16),
    {
        NodeDef {
            output: NO_ITEM,
            hits: 0,
            hand_yield: 0,
            weak_pct: 0,
            finish_pct: 0,
            tools: [(NO_ITEM, 0); MAX_TOOLS_PER_NODE],
            wear: [(NO_ITEM, 0); MAX_TOOLS_PER_NODE],
            secondary: (NO_ITEM, 0),
        }
    }

    /// Units this node pays per swing of `held`: its tool row, or the hand
    /// row when the held item has none.
    pub fn yield_for(&self, held: u16) -> (r: u16)
        ensures
            r == row_lookup(self.tools@, held, self.hand_yield),
    {
        lookup(&self.tools, held, self.hand_yield)
    }

    /// Condition one landed hit of `held` costs, hundredths of a point;
    /// zero for a bare hand and for a tool with no wear row here.
    pub fn wear_for(&self, held: u16) -> (r: u16)
        ensures
            r == row_lookup(self.wear@, held, 0),
    {
        lookup(&self.wear, held, 0)
    }
}

/// The whole gather ruleset: per-archetype node rules plus per-item stack,
/// condition and burn ceilings.
#[derive(Clone, Copy, Debug)]
pub struct GatherContent {
    /// Indexed by `Occupant as usize - 1` (Tree..Bush).
    pub nodes: [NodeDef; GATHERABLE_KINDS],
    pub stack_max: [u16; MAX_ITEM_DEFS],
    /// Maximum condition per item, hundredths of a point; 0 = never wears.
    pub cond_max: [u16; MAX_ITEM_DEFS],
    /// Condition a held, lit light burns, hundredths of a point a minute;
    /// 0 = not a light.
    pub light_burn: [u16; MAX_ITEM_DEFS],
    pub item_count: u16,
}

/// Whether `d` is the fixture row `(output, hits, hand, weak %, finish %,
/// tool, tool yield, tool wear)`: one tool row (none for `NO_ITEM`), every
/// other row empty.
pub open spec fn fixture_row(
    d: NodeDef,
    out: u16,
    hits: u16,
    hand: u16,
    weak: u16,
    finish: u16,
    tool: u16,
    per: u16,
    wear: u16,
) -> bool {
    &&& d.output == out
    &&& d.hits == hits
    &&& d.hand_yield == hand
    &&& d.weak_pct == weak
    &&& d.finish_pct == finish
    &&& d.tools[0] == (if tool != NO_ITEM { (tool, per) } else { (NO_ITEM, 0u16) })
    &&& d.wear[0] == (if tool != NO_ITEM { (tool, wear) } else { (NO_ITEM, 0u16) })
    &&& forall|k: int| 1 <= k < MAX_TOOLS_PER_NODE ==> d.tools[k] == (NO_ITEM, 0u16)
    &&& forall|k: int| 1 <= k < MAX_TOOLS_PER_NODE ==> d.wear[k] == (NO_ITEM, 0u16)
}

fn fixture_node(
    out: u16,
    hits: u16,
    hand: u16,
    weak: u16,
    finish: u16,
    tool: u16,
    per: u16,
    wear: u16,
) -> (d: NodeDef)
    ensures
        fixture_row(d, out, hits, hand, weak, finish, tool, per, wear),
        d.secondary == (NO_ITEM, 0u16),
{
    let mut d = NodeDef::inert();
    d.output = out;
    d.hits = hits;
    d.hand_yield = hand;
    d.weak_pct = weak;
    d.finish_pct = finish;
    if tool != NO_ITEM {
        d.tools[0] = (tool, per);
        d.wear[0] = (tool, wear);
    }
    d
}

/// A per-item table read at any `u16`: past the table reads as zero.
pub open spec fn table_of(t: Seq<u16>, item: u16) -> u16 {
    if (item as int) < MAX_ITEM_DEFS { t[item as int] } else { 0 }
}

impl GatherContent {
    /// Inert: nothing is gatherable, nothing stacks.
    pub fn empty() -> (c: Self)
        ensures
            c.item_count == 0,
            forall|i: int| 0 <= i < MAX_ITEM_DEFS ==> c.stack_max[i] == 0,
            forall|i: int| 0 <= i < MAX_ITEM_DEFS ==> c.cond_max[i] == 0,
            forall|i: int| 0 <= i < MAX_ITEM_DEFS ==> c.light_burn[i] == 0,
            forall|k: int| 0 <= k < GATHERABLE_KINDS ==> c.nodes[k].output == NO_ITEM,
    {
        let n = NodeDef::inert();
        GatherContent {
            nodes: [n; GATHERABLE_KINDS],
            stack_max: [0; MAX_ITEM_DEFS],
            cond_max: [0; MAX_ITEM_DEFS],
            light_burn: [0; MAX_ITEM_DEFS],
            item_count: 0,
        }
    }

    /// Synthetic table for the parity, replay and allocation gates: eleven
    /// items stacking to 100, items 0 and 1 doubling as tools that carry
    /// condition (400 and 300), item 0 a light burning 600 hundredths a
    /// minute, and five node rows whose finish shares and wear rates differ
    /// from each other so a transposed column cannot hide.
    pub fn probe_fixture() -> (c: Self)
        ensures
            c.item_count == 11,
            forall|i: int| 0 <= i < 11 ==> c.stack_max[i] == 100,
            forall|i: int| 11 <= i < MAX_ITEM_DEFS ==> c.stack_max[i] == 0,
            c.cond_max[0] == 400,
            c.cond_max[1] == 300,
            forall|i: int| 2 <= i < MAX_ITEM_DEFS ==> c.cond_max[i] == 0,
            c.light_burn[0] == 600,
            forall|i: int| 1 <= i < MAX_ITEM_DEFS ==> c.light_burn[i] == 0,
            fixture_row(c.nodes[0], 0, 4, 7, 100, 0, 1, 13, 7),
            fixture_row(c.nodes[1], 1, 5, 6, 50, 40, 0, 11, 5),
            fixture_row(c.nodes[2], 2, 6, 3, 25, 0, 0, 9, 3),
            fixture_row(c.nodes[3], 3, 6, 3, 75, 10, 1, 9, 2),
            fixture_row(c.nodes[4], 4, 1, 10, 0, 0, NO_ITEM, 0, 0),
            c.nodes[4].secondary == (0u16, 3u16),
            forall|k: int| 0 <= k < 4 ==> c.nodes[k].secondary == (NO_ITEM, 0u16),
    {
        let mut c = Self::empty();
        c.item_count = 11;
        let mut i: usize = 0;
        while i < 11
            invariant
                i <= 11,
                c.item_count == 11,
                forall|j: int| 0 <= j < i ==> c.stack_max[j] == 100,
                forall|j: int| 11 <= j < MAX_ITEM_DEFS ==> c.stack_max[j] == 0,
                forall|j: int| 0 <= j < MAX_ITEM_DEFS ==> c.cond_max[j] == 0,
                forall|j: int| 0 <= j < MAX_ITEM_DEFS ==> c.light_burn[j] == 0,
                forall|k: int| 0 <= k < GATHERABLE_KINDS ==> c.nodes[k].output == NO_ITEM,
            decreases 11 - i,
        {
            c.stack_max[i] = 100;
            i += 1;
        }
        c.cond_max[0] = 400;
        c.cond_max[1] = 300;
        c.light_burn[0] = 600;
        c.nodes[0] = fixture_node(0, 4, 7, 100, 0, 1, 13, 7);
        c.nodes[1] = fixture_node(1, 5, 6, 50, 40, 0, 11, 5);
        c.nodes[2] = fixture_node(2, 6, 3, 25, 0, 0, 9, 3);
        c.nodes[3] = fixture_node(3, 6, 3, 75, 10, 1, 9, 2);
        c.nodes[4] = fixture_node(4, 1, 10, 0, 0, NO_ITEM, 0, 0);
        c.nodes[4].secondary = (0, 3);
        c
    }

    /// The stack ceiling for an item, total over every `u16`.
    pub fn stack_max_of(&self, item: u16) -> (r: u16)
        ensures
            r == table_of(self.stack_max@, item),
    {
        if (item as usize) < MAX_ITEM_DEFS {
            self.stack_max[item as usize]
        } else {
            0
        }
    }

    /// The condition ceiling for an item, total over every `u16`.
    pub fn cond_max_of(&self, item: u16) -> (r: u16)
        ensures
            r == table_of(self.cond_max@, item),
    {
        if (item as usize) < MAX_ITEM_DEFS {
            self.cond_max[item as usize]
        } else {
            0
        }
    }

    /// The burn rate of a light, total over every `u16`.
    pub fn light_burn_of(&self, item: u16) -> (r: u16)
        ensures
            r == table_of(self.light_burn@, item),
    {
        if (item as usize) < MAX_ITEM_DEFS {
            self.light_burn[item as usize]
        } else {
            0
        }
    }
}

/// `x`, floored at zero.
pub open spec fn sat(x: int) -> int {
    if x > 0 { x } else { 0 }
}

pub open spec fn min_int(a: int, b: int) -> int {
    if a < b { a } else { b }
}

/// The room slot `s` offers for topping up `item` under ceiling `cap`.
pub open spec fn topup_room(s: ItemStack, item: u16, cap: u16) -> int {
    if s.count > 0 && s.item == item && s.count < cap { cap - s.count } else { 0 }
}

/// Top-up room offered by the slots before `k`.
pub open spec fn room_before(inv: Seq<ItemStack>, item: u16, cap: u16, k: int) -> int
    decreases k,
{
    if k <= 0 { 0 } else { room_before(inv, item, cap, k - 1) + topup_room(inv[k - 1], item, cap) }
}

/// Empty slots before `k`.
pub open spec fn empties_before(inv: Seq<ItemStack>, k: int) -> int
    decreases k,
{
    if k <= 0 { 0 } else { empties_before(inv, k - 1) + (if inv[k - 1].count == 0 { 1int } else { 0 }) }
}

proof fn lemma_room_before_nonneg(inv: Seq<ItemStack>, item: u16, cap: u16, k: int)
    ensures
        room_before(inv, item, cap, k) >= 0,
    decreases k,
{
    if k > 0 {
        lemma_room_before_nonneg(inv, item, cap, k - 1);
    }
}

proof fn lemma_empties_before_nonneg(inv: Seq<ItemStack>, k: int)
    ensures
        empties_before(inv, k) >= 0,
    decreases k,
{
    if k > 0 {
        lemma_empties_before_nonneg(inv, k - 1);
    }
}

/// What is still owed once every matching stack has been topped up.
pub open spec fn left_after_topup(inv: Seq<ItemStack>, item: u16, amount: u16, cap: u16) -> int {
    sat(amount - room_before(inv, item, cap, inv.len() as int))
}

/// Slot `k` after [`inv_add`]: matching stacks are topped up in slot order,
/// then empty slots are filled in slot order, each with at most `cap`;
/// every other slot keeps what it held.
pub open spec fn added_slot(
    inv: Seq<ItemStack>,
    item: u16,
    amount: u16,
    cap: u16,
    cond: u16,
    k: int,
) -> ItemStack {
    let s = inv[k];
    if cap == 0 {
        s
    } else if s.count > 0 {
        if s.item == item && s.count < cap {
            ItemStack {
                item: s.item,
                count: (s.count + min_int(cap - s.count, sat(amount - room_before(inv, item, cap, k)))) as u16,
                cond: s.cond,
            }
        } else {
            s
        }
    } else {
        let owed = sat(left_after_topup(inv, item, amount, cap) - cap * empties_before(inv, k));
        if owed > 0 {
            ItemStack { item, count: min_int(cap as int, owed) as u16, cond }
        } else {
            s
        }
    }
}

/// The part of `amount` that [`inv_add`] could not place.
pub open spec fn inv_add_lost(inv: Seq<ItemStack>, item: u16, amount: u16, cap: u16) -> int {
    if cap == 0 {
        amount as int
    } else {
        sat(left_after_topup(inv, item, amount, cap) - cap * empties_before(inv, inv.len() as int))
    }
}

/// "This hand is chasing no weak spot."
pub const NO_CELL: u32 = u32::MAX;

/// What a swing did, for the caller that owns the stores gather does not.
#[derive(Clone, Copy, Debug, PartialEq, Eq, Structural)]
pub enum Swing {
    /// No swing this tick, or a node absorbed it: the arm is not free.
    Absorbed,
    /// A swing was taken and nothing absorbed it: the arm is still moving.
    Free,
    /// A swing was aimed at a node that refused it (a tool it pays nothing
    /// for, a dead tool among them): the arm is free for flesh, never for
    /// structure.
    Refused,
    /// A barrel came apart at this slot.
    Smashed { cx: u16, cz: u16, qx: i32, qy: i32, qz: i32 },
}

/// The swing cadence: with the primary button down and the cooldown
/// spent, the swing is taken — the next one is a swing interval away, and
/// the arm's movement is announced whatever it goes on to find. Returns
/// whether a swing was taken.
pub fn swing_gate(tick: u64, p: &mut Player, events: &mut EventQueue) -> (swung: bool)
    requires
        tick <= u64::MAX - SWING_INTERVAL_TICKS,
    ensures
        swung == (old(p).frame.buttons & BTN_PRIMARY != 0 && tick >= old(p).next_swing),
        swung ==> *final(p) == (Player { next_swing: (tick + SWING_INTERVAL_TICKS) as u64, ..*old(p) })
            && final(events)@ == old(events)@.push(Event { code: EV_SWING, a: old(p).id, b: 0, c: 0 }),
        !swung ==> *final(p) == *old(p) && final(events)@ == old(events)@,
{
    if p.frame.buttons & BTN_PRIMARY == 0 || tick < p.next_swing {
        return false;
    }
    p.next_swing = tick + SWING_INTERVAL_TICKS;
    events.push(EV_SWING, p.id, 0, 0);
    true
}

/// A node's whole payout for a tool paying `full` a swing.
pub open spec fn node_total(full: u16, hits: u16) -> int {
    full as int * hits as int
}

/// The part of a node's payout paid along the way; the rest is the
/// finisher's.
pub open spec fn node_pool(full: u16, hits: u16, finish_pct: u16) -> int {
    node_total(full, hits) * (100 - finish_pct) / 100
}

/// What one landed swing is owed: its share of the pool as the difference
/// of two cumulative floors over the budget spent before and after it,
/// plus the finisher's share on the swing that exhausts the node.
pub open spec fn pay_raw(full: u16, hits: u16, finish_pct: u16, before: int, after: int, exhausted: bool) -> int {
    let budget = hits as int * HIT_UNIT as int;
    let pool = node_pool(full, hits, finish_pct);
    sat(pool * after / budget - pool * before / budget) + (if exhausted {
        node_total(full, hits) - node_pool(full, hits, finish_pct)
    } else {
        0
    })
}

/// What one landed swing pays, held to a stack's count.
pub fn swing_pay(full: u16, hits: u16, finish_pct: u16, before: u32, after: u32, exhausted: bool) -> (pay: u16)
    requires
        hits > 0,
        finish_pct <= 100,
        after <= hits as int * HIT_UNIT,
    ensures
        pay as int == min_int(pay_raw(full, hits, finish_pct, before as int, after as int, exhausted), u16::MAX as int),
{
    assert(full as u64 * hits as u64 <= 65535 * 65535) by (nonlinear_arith);
    let total: u64 = full as u64 * hits as u64;
    assert(total * (100 - finish_pct as u64) <= 65535 * 65535 * 100) by (nonlinear_arith)
        requires
            total <= 65535 * 65535,
            finish_pct <= 100,
    ;
    let pool: u64 = total * (100 - finish_pct as u64) / 100;
    let budget: u64 = hits as u64 * HIT_UNIT as u64;
    proof {
        assert(total * (100 - finish_pct as u64) <= total * 100) by (nonlinear_arith)
            requires
                finish_pct <= 100,
        ;
        assert(pool <= total) by (nonlinear_arith)
            requires
                pool == total * (100 - finish_pct as u64) / 100,
                total * (100 - finish_pct as u64) <= total * 100,
        ;
        assert(pool * after <= 65535 * 65535 * 0xFFFF_FFFF) by (nonlinear_arith)
            requires
                pool <= 65535 * 65535,
                after <= 0xFFFF_FFFF,
        ;
        assert(pool * before <= 65535 * 65535 * 0xFFFF_FFFF) by (nonlinear_arith)
            requires
                pool <= 65535 * 65535,
                before <= 0xFFFF_FFFF,
        ;
    }
    let a = pool * after as u64 / budget;
    let b = pool * before as u64 / budget;
    let mut pay: u64 = if a >= b { a - b } else { 0 };
    if exhausted {
        pay = pay + (total - pool);
    }
    if pay < u16::MAX as u64 {
        pay as u16
    } else {
        u16::MAX
    }
}

/// The pay of every swing along a life of spent budgets `s`, up to swing
/// `k`: swing `j` takes the budget from `s[j]` to `s[j + 1]`, and the one
/// that reaches the whole budget is the finisher.
pub open spec fn paid_through(full: u16, hits: u16, finish_pct: u16, s: Seq<int>, k: int) -> int
    decreases k,
{
    if k <= 0 {
        0
    } else {
        paid_through(full, hits, finish_pct, s, k - 1) + pay_raw(
            full,
            hits,
            finish_pct,
            s[k - 1],
            s[k],
            s[k] >= hits as int * HIT_UNIT as int,
        )
    }
}

proof fn lemma_paid_prefix(full: u16, hits: u16, finish_pct: u16, s: Seq<int>, k: int)
    requires
        hits > 0,
        finish_pct <= 100,
        s.len() >= 2,
        s[0] == 0,
        forall|j: int| 0 <= j < s.len() - 1 ==> #[trigger] s[j] < s[j + 1],
        s[s.len() - 1] == hits as int * HIT_UNIT as int,
        0 <= k < s.len() - 1,
    ensures
        paid_through(full, hits, finish_pct, s, k) == node_pool(full, hits, finish_pct) * s[k] / (hits as int * HIT_UNIT as int),
        0 <= s[k] < hits as int * HIT_UNIT as int,
    decreases k,
{
    let budget = hits as int * HIT_UNIT as int;
    let pool = node_pool(full, hits, finish_pct);
    assert(pool >= 0) by (nonlinear_arith)
        requires
            pool == full as int * hits as int * (100 - finish_pct) / 100,
            finish_pct <= 100,
    ;
    lemma_spent_below_budget(s, k, budget);
    if k > 0 {
        lemma_paid_prefix(full, hits, finish_pct, s, k - 1);
        let a = s[k - 1];
        let b = s[k];
        assert(a < b);
        assert(pool * a <= pool * b) by (nonlinear_arith)
            requires
                a <= b,
                pool >= 0,
        ;
        vstd::arithmetic::div_mod::lemma_div_is_ordered(pool * a, pool * b, budget);
        assert(s[k] < budget);
        assert(pay_raw(full, hits, finish_pct, a, b, false) == pool * b / budget - pool * a / budget);
        assert(paid_through(full, hits, finish_pct, s, k) == paid_through(full, hits, finish_pct, s, k - 1)
            + pay_raw(full, hits, finish_pct, a, b, b >= budget));
    } else {
        assert(pool * s[0] == 0);
    }
}

proof fn lemma_spent_below_budget(s: Seq<int>, k: int, budget: int)
    requires
        s.len() >= 2,
        s[0] == 0,
        forall|j: int| 0 <= j < s.len() - 1 ==> #[trigger] s[j] < s[j + 1],
        s[s.len() - 1] == budget,
        0 <= k < s.len() - 1,
    ensures
        0 <= s[k] < budget,
{
    lemma_increasing(s, 0, k);
    lemma_increasing(s, k + 1, s.len() - 1);
    assert(s[k] < s[k + 1]);
}

proof fn lemma_increasing(s: Seq<int>, a: int, b: int)
    requires
        0 <= a <= b < s.len(),
        forall|j: int| 0 <= j < s.len() - 1 ==> #[trigger] s[j] < s[j + 1],
    ensures
        s[a] <= s[b],
    decreases b - a,
{
    if a < b {
        lemma_increasing(s, a, b - 1);
        assert(s[b - 1] < s[b]);
    }
}

/// A node pays exactly its whole payout over its life, however the swings
/// split its budget: the per-swing shares are differences of cumulative
/// floors, so rounding never loses a unit, and the finisher's share is the
/// exact remainder.
pub proof fn law_a_node_pays_exactly_its_total(full: u16, hits: u16, finish_pct: u16, s: Seq<int>)
    requires
        hits > 0,
        finish_pct <= 100,
        s.len() >= 2,
        s[0] == 0,
        forall|j: int| 0 <= j < s.len() - 1 ==> #[trigger] s[j] < s[j + 1],
        s[s.len() - 1] == hits as int * HIT_UNIT as int,
    ensures
        paid_through(full, hits, finish_pct, s, s.len() - 1) == node_total(full, hits),
{
    let n = s.len() - 1;
    let budget = hits as int * HIT_UNIT as int;
    let pool = node_pool(full, hits, finish_pct);
    lemma_paid_prefix(full, hits, finish_pct, s, n - 1);
    assert(pool >= 0) by (nonlinear_arith)
        requires
            pool == full as int * hits as int * (100 - finish_pct) / 100,
            finish_pct <= 100,
    ;
    let a = s[n - 1];
    assert(pool * a <= pool * budget) by (nonlinear_arith)
        requires
            a <= budget,
            pool >= 0,
    ;
    vstd::arithmetic::div_mod::lemma_div_is_ordered(pool * a, pool * budget, budget);
    vstd::arithmetic::div_mod::lemma_div_multiples_vanish(pool, budget);
    assert(pool * budget == budget * pool) by (nonlinear_arith);
}

/// The inventory after [`inv_add`], as a whole.
pub open spec fn added_inv(inv: Seq<ItemStack>, item: u16, amount: u16, cap: u16, cond: u16) -> Seq<ItemStack> {
    Seq::new(inv.len(), |k: int| added_slot(inv, item, amount, cap, cond, k))
}

proof fn lemma_added_prefix(inv: Seq<ItemStack>, item: u16, amount: u16, cap: u16, cond: u16, other: u16, k: int)
    requires
        cap > 0,
        other != item,
        0 <= k <= inv.len(),
    ensures
        crate::craft::count_in(added_inv(inv, item, amount, cap, cond), item, k) == crate::craft::count_in(inv, item, k)
            + min_int(amount as int, room_before(inv, item, cap, k)) + min_int(
            cap * empties_before(inv, k),
            left_after_topup(inv, item, amount, cap),
        ),
        crate::craft::count_in(added_inv(inv, item, amount, cap, cond), other, k) == crate::craft::count_in(inv, other, k),
    decreases k,
{
    lemma_room_before_nonneg(inv, item, cap, k);
    lemma_empties_before_nonneg(inv, k);
    if k > 0 {
        lemma_added_prefix(inv, item, amount, cap, cond, other, k - 1);
        lemma_room_before_nonneg(inv, item, cap, k - 1);
        lemma_room_before_nonneg(inv, item, cap, inv.len() as int);
        lemma_empties_before_nonneg(inv, k - 1);
        let e = empties_before(inv, k - 1);
        assert(cap * (e + 1) == cap * e + cap) by (nonlinear_arith);
        assert(cap * e >= 0) by (nonlinear_arith)
            requires
                e >= 0,
                cap > 0,
        ;
        let new = added_inv(inv, item, amount, cap, cond);
        assert(new[k - 1] == added_slot(inv, item, amount, cap, cond, k - 1));
    }
}

/// What [`inv_add`] leaves is what the inventory held plus what it says
/// it added — nothing is duplicated and nothing else is touched: every
/// other item's count is as it was.
pub proof fn law_inv_add_conserves(inv: Seq<ItemStack>, item: u16, amount: u16, cap: u16, cond: u16, other: u16)
    requires
        other != item,
    ensures
        crate::craft::count_in(added_inv(inv, item, amount, cap, cond), item, inv.len() as int)
            == crate::craft::count_in(inv, item, inv.len() as int) + amount - inv_add_lost(inv, item, amount, cap),
        crate::craft::count_in(added_inv(inv, item, amount, cap, cond), other, inv.len() as int)
            == crate::craft::count_in(inv, other, inv.len() as int),
        0 <= inv_add_lost(inv, item, amount, cap) <= amount,
{
    if cap == 0 {
        assert(added_inv(inv, item, amount, cap, cond) =~= inv);
    } else {
        lemma_added_prefix(inv, item, amount, cap, cond, other, inv.len() as int);
        lemma_room_before_nonneg(inv, item, cap, inv.len() as int);
        lemma_empties_before_nonneg(inv, inv.len() as int);
        let e = empties_before(inv, inv.len() as int);
        assert(cap * e >= 0) by (nonlinear_arith)
            requires
                e >= 0,
                cap > 0,
        ;
    }
}

/// Add `amount` of `item` to an inventory: top up matching stacks in slot
/// order, then fill empty slots. Returns what actually fit; the rest is
/// destroyed. A `stack_max` of zero adds nothing and writes nothing.
/// `cond` is stamped on fresh stacks only.
#[verifier::rlimit(60)]
#[verifier::spinoff_prover]
pub fn inv_add(
    inv: &mut [ItemStack; INV_SLOTS],
    item: u16,
    amount: u16,
    stack_max: u16,
    cond: u16,
) -> (added: u16)
    ensures
        added as int == amount - inv_add_lost(old(inv)@, item, amount, stack_max),
        forall|k: int|
            0 <= k < INV_SLOTS ==> final(inv)@[k] == added_slot(
                old(inv)@,
                item,
                amount,
                stack_max,
                cond,
                k,
            ),
{
    if stack_max == 0 {
        return 0;
    }
    let ghost orig = inv@;
    let cap = stack_max;
    let mut left = amount;
    let mut i: usize = 0;
    while i < INV_SLOTS
        invariant
            i <= INV_SLOTS,
            cap > 0,
            orig.len() == INV_SLOTS,
            left == sat(amount - room_before(orig, item, cap, i as int)),
            forall|k: int|
                0 <= k < i ==> (if orig[k].count > 0 {
                    inv@[k] == added_slot(orig, item, amount, cap, cond, k)
                } else {
                    inv@[k] == orig[k]
                }),
            forall|k: int| i <= k < INV_SLOTS ==> inv@[k] == orig[k],
        decreases INV_SLOTS - i,
    {
        proof {
            lemma_room_before_nonneg(orig, item, cap, i as int);
            assert(room_before(orig, item, cap, i + 1) == room_before(orig, item, cap, i as int)
                + topup_room(orig[i as int], item, cap));
        }
        let s = inv[i];
        if left > 0 && s.count > 0 && s.item == item && s.count < cap {
            let room = cap - s.count;
            let take = if room < left { room } else { left };
            inv[i] = ItemStack { item: s.item, count: s.count + take, cond: s.cond };
            left -= take;
        }
        i += 1;
    }
    let ghost l1 = left as int;
    assert(l1 == left_after_topup(orig, item, amount, cap));
    assert(empties_before(orig, 0) == 0);
    proof {
        lemma_room_before_nonneg(orig, item, cap, INV_SLOTS as int);
    }
    i = 0;
    while i < INV_SLOTS
        invariant
            i <= INV_SLOTS,
            cap > 0,
            orig.len() == INV_SLOTS,
            l1 == left_after_topup(orig, item, amount, cap),
            left == sat(l1 - cap * empties_before(orig, i as int)),
            left <= amount,
            forall|k: int| 0 <= k < i ==> inv@[k] == added_slot(orig, item, amount, cap, cond, k),
            forall|k: int|
                i <= k < INV_SLOTS ==> (if orig[k].count > 0 {
                    inv@[k] == added_slot(orig, item, amount, cap, cond, k)
                } else {
                    inv@[k] == orig[k]
                }),
        decreases INV_SLOTS - i,
    {
        let ghost e = empties_before(orig, i as int);
        proof {
            lemma_empties_before_nonneg(orig, i as int);
            assert(cap * (e + 1) == cap * e + cap) by (nonlinear_arith);
            assert(cap * e >= 0) by (nonlinear_arith)
                requires
                    e >= 0,
            ;
            assert(empties_before(orig, i + 1) == e + (if orig[i as int].count == 0 { 1int } else { 0 }));
        }
        let s = inv[i];
        if left > 0 && s.count == 0 {
            let take = if cap < left { cap } else { left };
            inv[i] = ItemStack { item, count: take, cond };
            left -= take;
        }
        i += 1;
    }
    amount - left
}

/// Pay `amount` of `item` into an inventory and put whatever will not fit
/// into `spill` instead of destroying it. Returns what reached the
/// inventory, not what was paid.
pub fn inv_add_spilling(
    inv: &mut [ItemStack; INV_SLOTS],
    spill: &mut [ItemStack; INV_SLOTS],
    item: u16,
    amount: u16,
    stack_max: u16,
    cond: u16,
) -> (added: u16)
    ensures
        added as int == amount - inv_add_lost(old(inv)@, item, amount, stack_max),
        forall|k: int|
            0 <= k < INV_SLOTS ==> final(inv)@[k] == added_slot(
                old(inv)@,
                item,
                amount,
                stack_max,
                cond,
                k,
            ),
        forall|k: int|
            0 <= k < INV_SLOTS ==> final(spill)@[k] == (if added < amount {
                added_slot(old(spill)@, item, (amount - added) as u16, stack_max, cond, k)
            } else {
                old(spill)@[k]
            }),
{
    let added = inv_add(inv, item, amount, stack_max, cond);
    if added < amount {
        inv_add(spill, item, amount - added, stack_max, cond);
    }
    added
}

/// One slot's life record. `respawn_at == 0` ⇒ standing (damaged);
/// nonzero ⇒ harvested until that tick. Absent from the store ⇒ pristine.
#[derive(Clone, Copy, Debug, Default, PartialEq, Eq, Structural)]
pub struct SlotLife {
    pub cx: u16,
    pub cz: u16,
    pub hits: u16,
    pub respawn_at: u64,
}

/// The server's "one bit + one timer per slot", stored sparsely: only
/// touched slots occupy an entry. At capacity a new slot evicts the
/// standing entry with the fewest hits (it heals to pristine); harvested
/// entries are never evicted.
pub struct SlotLives {
    entries: Vec<SlotLife>,
}

/// No two records of a store are for one cell.
pub open spec fn cells_distinct(s: Seq<SlotLife>) -> bool {
    forall|i: int, j: int| 0 <= i < j < s.len() ==> !(s[i].cx == s[j].cx && s[i].cz == s[j].cz)
}

/// Two records for one cell in a store of distinct cells are one record.
proof fn lemma_cells_distinct_same_cell(s: Seq<SlotLife>, a: SlotLife, b: SlotLife)
    requires
        cells_distinct(s),
        s.contains(a),
        s.contains(b),
        a.cx == b.cx,
        a.cz == b.cz,
    ensures
        a == b,
{
    let x = choose|x: int| 0 <= x < s.len() && s[x] == a;
    let y = choose|y: int| 0 <= y < s.len() && s[y] == b;
    if x < y {
        assert(!(s[x].cx == s[y].cx && s[x].cz == s[y].cz));
    } else if y < x {
        assert(!(s[y].cx == s[x].cx && s[y].cz == s[x].cz));
    }
}

/// A cell key names one cell.
proof fn lemma_cell_key_injective(a: u16, b: u16, c: u16, d: u16)
    requires
        spec_cell_key(a, b) == spec_cell_key(c, d),
    ensures
        a == c,
        b == d,
{
    assert(0 <= a as int * 0x1_0000 + b as int <= u32::MAX);
    assert(0 <= c as int * 0x1_0000 + d as int <= u32::MAX);
}

/// What a release walk keeps true between visits to the store `cur` it
/// has made of `o`, having added to `ev0` the events `evs`: the records
/// left are those of `o` it has not released, every record of `o` still
/// standing that is not due is left, and the new events are one report
/// for each released record, none twice.
pub open spec fn release_inv(
    o: Seq<SlotLife>,
    ev0: Seq<crate::world::Event>,
    cur: Seq<SlotLife>,
    evs: Seq<crate::world::Event>,
    tick: u64,
) -> bool {
    &&& cells_distinct(cur)
    &&& forall|e: SlotLife| #[trigger] o.contains(e) && !is_due(e, tick) ==> cur.contains(e)
    &&& forall|e: SlotLife| #[trigger] cur.contains(e) ==> o.contains(e)
    &&& evs.len() - ev0.len() == o.len() - cur.len()
    &&& forall|k: int|
        #![trigger evs[k]]
        ev0.len() <= k < evs.len() ==> exists|r: SlotLife|
            #[trigger] o.contains(r) && is_due(r, tick) && !cur.contains(r) && evs[k] == respawn_event(r)
    &&& forall|r: SlotLife|
        #[trigger] o.contains(r) && !cur.contains(r) ==> exists|k: int|
            ev0.len() <= k < evs.len() && #[trigger] evs[k] == respawn_event(r)
    &&& forall|k1: int, k2: int| ev0.len() <= k1 < k2 < evs.len() ==> #[trigger] evs[k1] != #[trigger] evs[k2]
}

/// Releasing the due record `i` keeps [`release_inv`].
#[verifier::spinoff_prover]
#[verifier::rlimit(60)]
proof fn lemma_release_step(
    o: Seq<SlotLife>,
    ev0: Seq<crate::world::Event>,
    before: Seq<SlotLife>,
    evb: Seq<crate::world::Event>,
    i: int,
    tick: u64,
)
    requires
        cells_distinct(o),
        release_inv(o, ev0, before, evb, tick),
        evb.len() >= ev0.len(),
        0 <= i < before.len(),
        is_due(before[i], tick),
    ensures
        release_inv(o, ev0, before.update(i, before.last()).drop_last(), evb.push(respawn_event(before[i])), tick),
{
    let e = before[i];
    let after = before.update(i, before.last()).drop_last();
    let evs = evb.push(respawn_event(e));
    lemma_swap_remove_lives(before, i);
    assert(before.contains(e));
    assert(o.contains(e));
    assert(evs[evb.len() as int] == respawn_event(e));
    assert forall|f: SlotLife| #[trigger] o.contains(f) && !is_due(f, tick) implies after.contains(f) by {
        assert(before.contains(f));
        assert(f != e);
    }
    assert forall|k: int| #![trigger evs[k]] ev0.len() <= k < evs.len() implies exists|r: SlotLife|
        #[trigger] o.contains(r) && is_due(r, tick) && !after.contains(r) && evs[k] == respawn_event(r) by {
        if k < evb.len() {
            assert(evs[k] == evb[k]);
            let r = choose|r: SlotLife|
                #[trigger] o.contains(r) && is_due(r, tick) && !before.contains(r) && evb[k] == respawn_event(r);
            assert(!after.contains(r));
        } else {
            assert(o.contains(e) && is_due(e, tick) && !after.contains(e));
        }
    }
    assert forall|r: SlotLife| #[trigger] o.contains(r) && !after.contains(r) implies exists|k: int|
        ev0.len() <= k < evs.len() && #[trigger] evs[k] == respawn_event(r) by {
        if before.contains(r) {
            assert(r == e);
            assert(evs[evb.len() as int] == respawn_event(r));
        } else {
            let k = choose|k: int| ev0.len() <= k < evb.len() && #[trigger] evb[k] == respawn_event(r);
            assert(evs[k] == evb[k]);
        }
    }
    assert forall|k1: int, k2: int| ev0.len() <= k1 < k2 < evs.len() implies #[trigger] evs[k1] != #[trigger] evs[k2] by {
        assert(evs[k1] == evb[k1]);
        if k2 < evb.len() {
            assert(evs[k2] == evb[k2]);
        } else {
            let r = choose|r: SlotLife|
                #[trigger] o.contains(r) && is_due(r, tick) && !before.contains(r) && evb[k1] == respawn_event(r);
            if respawn_event(r) == respawn_event(e) {
                lemma_cell_key_injective(r.cx, r.cz, e.cx, e.cz);
                lemma_cells_distinct_same_cell(o, r, e);
            }
        }
    }
}

/// Swap-removing record `i` of a store of distinct cells: the cells stay
/// distinct, the removed record is gone, and every other record stays.
proof fn lemma_swap_remove_lives(before: Seq<SlotLife>, i: int)
    requires
        cells_distinct(before),
        0 <= i < before.len(),
    ensures
        ({
            let after = before.update(i, before.last()).drop_last();
            &&& cells_distinct(after)
            &&& !after.contains(before[i])
            &&& forall|f: SlotLife| #[trigger] after.contains(f) ==> before.contains(f)
            &&& forall|f: SlotLife| #[trigger] before.contains(f) && f != before[i] ==> after.contains(f)
        }),
{
    let after = before.update(i, before.last()).drop_last();
    let n = before.len() - 1;
    assert forall|x: int, y: int| 0 <= x < y < after.len() implies !(after[x].cx == after[y].cx
        && after[x].cz == after[y].cz) by {
        let x0 = if x == i { n } else { x };
        let y0 = if y == i { n } else { y };
        assert(after[x] == before[x0]);
        assert(after[y] == before[y0]);
        if x0 < y0 {
        } else {
            assert(y0 < x0);
        }
    }
    if after.contains(before[i]) {
        let k = choose|k: int| 0 <= k < after.len() && after[k] == before[i];
        let k0 = if k == i { n } else { k };
        assert(after[k] == before[k0]);
        assert(k0 != i);
        if k0 < i {
            assert(!(before[k0].cx == before[i].cx && before[k0].cz == before[i].cz));
        } else {
            assert(!(before[i].cx == before[k0].cx && before[i].cz == before[k0].cz));
        }
    }
    assert forall|f: SlotLife| #[trigger] after.contains(f) implies before.contains(f) by {
        let k = choose|k: int| 0 <= k < after.len() && after[k] == f;
        let k0 = if k == i { n } else { k };
        assert(after[k] == before[k0]);
    }
    assert forall|f: SlotLife| #[trigger] before.contains(f) && f != before[i] implies after.contains(f) by {
        let k = choose|k: int| 0 <= k < before.len() && before[k] == f;
        assert(k != i);
        if k == n {
            assert(after[i] == f);
        } else {
            assert(after[k] == f);
        }
    }
}

/// Whether a harvested record's timer has run out at `tick`.
pub open spec fn is_due(e: SlotLife, tick: u64) -> bool {
    e.respawn_at != 0 && tick >= e.respawn_at
}

/// The announcement a released slot makes.
pub open spec fn respawn_event(e: SlotLife) -> crate::world::Event {
    crate::world::Event { code: EV_SLOT_RESPAWNED, a: spec_cell_key(e.cx, e.cz), b: 0, c: 0 }
}

/// Whether `ev` announces the release of a record of `s` that is due.
pub open spec fn announces_due(ev: crate::world::Event, s: Seq<SlotLife>, tick: u64) -> bool {
    exists|e: SlotLife| #[trigger] s.contains(e) && is_due(e, tick) && ev == respawn_event(e)
}

/// Whether a record is for the slot at `(cx, cz)`.
pub open spec fn life_at(e: SlotLife, cx: u16, cz: u16) -> bool {
    e.cx == cx && e.cz == cz
}

/// Cell coordinates packed for event arguments: `cx << 16 | cz`.
pub open spec fn spec_cell_key(cx: u16, cz: u16) -> u32 {
    (cx as int * 0x1_0000 + cz as int) as u32
}

/// The gather-table row of a scatter occupant, given by its ordinal in the
/// terrain's occupant list (0 is an empty cell, 1 ..= 5 the gatherables
/// Tree ..= Bush, the rest rock and barrel), or `None` for anything not
/// gatherable.
pub fn node_index(occupant: u8) -> (r: Option<usize>)
    ensures
        r == (if 1 <= occupant <= GATHERABLE_KINDS { Some((occupant - 1) as usize) } else { None::<usize> }),
{
    let i = occupant as usize;
    if 1 <= i && i <= GATHERABLE_KINDS {
        Some(i - 1)
    } else {
        None
    }
}

/// Cell coords packed for event args.
pub fn cell_key(cx: u16, cz: u16) -> (k: u32)
    ensures
        k == spec_cell_key(cx, cz),
{
    let r = (cx as u32) * 0x1_0000 + cz as u32;
    assert(((cx as u32) << 16u32) | (cz as u32) == r) by (bit_vector)
        requires
            r == (cx as u32) * 0x1_0000 + cz as u32,
            cx < 0x1_0000,
            cz < 0x1_0000,
    ;
    ((cx as u32) << 16) | cz as u32
}

/// The index of the standing entry the store evicts when full: the first
/// one with the fewest hits.
pub open spec fn is_eviction_pick(s: Seq<SlotLife>, i: int) -> bool {
    &&& 0 <= i < s.len()
    &&& s[i].respawn_at == 0
    &&& forall|j: int| 0 <= j < s.len() && s[j].respawn_at == 0 ==> s[i].hits <= s[j].hits
    &&& forall|j: int| 0 <= j < i && s[j].respawn_at == 0 ==> s[i].hits < s[j].hits
}

/// The fresh record a first touch of a slot writes.
pub open spec fn fresh_life(cx: u16, cz: u16) -> SlotLife {
    SlotLife { cx, cz, hits: 0, respawn_at: 0 }
}

/// Where [`SlotLives::find_or_insert`] puts the record for `(cx, cz)`: the
/// slot's own record, else a fresh one at the end, else over the eviction
/// pick; `None` when every record is harvested.
pub open spec fn slot_index(o: Seq<SlotLife>, cx: u16, cz: u16) -> Option<int> {
    if exists|j: int| 0 <= j < o.len() && life_at(o[j], cx, cz) {
        Some(choose|j: int| 0 <= j < o.len() && life_at(o[j], cx, cz))
    } else if o.len() < MAX_SLOT_LIVES {
        Some(o.len() as int)
    } else if exists|j: int| 0 <= j < o.len() && o[j].respawn_at == 0 {
        Some(choose|j: int| is_eviction_pick(o, j))
    } else {
        None
    }
}

/// The records after [`SlotLives::find_or_insert`].
pub open spec fn after_find(o: Seq<SlotLife>, cx: u16, cz: u16) -> Seq<SlotLife> {
    if exists|j: int| 0 <= j < o.len() && life_at(o[j], cx, cz) {
        o
    } else if o.len() < MAX_SLOT_LIVES {
        o.push(fresh_life(cx, cz))
    } else if exists|j: int| 0 <= j < o.len() && o[j].respawn_at == 0 {
        o.update(choose|j: int| is_eviction_pick(o, j), fresh_life(cx, cz))
    } else {
        o
    }
}

proof fn lemma_eviction_pick_unique(s: Seq<SlotLife>, a: int, b: int)
    requires
        is_eviction_pick(s, a),
        is_eviction_pick(s, b),
    ensures
        a == b,
{
    if a < b {
        assert(s[a].respawn_at == 0);
    } else if b < a {
        assert(s[b].respawn_at == 0);
    }
}

impl View for SlotLives {
    type V = Seq<SlotLife>;

    closed spec fn view(&self) -> Seq<SlotLife> {
        self.entries@
    }
}

impl SlotLives {
    /// Every slot has at most one record, and the store stays in its cap.
    pub closed spec fn wf(&self) -> bool {
        &&& self.entries@.len() <= MAX_SLOT_LIVES
        &&& forall|i: int, j: int|
            0 <= i < j < self.entries@.len() ==> !(self.entries@[i].cx == self.entries@[j].cx
                && self.entries@[i].cz == self.entries@[j].cz)
    }

    pub fn new() -> (l: Self)
        ensures
            l.wf(),
            l@ == Seq::<SlotLife>::empty(),
    {
        SlotLives { entries: Vec::new() }
    }

    pub fn len(&self) -> (n: usize)
        ensures
            n == self@.len(),
    {
        self.entries.len()
    }

    pub fn is_empty(&self) -> (b: bool)
        ensures
            b == (self@.len() == 0),
    {
        self.entries.len() == 0
    }

    /// The live records, dense from 0.
    pub fn entries(&self) -> (s: &[SlotLife])
        ensures
            s@ == self@,
    {
        self.entries.as_slice()
    }

    fn index_of(&self, cx: u16, cz: u16) -> (r: Option<usize>)
        ensures
            match r {
                None => forall|j: int| 0 <= j < self@.len() ==> !life_at(self@[j], cx, cz),
                Some(i) => i < self@.len() && life_at(self@[i as int], cx, cz) && forall|j: int|
                    0 <= j < i ==> !life_at(self@[j], cx, cz),
            },
    {
        let mut i: usize = 0;
        while i < self.entries.len()
            invariant
                i <= self.entries@.len(),
                forall|j: int| 0 <= j < i ==> !life_at(self.entries@[j], cx, cz),
            decreases self.entries@.len() - i,
        {
            if self.entries[i].cx == cx && self.entries[i].cz == cz {
                return Some(i);
            }
            i += 1;
        }
        None
    }

    /// The record for `(cx, cz)`, if the slot has one.
    pub fn find(&self, cx: u16, cz: u16) -> (r: Option<&SlotLife>)
        ensures
            match r {
                None => forall|j: int| 0 <= j < self@.len() ==> !life_at(self@[j], cx, cz),
                Some(e) => life_at(*e, cx, cz) && self@.contains(*e),
            },
    {
        match self.index_of(cx, cz) {
            None => None,
            Some(i) => Some(&self.entries[i]),
        }
    }

    /// True while the slot is inside its harvested window.
    pub fn is_harvested(&self, cx: u16, cz: u16) -> (b: bool)
        ensures
            b ==> exists|j: int|
                0 <= j < self@.len() && life_at(self@[j], cx, cz) && self@[j].respawn_at != 0,
            self.wf() ==> (b == exists|j: int|
                0 <= j < self@.len() && life_at(self@[j], cx, cz) && self@[j].respawn_at != 0),
    {
        match self.find(cx, cz) {
            None => false,
            Some(e) => {
                assert(self@.contains(*e));
                e.respawn_at != 0
            },
        }
    }

    /// The index of the record for `(cx, cz)`, inserting a fresh one
    /// (`hits: 0`, standing) if the slot has none. At capacity the
    /// lowest-hits standing record is replaced; `None` only when every
    /// record is harvested, which refuses the hit.
    pub fn find_or_insert(&mut self, cx: u16, cz: u16) -> (r: Option<usize>)
        requires
            old(self).wf(),
        ensures
            final(self).wf(),
            final(self)@ == after_find(old(self)@, cx, cz),
            match slot_index(old(self)@, cx, cz) {
                Some(i) => r == Some(i as usize) && life_at(final(self)@[i], cx, cz) && i < final(self)@.len(),
                None => r is None,
            },
            ({
                let fresh = SlotLife { cx, cz, hits: 0, respawn_at: 0 };
                let o = old(self)@;
                if exists|j: int| 0 <= j < o.len() && life_at(o[j], cx, cz) {
                    r matches Some(i) && life_at(o[i as int], cx, cz) && final(self)@ == o
                } else if o.len() < MAX_SLOT_LIVES {
                    r == Some(o.len() as usize) && final(self)@ == o.push(fresh)
                } else if exists|j: int| 0 <= j < o.len() && o[j].respawn_at == 0 {
                    r matches Some(i) && is_eviction_pick(o, i as int) && final(self)@ == o.update(
                        i as int,
                        fresh,
                    )
                } else {
                    r == None::<usize> && final(self)@ == o
                }
            }),
    {
        if let Some(i) = self.index_of(cx, cz) {
            proof {
                let o = self@;
                let j = choose|j: int| 0 <= j < o.len() && life_at(o[j], cx, cz);
                assert(0 <= j < o.len() && life_at(o[j], cx, cz));
                if j != i as int {
                    if j < i as int {
                    } else {
                        assert(!(self.entries@[i as int].cx == self.entries@[j].cx && self.entries@[i as int].cz
                            == self.entries@[j].cz));
                    }
                }
            }
            return Some(i);
        }
        let fresh = SlotLife { cx, cz, hits: 0, respawn_at: 0 };
        if self.entries.len() < MAX_SLOT_LIVES {
            let ghost o = self@;
            self.entries.push(fresh);
            assert forall|i: int, j: int|
                0 <= i < j < self.entries@.len() implies !(self.entries@[i].cx
                == self.entries@[j].cx && self.entries@[i].cz == self.entries@[j].cz) by {
                if j == o.len() {
                    assert(!life_at(o[i], cx, cz));
                }
            }
            return Some(self.entries.len() - 1);
        }
        let mut best: Option<usize> = None;
        let mut i: usize = 0;
        while i < self.entries.len()
            invariant
                i <= self.entries@.len(),
                self.entries@ == old(self)@,
                match best {
                    None => forall|j: int| 0 <= j < i ==> self.entries@[j].respawn_at != 0,
                    Some(b) => b < i && is_eviction_pick(self.entries@.subrange(0, i as int), b as int),
                },
            decreases self.entries@.len() - i,
        {
            let e = self.entries[i];
            let better = match best {
                None => true,
                Some(b) => e.hits < self.entries[b].hits,
            };
            if e.respawn_at == 0 && better {
                best = Some(i);
            }
            proof {
                let s = self.entries@;
                let sub = s.subrange(0, i + 1);
                match best {
                    None => {},
                    Some(b) => {
                        assert forall|j: int| 0 <= j < sub.len() && sub[j].respawn_at == 0 implies sub[b as int].hits <= sub[j].hits by {
                            if j < i as int {
                                assert(sub[j] == s.subrange(0, i as int)[j]);
                            }
                        }
                        assert forall|j: int| 0 <= j < b && sub[j].respawn_at == 0 implies sub[b as int].hits < sub[j].hits by {
                            assert(sub[j] == s.subrange(0, i as int)[j]);
                        }
                    },
                }
            }
            i += 1;
        }
        match best {
            None => None,
            Some(b) => {
                assert(self.entries@.subrange(0, self.entries@.len() as int) =~= self.entries@);
                let ghost o = self.entries@;
                proof {
                    let c = choose|j: int| is_eviction_pick(o, j);
                    assert(is_eviction_pick(o, b as int));
                    lemma_eviction_pick_unique(o, c, b as int);
                }
                self.entries.set(b, fresh);
                assert forall|x: int, y: int|
                    0 <= x < y < self.entries@.len() implies !(self.entries@[x].cx
                    == self.entries@[y].cx && self.entries@[x].cz == self.entries@[y].cz) by {
                    if x == b as int {
                        assert(!life_at(o[y], cx, cz));
                    } else if y == b as int {
                        assert(!life_at(o[x], cx, cz));
                    }
                }
                Some(b)
            },
        }
    }

    /// Overwrite the damage and timer of record `i`.
    pub fn set_life(&mut self, i: usize, hits: u16, respawn_at: u64)
        requires
            old(self).wf(),
            i < old(self)@.len(),
        ensures
            final(self).wf(),
            final(self)@ == old(self)@.update(
                i as int,
                SlotLife { cx: old(self)@[i as int].cx, cz: old(self)@[i as int].cz, hits, respawn_at },
            ),
    {
        let e = self.entries[i];
        self.entries.set(i, SlotLife { cx: e.cx, cz: e.cz, hits, respawn_at });
    }

    /// Release every record whose respawn tick has arrived, reporting each
    /// with `EV_SLOT_RESPAWNED`, one report per released record. Swap-remove
    /// keeps the store dense.
    pub fn respawn_due(&mut self, tick: u64, events: &mut EventQueue)
        requires
            old(self).wf(),
        ensures
            final(self).wf(),
            forall|e: SlotLife|
                #[trigger] old(self)@.contains(e) ==> (final(self)@.contains(e) <==> !is_due(e, tick)),
            forall|e: SlotLife| #[trigger] final(self)@.contains(e) ==> old(self)@.contains(e),
            final(events)@.len() - old(events)@.len() == old(self)@.len() - final(self)@.len(),
            final(events)@.subrange(0, old(events)@.len() as int) == old(events)@,
            forall|k: int|
                old(events)@.len() <= k < final(events)@.len() ==> announces_due(
                    #[trigger] final(events)@[k],
                    old(self)@,
                    tick,
                ),
            forall|e: SlotLife|
                #[trigger] old(self)@.contains(e) && is_due(e, tick) ==> exists|k: int|
                    old(events)@.len() <= k < final(events)@.len() && #[trigger] final(events)@[k] == respawn_event(e),
            forall|k1: int, k2: int|
                old(events)@.len() <= k1 < k2 < final(events)@.len() ==> #[trigger] final(events)@[k1]
                    != #[trigger] final(events)@[k2],
    {
        let ghost o = self.entries@;
        let ghost ev0 = events@;
        assert(o == old(self)@);
        let mut i: usize = 0;
        assert(events@.subrange(0, ev0.len() as int) =~= ev0);
        while i < self.entries.len()
            invariant
                i <= self.entries@.len(),
                self.wf(),
                cells_distinct(o),
                forall|j: int| 0 <= j < i ==> !is_due(#[trigger] self.entries@[j], tick),
                events@.len() >= ev0.len(),
                events@.subrange(0, ev0.len() as int) == ev0,
                release_inv(o, ev0, self.entries@, events@, tick),
            decreases self.entries@.len() - i,
        {
            let e = self.entries[i];
            if e.respawn_at != 0 && tick >= e.respawn_at {
                let key = cell_key(e.cx, e.cz);
                let ghost before = self.entries@;
                let ghost evb = events@;
                events.push(EV_SLOT_RESPAWNED, key, 0, 0);
                self.entries.swap_remove(i);
                proof {
                    assert(self.entries@ == before.update(i as int, before.last()).drop_last());
                    assert(events@ == evb.push(respawn_event(e)));
                    lemma_release_step(o, ev0, before, evb, i as int, tick);
                    lemma_swap_remove_lives(before, i as int);
                    assert(events@.subrange(0, ev0.len() as int) =~= ev0) by {
                        assert(evb.subrange(0, ev0.len() as int) == ev0);
                    }
                }
            } else {
                i += 1;
            }
        }
        proof {
            let f = self.entries@;
            assert forall|e: SlotLife| #[trigger] o.contains(e) && is_due(e, tick) implies !f.contains(e) by {
                if f.contains(e) {
                    let j = choose|j: int| 0 <= j < f.len() && f[j] == e;
                    assert(!is_due(f[j], tick));
                }
            }
        }
    }
}

/// What the hand holds: the selected stack's item, or no item.
pub open spec fn held_raw(p: Player) -> u16 {
    if p.inv[p.frame.sel as int].count > 0 { p.inv[p.frame.sel as int].item } else { NO_ITEM }
}

/// A tool at condition zero whose item carries condition: it stays in the
/// hand and stops being a tool.
pub open spec fn held_dead(p: Player, gc: GatherContent) -> bool {
    held_raw(p) != NO_ITEM && p.inv[p.frame.sel as int].cond == 0 && table_of(gc.cond_max@, held_raw(p)) > 0
}

/// The tool a swing is made with: a dead tool reads as no tool.
pub open spec fn held_tool(p: Player, gc: GatherContent) -> u16 {
    if held_dead(p, gc) { NO_ITEM } else { held_raw(p) }
}

/// `amount` of `item` given to the hands, what will not fit to `spill`:
/// the hands, the spill, and what reached the hands.
pub open spec fn give(
    inv: Seq<ItemStack>,
    spill: Seq<ItemStack>,
    item: u16,
    amount: u16,
    sm: u16,
    cm: u16,
) -> (Seq<ItemStack>, Seq<ItemStack>, int) {
    let lost = inv_add_lost(inv, item, amount, sm);
    (
        added_inv(inv, item, amount, sm, cm),
        if lost > 0 { added_inv(spill, item, lost as u16, sm, cm) } else { spill },
        amount - lost,
    )
}

/// Items entering a hand, announced.
pub open spec fn gather_event(id: u32, item: u16, added: int) -> Event {
    Event { code: EV_GATHER, a: id, b: ((item as u32) << 16u32) | (added as u32), c: 0 }
}

/// What a landed swing leaves behind.
pub struct Landing {
    pub swing: Swing,
    pub lives: Seq<SlotLife>,
    pub inv: Seq<ItemStack>,
    pub spill: Seq<ItemStack>,
    pub ws_cell: u32,
    pub ws_hits: u16,
    pub events: Seq<Event>,
}

/// The landed hits of the chase a swing at cell key `ck` continues: a new
/// node restarts it.
pub open spec fn chase_hits(p: Player, ck: u32) -> u16 {
    if p.ws_cell != ck { 0 } else { p.ws_hits }
}

/// Budget spent on a node after a swing that finds `before` spent: a
/// marked swing bites deeper, and the last takes only what is left.
pub open spec fn spent_after(def: NodeDef, before: int, weak: bool) -> int {
    let budget = def.hits as int * HIT_UNIT as int;
    let want = if weak { HIT_UNIT as int + def.weak_pct as int } else { HIT_UNIT as int };
    before + min_int(want, budget - before)
}

/// A landed swing's payout into the hands — its share of the node, then
/// the node's side payout — and the tool's wear after it: the hands, the
/// spill, and the announcements.
pub open spec fn paid_hands(
    gc: GatherContent,
    def: NodeDef,
    id: u32,
    sel: int,
    held: u16,
    inv: Seq<ItemStack>,
    spill: Seq<ItemStack>,
    full: u16,
    before: int,
    after: int,
    exhausted: bool,
) -> (Seq<ItemStack>, Seq<ItemStack>, Seq<Event>) {
    let pay = min_int(pay_raw(full, def.hits, def.finish_pct, before, after, exhausted), u16::MAX as int);
    let out = def.output;
    let g1 = give(inv, spill, out, pay as u16, gc.stack_max[out as int], gc.cond_max[out as int]);
    let sec = def.secondary;
    let sec_on = sec.0 != NO_ITEM && (sec.0 as int) < MAX_ITEM_DEFS && sec.1 > 0;
    let g2 = if sec_on {
        give(g1.0, g1.1, sec.0, sec.1, gc.stack_max[sec.0 as int], gc.cond_max[sec.0 as int])
    } else {
        (g1.0, g1.1, 0)
    };
    let wear = row_lookup(def.wear@, held, 0);
    let worn = if wear > 0 {
        g2.0.update(
            sel,
            ItemStack { cond: (if g2.0[sel].cond >= wear { g2.0[sel].cond - wear } else { 0 }) as u16, ..g2.0[sel] },
        )
    } else {
        g2.0
    };
    let ev_pay: Seq<Event> = if pay > 0 { seq![gather_event(id, out, g1.2)] } else { Seq::empty() };
    let ev_sec: Seq<Event> = if sec_on { seq![gather_event(id, sec.0, g2.2)] } else { Seq::empty() };
    (worn, g2.1, ev_pay + ev_sec)
}

/// A swing landing on the record at `i` of the slot records `mid`, made
/// with `held` paying `full` a swing.
pub open spec fn strike_spec(
    gc: GatherContent,
    mid: Seq<SlotLife>,
    i: int,
    p: Player,
    spill: Seq<ItemStack>,
    tick: u64,
    cx: u16,
    cz: u16,
    ni: int,
    in_sector: bool,
    jitter: u64,
    next_mark: u8,
    impact: Option<(u32, u32, u32)>,
    held: u16,
    full: u16,
) -> Landing {
    let def = gc.nodes[ni];
            let ck = spec_cell_key(cx, cz);
        let hits0 = chase_hits(p, ck);
        let weak = def.weak_pct > 0 && hits0 > 0 && in_sector;
        let before = mid[i].hits as int;
        let after = spent_after(def, before, weak);
        let exhausted = after >= def.hits as int * HIT_UNIT as int;
        let respawn: u64 = if exhausted {
            (tick + RESPAWN_MIN_TICKS + jitter % RESPAWN_RANGE_TICKS) as u64
        } else {
            mid[i].respawn_at
        };
        let hands = paid_hands(gc, def, p.id, p.frame.sel as int, held, p.inv@, spill, full, before, after, exhausted);
        let ev_impact: Seq<Event> = match impact {
            Some(t) => seq![Event { code: EV_IMPACT, a: t.0, b: t.1, c: t.2 }],
            None => Seq::empty(),
        };
        let ev_end: Seq<Event> = if exhausted {
            seq![Event { code: EV_SLOT_HARVESTED, a: ck, b: (ni + 1) as u32, c: 0 }]
        } else if def.weak_pct > 0 {
            seq![Event { code: EV_WEAK_MARK, a: p.id, b: ck, c: (if weak { 0x100u32 } else { 0u32 }) | (next_mark as u32) }]
        } else {
            Seq::empty()
        };
        Landing {
            swing: Swing::Absorbed,
            lives: mid.update(i, SlotLife { cx: mid[i].cx, cz: mid[i].cz, hits: after as u16, respawn_at: respawn }),
            inv: hands.0,
            spill: hands.1,
            ws_cell: if exhausted { NO_CELL } else { ck },
            ws_hits: if exhausted { 0 } else { (if hits0 < u16::MAX { hits0 + 1 } else { u16::MAX as int }) as u16 },
            events: ev_impact + hands.2 + ev_end,
        }
}

/// A swing aimed at gather node row `ni` in cell `(cx, cz)`.
///
/// An inert row leaves the arm free. What is in hand decides whether the
/// node answers at all: a tool it pays nothing for is refused, named, and
/// touches no store. Otherwise the slot's record is found or made (a store
/// exhausted by harvested records leaves the arm free), the weak-spot chase
/// restarts on a new node, and the swing spends its budget. Pay is the
/// swing's exact share; a full hand spills. An exhausted node is announced
/// and starts its respawn window, otherwise the chase's next mark is.
pub open spec fn land_spec(
    gc: GatherContent,
    lives: Seq<SlotLife>,
    p: Player,
    spill: Seq<ItemStack>,
    tick: u64,
    cx: u16,
    cz: u16,
    ni: int,
    in_sector: bool,
    jitter: u64,
    next_mark: u8,
    impact: Option<(u32, u32, u32)>,
) -> Landing {
    let def = gc.nodes[ni];
    let quiet = Landing {
        swing: Swing::Free,
        lives,
        inv: p.inv@,
        spill,
        ws_cell: p.ws_cell,
        ws_hits: p.ws_hits,
        events: Seq::empty(),
    };
    if def.output == NO_ITEM || def.output as int >= MAX_ITEM_DEFS {
        quiet
    } else {
        let held = held_tool(p, gc);
        let full = row_lookup(def.tools@, held, def.hand_yield);
        if full == 0 {
            let why = if held_dead(p, gc) { REFUSE_G_BROKEN } else { REFUSE_G_TOOL };
            Landing {
                swing: Swing::Refused,
                events: seq![Event { code: EV_GATHER_REFUSED, a: p.id, b: ((held_raw(p) as u32) << 16u32) | why, c: 0 }],
                ..quiet
            }
        } else {
            match slot_index(lives, cx, cz) {
                None => quiet,
                Some(i) => strike_spec(gc, after_find(lives, cx, cz), i, p, spill, tick, cx, cz, ni, in_sector, jitter, next_mark, impact, held, full),
            }
        }
    }
}

/// Give `amount` of `item` to the hands, spilling what will not fit: the
/// whole-sequence form of [`inv_add_spilling`].
fn give_items(
    inv: &mut [ItemStack; INV_SLOTS],
    spill: &mut [ItemStack; INV_SLOTS],
    item: u16,
    amount: u16,
    sm: u16,
    cm: u16,
) -> (added: u16)
    ensures
        ({
            let g = give(old(inv)@, old(spill)@, item, amount, sm, cm);
            &&& final(inv)@ == g.0
            &&& final(spill)@ == g.1
            &&& added as int == g.2
        }),
{
    let added = inv_add_spilling(inv, spill, item, amount, sm, cm);
    proof {
        let g = give(old(inv)@, old(spill)@, item, amount, sm, cm);
        assert(inv@ =~= g.0);
        assert(spill@ =~= g.1);
    }
    added
}

/// Pay a landed swing into the hands and wear the tool that made it.
fn pay_hands(
    gc: &GatherContent,
    def: &NodeDef,
    p: &mut Player,
    spill: &mut [ItemStack; INV_SLOTS],
    held: u16,
    full: u16,
    before: u32,
    after: u32,
    exhausted: bool,
    events: &mut EventQueue,
)
    requires
        (old(p).frame.sel as int) < INV_SLOTS,
        def.output != NO_ITEM && (def.output as int) < MAX_ITEM_DEFS,
        def.hits > 0,
        def.finish_pct <= 100,
        after <= def.hits as int * HIT_UNIT,
    ensures
        ({
            let h = paid_hands(*gc, *def, old(p).id, old(p).frame.sel as int, held, old(p).inv@, old(spill)@, full, before as int, after as int, exhausted);
            &&& final(p).inv@ == h.0
            &&& final(spill)@ == h.1
            &&& final(events)@ == old(events)@ + h.2
            &&& *final(p) == (Player { inv: final(p).inv, ..*old(p) })
        }),
{
    let sel = p.frame.sel as usize;
    let pay = swing_pay(full, def.hits, def.finish_pct, before, after, exhausted);
    let out = def.output;
    let added = give_items(&mut p.inv, spill, out, pay, gc.stack_max[out as usize], gc.cond_max[out as usize]);
    if pay > 0 {
        events.push(EV_GATHER, p.id, ((out as u32) << 16) | added as u32, 0);
    }
    let (sec_item, sec_pay) = def.secondary;
    if sec_item != NO_ITEM && (sec_item as usize) < MAX_ITEM_DEFS && sec_pay > 0 {
        let got = give_items(&mut p.inv, spill, sec_item, sec_pay, gc.stack_max[sec_item as usize], gc.cond_max[sec_item as usize]);
        events.push(EV_GATHER, p.id, ((sec_item as u32) << 16) | got as u32, 0);
    }
    let wear = def.wear_for(held);
    if wear > 0 {
        let s = p.inv[sel];
        p.inv[sel] = ItemStack { cond: if s.cond >= wear { s.cond - wear } else { 0 }, ..s };
    }
    let ghost h = paid_hands(*gc, *def, old(p).id, old(p).frame.sel as int, held, old(p).inv@, old(spill)@, full, before as int, after as int, exhausted);
    assert(events@ =~= old(events)@ + h.2);
    assert(p.inv@ =~= h.0);
}

/// The swing landing on slot record `i`, once the hand has been judged
/// and the record found.
#[verifier::rlimit(80)]
#[verifier::spinoff_prover]
fn strike(
    gc: &GatherContent,
    lives: &mut SlotLives,
    i: usize,
    events: &mut EventQueue,
    p: &mut Player,
    spill: &mut [ItemStack; INV_SLOTS],
    tick: u64,
    cx: u16,
    cz: u16,
    ni: usize,
    in_sector: bool,
    jitter: u64,
    next_mark: u8,
    impact: Option<(u32, u32, u32)>,
    held: u16,
    full: u16,
) -> (r: Swing)
    requires
        old(lives).wf(),
        i < old(lives)@.len(),
        ni < GATHERABLE_KINDS,
        (old(p).frame.sel as int) < INV_SLOTS,
        gc.nodes[ni as int].output != NO_ITEM && (gc.nodes[ni as int].output as int) < MAX_ITEM_DEFS,
        gc.nodes[ni as int].hits > 0,
        gc.nodes[ni as int].hits as int * HIT_UNIT <= u16::MAX,
        gc.nodes[ni as int].finish_pct <= 100,
        old(lives)@[i as int].hits as int <= gc.nodes[ni as int].hits as int * HIT_UNIT,
        tick as int + RESPAWN_MIN_TICKS + RESPAWN_RANGE_TICKS <= u64::MAX,
    ensures
        ({
            let l = strike_spec(*gc, old(lives)@, i as int, *old(p), old(spill)@, tick, cx, cz, ni as int, in_sector, jitter, next_mark, impact, held, full);
            &&& r == l.swing
            &&& final(lives)@ == l.lives
            &&& final(p).inv@ == l.inv
            &&& final(spill)@ == l.spill
            &&& final(events)@ == old(events)@ + l.events
            &&& *final(p) == (Player { inv: final(p).inv, ws_cell: l.ws_cell, ws_hits: l.ws_hits, ..*old(p) })
        }),
        final(lives).wf(),
{
    let ghost l = strike_spec(*gc, lives@, i as int, *p, spill@, tick, cx, cz, ni as int, in_sector, jitter, next_mark, impact, held, full);
    let def = gc.nodes[ni];
    let ck = cell_key(cx, cz);
    if p.ws_cell != ck {
        p.ws_cell = ck;
        p.ws_hits = 0;
    }
    let weak_hit = def.weak_pct > 0 && p.ws_hits > 0 && in_sector;
    p.ws_hits = if p.ws_hits < u16::MAX { p.ws_hits + 1 } else { u16::MAX };
    let budget: u32 = def.hits as u32 * HIT_UNIT;
    let want: u32 = if weak_hit { HIT_UNIT + def.weak_pct as u32 } else { HIT_UNIT };
    let life = lives.entries()[i];
    let before = life.hits as u32;
    let take = if want < budget - before { want } else { budget - before };
    let after = before + take;
    let exhausted = after >= budget;
    let respawn = if exhausted { tick + RESPAWN_MIN_TICKS + jitter % RESPAWN_RANGE_TICKS } else { life.respawn_at };
    lives.set_life(i, after as u16, respawn);
    let ghost ev0 = events@;
    match impact {
        Some(t) => events.push(EV_IMPACT, t.0, t.1, t.2),
        None => {},
    }
    pay_hands(gc, &def, p, spill, held, full, before, after, exhausted, events);
    if exhausted {
        events.push(EV_SLOT_HARVESTED, ck, (ni + 1) as u32, 0);
        p.ws_cell = NO_CELL;
        p.ws_hits = 0;
        assert(events@ =~= old(events)@ + l.events);
        return Swing::Absorbed;
    }
    if def.weak_pct > 0 {
        events.push(EV_WEAK_MARK, p.id, ck, (if weak_hit { 0x100u32 } else { 0u32 }) | next_mark as u32);
    }
    assert(events@ =~= old(events)@ + l.events);
    Swing::Absorbed
}

/// Land a swing on gather node row `ni` in cell `(cx, cz)` — the half of a
/// swing that follows the aim. The aim itself is geometry over the
/// scattered world's float positions and is the caller's: it hands in the
/// cell and row it picked, whether the swinger stands inside the current
/// weak-spot mark's sector (`in_sector`, false point-blank), the slot's
/// respawn jitter, the chase's next mark, and the blow's surface mark
/// (`impact`, as the event's fields) when the ray found the skin.
pub fn land_hit(
    gc: &GatherContent,
    lives: &mut SlotLives,
    events: &mut EventQueue,
    p: &mut Player,
    spill: &mut [ItemStack; INV_SLOTS],
    tick: u64,
    cx: u16,
    cz: u16,
    ni: usize,
    in_sector: bool,
    jitter: u64,
    next_mark: u8,
    impact: Option<(u32, u32, u32)>,
) -> (r: Swing)
    requires
        old(lives).wf(),
        ni < GATHERABLE_KINDS,
        (old(p).frame.sel as int) < INV_SLOTS,
        gc.nodes[ni as int].output != NO_ITEM && (gc.nodes[ni as int].output as int) < MAX_ITEM_DEFS ==> {
            &&& gc.nodes[ni as int].hits > 0
            &&& gc.nodes[ni as int].hits as int * HIT_UNIT <= u16::MAX
            &&& gc.nodes[ni as int].finish_pct <= 100
            &&& forall|j: int| 0 <= j < old(lives)@.len() && life_at(old(lives)@[j], cx, cz)
                ==> (#[trigger] old(lives)@[j]).hits as int <= gc.nodes[ni as int].hits as int * HIT_UNIT
            &&& tick as int + RESPAWN_MIN_TICKS + RESPAWN_RANGE_TICKS <= u64::MAX
        },
    ensures
        ({
            let l = land_spec(*gc, old(lives)@, *old(p), old(spill)@, tick, cx, cz, ni as int, in_sector, jitter, next_mark, impact);
            &&& r == l.swing
            &&& final(lives)@ == l.lives
            &&& final(p).inv@ == l.inv
            &&& final(spill)@ == l.spill
            &&& final(events)@ == old(events)@ + l.events
            &&& *final(p) == (Player { inv: final(p).inv, ws_cell: l.ws_cell, ws_hits: l.ws_hits, ..*old(p) })
        }),
        final(lives).wf(),
{
    let ghost l = land_spec(*gc, lives@, *p, spill@, tick, cx, cz, ni as int, in_sector, jitter, next_mark, impact);
    let ghost lives0 = lives@;
    let def = gc.nodes[ni];
    if def.output == NO_ITEM || def.output as usize >= MAX_ITEM_DEFS {
        assert(events@ =~= old(events)@ + l.events);
        return Swing::Free;
    }
    let sel = p.frame.sel as usize;
    let raw_held = if p.inv[sel].count > 0 { p.inv[sel].item } else { NO_ITEM };
    let held_dead = raw_held != NO_ITEM && p.inv[sel].cond == 0 && gc.cond_max_of(raw_held) > 0;
    let held = if held_dead { NO_ITEM } else { raw_held };
    let full = def.yield_for(held);
    if full == 0 {
        let why = if held_dead { REFUSE_G_BROKEN } else { REFUSE_G_TOOL };
        events.push(EV_GATHER_REFUSED, p.id, ((raw_held as u32) << 16) | why, 0);
        assert(events@ =~= old(events)@ + l.events);
        return Swing::Refused;
    }
    let i = match lives.find_or_insert(cx, cz) {
        Some(i) => i,
        None => {
            assert(events@ =~= old(events)@ + l.events);
            return Swing::Free;
        },
    };
    proof {
        if exists|j: int| 0 <= j < lives0.len() && life_at(lives0[j], cx, cz) {
            assert(lives@[i as int] == lives0[i as int]);
        }
    }
    strike(gc, lives, i, events, p, spill, tick, cx, cz, ni, in_sector, jitter, next_mark, impact, held, full)
}

/// The barrel's ordinal in the terrain's occupant list — what a smashed
/// barrel's harvest announcement names.
pub const OCCUPANT_BARREL: u32 = 7;

/// Swings a barrel takes to come apart: the barrel table's `hits`, or 0
/// when the table is inert.
pub open spec fn barrel_hits(lc: LootContent) -> u16 {
    if LOOT_BARREL < MAX_LOOT_TABLES && table_live(lc.tables[LOOT_BARREL as int]) {
        lc.tables[LOOT_BARREL as int].hits
    } else {
        0
    }
}

/// What a swing that landed on the barrel at `(cx, cz)` does: the verdict,
/// the slot records after it and what it announces. An inert barrel table
/// lets the arm go on; otherwise the swing counts against the slot's
/// record (refused, arm free, when the store has no room), and the swing
/// that reaches the barrel's hits harvests the slot until a jittered
/// respawn and breaks it open at `q`.
pub open spec fn smash_spec(
    lc: LootContent,
    lives: Seq<SlotLife>,
    tick: u64,
    cx: u16,
    cz: u16,
    jitter: u64,
    q: (i32, i32, i32),
) -> (Swing, Seq<SlotLife>, Seq<Event>) {
    let hits = barrel_hits(lc);
    if hits == 0 {
        (Swing::Free, lives, Seq::empty())
    } else {
        match slot_index(lives, cx, cz) {
            None => (Swing::Free, lives, Seq::empty()),
            Some(i) => {
                let mid = after_find(lives, cx, cz);
                let h = mid[i].hits + 1;
                if h < hits {
                    (Swing::Absorbed, mid.update(i, SlotLife { hits: h as u16, ..mid[i] }), Seq::empty())
                } else {
                    (
                        Swing::Smashed { cx, cz, qx: q.0, qy: q.1, qz: q.2 },
                        mid.update(
                            i,
                            SlotLife {
                                hits: h as u16,
                                respawn_at: (tick + RESPAWN_MIN_TICKS + jitter % RESPAWN_RANGE_TICKS) as u64,
                                ..mid[i]
                            },
                        ),
                        seq![Event { code: EV_SLOT_HARVESTED, a: spec_cell_key(cx, cz), b: OCCUPANT_BARREL, c: 0 }],
                    )
                }
            },
        }
    }
}

/// Land one swing on the barrel standing at `(cx, cz)`: see
/// [`smash_spec`]. A barrel has no weak spot, so aiming at one ends any
/// chase in progress (once the table is live). `jitter` is the respawn
/// draw for the slot and `q` the barrel's own position in quanta, where
/// its container stands once it breaks.
pub fn smash_hit(
    lc: &LootContent,
    lives: &mut SlotLives,
    p: &mut Player,
    events: &mut EventQueue,
    tick: u64,
    cx: u16,
    cz: u16,
    jitter: u64,
    q: (i32, i32, i32),
) -> (r: Swing)
    requires
        old(lives).wf(),
        forall|j: int| 0 <= j < old(lives)@.len() && life_at(old(lives)@[j], cx, cz)
            ==> (#[trigger] old(lives)@[j]).hits < u16::MAX,
        tick as int + RESPAWN_MIN_TICKS + RESPAWN_RANGE_TICKS <= u64::MAX,
    ensures
        final(lives).wf(),
        ({
            let sm = smash_spec(*lc, old(lives)@, tick, cx, cz, jitter, q);
            &&& r == sm.0
            &&& final(lives)@ == sm.1
            &&& final(events)@ == old(events)@ + sm.2
        }),
        *final(p) == (if barrel_hits(*lc) == 0 { *old(p) } else { Player { ws_cell: NO_CELL, ws_hits: 0, ..*old(p) } }),
{
    let hits = lc.hits(LOOT_BARREL);
    if hits == 0 {
        assert(events@ =~= old(events)@ + Seq::<Event>::empty());
        return Swing::Free;
    }
    p.ws_cell = NO_CELL;
    p.ws_hits = 0;
    let ghost lives0 = lives@;
    let i = match lives.find_or_insert(cx, cz) {
        Some(i) => i,
        None => {
            assert(events@ =~= old(events)@ + Seq::<Event>::empty());
            return Swing::Free;
        },
    };
    proof {
        if exists|j: int| 0 <= j < lives0.len() && life_at(lives0[j], cx, cz) {
            assert(lives@[i as int] == lives0[i as int]);
        }
    }
    let life = lives.entries()[i];
    let h = life.hits + 1;
    if h < hits {
        lives.set_life(i, h, life.respawn_at);
        assert(events@ =~= old(events)@ + Seq::<Event>::empty());
        return Swing::Absorbed;
    }
    let respawn = tick + RESPAWN_MIN_TICKS + jitter % RESPAWN_RANGE_TICKS;
    lives.set_life(i, h, respawn);
    events.push(EV_SLOT_HARVESTED, cell_key(cx, cz), OCCUPANT_BARREL, 0);
    Swing::Smashed { cx, cz, qx: q.0, qy: q.1, qz: q.2 }
}

/// What a landed swing at node row `ni` in cell `(cx, cz)` pays into the
/// hands: its share of the node between the budget spent before and after
/// it.
pub open spec fn landed_pay(
    gc: GatherContent,
    lives: Seq<SlotLife>,
    p: Player,
    cx: u16,
    cz: u16,
    ni: int,
    in_sector: bool,
) -> int {
    let def = gc.nodes[ni];
    let full = row_lookup(def.tools@, held_tool(p, gc), def.hand_yield);
    let mid = after_find(lives, cx, cz);
    let i = slot_index(lives, cx, cz)->0;
    let weak = def.weak_pct > 0 && chase_hits(p, spec_cell_key(cx, cz)) > 0 && in_sector;
    let before = mid[i].hits as int;
    let after = spent_after(def, before, weak);
    let exhausted = after >= def.hits as int * HIT_UNIT as int;
    min_int(pay_raw(full, def.hits, def.finish_pct, before, after, exhausted), u16::MAX as int)
}

/// Changing a slot's condition leaves every item's count alone.
proof fn lemma_count_ignores_cond(s: Seq<ItemStack>, j: int, cond: u16, item: u16, k: int)
    requires
        0 <= j < s.len(),
        0 <= k <= s.len(),
    ensures
        crate::craft::count_in(s.update(j, ItemStack { cond, ..s[j] }), item, k) == crate::craft::count_in(s, item, k),
    decreases k,
{
    if k > 0 {
        lemma_count_ignores_cond(s, j, cond, item, k - 1);
    }
}

/// The finisher's share of a node is never negative.
proof fn lemma_finisher_share_nonnegative(full: u16, hits: u16, finish_pct: u16)
    ensures
        node_total(full, hits) >= 0,
        node_total(full, hits) - node_pool(full, hits, finish_pct) >= 0,
{
    let t = node_total(full, hits);
    assert(t >= 0) by (nonlinear_arith)
        requires
            t == full as int * hits as int,
    ;
    let f = finish_pct as int;
    assert(t - t * (100 - f) / 100 >= 0) by (nonlinear_arith)
        requires
            t >= 0,
            0 <= f,
    ;
}

/// A landed swing hands over exactly its pay: the units of the node's
/// output in hand and spill together grow by [`landed_pay`], whichever
/// part reached the hand; [`law_a_run_of_swings_pays_exactly_the_node`]
/// sums it over a run. (A node that pays a second item on the side, and a
/// spill with no room for what the hand could not take, are left out.)
pub proof fn law_a_landed_swing_hands_over_its_pay(
    gc: GatherContent,
    lives: Seq<SlotLife>,
    p: Player,
    spill: Seq<ItemStack>,
    tick: u64,
    cx: u16,
    cz: u16,
    ni: int,
    in_sector: bool,
    jitter: u64,
    next_mark: u8,
    impact: Option<(u32, u32, u32)>,
)
    requires
        0 <= ni < GATHERABLE_KINDS,
        gc.nodes[ni].output != NO_ITEM,
        (gc.nodes[ni].output as int) < MAX_ITEM_DEFS,
        row_lookup(gc.nodes[ni].tools@, held_tool(p, gc), gc.nodes[ni].hand_yield) > 0,
        slot_index(lives, cx, cz) is Some,
        (p.frame.sel as int) < INV_SLOTS,
        spill.len() == INV_SLOTS,
        !(gc.nodes[ni].secondary.0 != NO_ITEM && (gc.nodes[ni].secondary.0 as int) < MAX_ITEM_DEFS
            && gc.nodes[ni].secondary.1 > 0),
        ({
            let out = gc.nodes[ni].output;
            let sm = gc.stack_max[out as int];
            let lost = inv_add_lost(p.inv@, out, landed_pay(gc, lives, p, cx, cz, ni, in_sector) as u16, sm);
            lost > 0 ==> inv_add_lost(spill, out, lost as u16, sm) == 0
        }),
    ensures
        ({
            let l = land_spec(gc, lives, p, spill, tick, cx, cz, ni, in_sector, jitter, next_mark, impact);
            let out = gc.nodes[ni].output;
            crate::craft::count_in(l.inv, out, INV_SLOTS as int) + crate::craft::count_in(l.spill, out, INV_SLOTS as int)
                == crate::craft::count_in(p.inv@, out, INV_SLOTS as int) + crate::craft::count_in(spill, out, INV_SLOTS as int)
                + landed_pay(gc, lives, p, cx, cz, ni, in_sector)
        }),
{
    let def = gc.nodes[ni];
    let out = def.output;
    let sm = gc.stack_max[out as int];
    let cm = gc.cond_max[out as int];
    let pay = landed_pay(gc, lives, p, cx, cz, ni, in_sector);
    let other: u16 = if out == 0 { 1 } else { 0 };
    let inv = p.inv@;
    let full = row_lookup(def.tools@, held_tool(p, gc), def.hand_yield);
    lemma_finisher_share_nonnegative(full, def.hits, def.finish_pct);
    assert(0 <= pay <= u16::MAX);
    law_inv_add_conserves(inv, out, pay as u16, sm, cm, other);
    let lost = inv_add_lost(inv, out, pay as u16, sm);
    if lost > 0 {
        law_inv_add_conserves(spill, out, lost as u16, sm, cm, other);
    }
    let g1 = give(inv, spill, out, pay as u16, sm, cm);
    let held = held_tool(p, gc);
    let wear = row_lookup(def.wear@, held, 0);
    let sel = p.frame.sel as int;
    if wear > 0 {
        let c = (if g1.0[sel].cond >= wear { g1.0[sel].cond - wear } else { 0 }) as u16;
        lemma_count_ignores_cond(g1.0, sel, c, out, INV_SLOTS as int);
    }
}


/// The budget spent on the record for cell `(cx, cz)`, or none when the
/// cell has no record.
pub open spec fn spent_on(lives: Seq<SlotLife>, cx: u16, cz: u16) -> int {
    if exists|j: int| 0 <= j < lives.len() && life_at(lives[j], cx, cz) {
        lives[choose|j: int| 0 <= j < lives.len() && life_at(lives[j], cx, cz)].hits as int
    } else {
        0
    }
}

/// At most one record speaks for cell `(cx, cz)`.
pub open spec fn one_record(lives: Seq<SlotLife>, cx: u16, cz: u16) -> bool {
    forall|a: int, b: int|
        #![trigger life_at(lives[a], cx, cz), life_at(lives[b], cx, cz)]
        0 <= a < lives.len() && 0 <= b < lives.len() && life_at(lives[a], cx, cz) && life_at(lives[b], cx, cz)
            ==> a == b
}

/// Wherever a harvested-free record exists, some record is the eviction
/// pick.
proof fn lemma_eviction_pick_exists(s: Seq<SlotLife>)
    requires
        exists|j: int| 0 <= j < s.len() && s[j].respawn_at == 0,
    ensures
        exists|i: int| is_eviction_pick(s, i),
    decreases s.len(),
{
    let n = s.len() - 1;
    let t = s.drop_last();
    if exists|j: int| 0 <= j < t.len() && t[j].respawn_at == 0 {
        lemma_eviction_pick_exists(t);
        let q = choose|i: int| is_eviction_pick(t, i);
        assert forall|j: int| 0 <= j < n implies #[trigger] s[j] == t[j] by {}
        if s[n].respawn_at == 0 && s[n].hits < t[q].hits {
            assert forall|j: int| 0 <= j < s.len() && s[j].respawn_at == 0 implies s[n].hits <= s[j].hits by {
                if j < n {
                    assert(t[j].respawn_at == 0);
                }
            }
            assert forall|j: int| 0 <= j < n && s[j].respawn_at == 0 implies s[n].hits < s[j].hits by {
                assert(t[j].respawn_at == 0);
            }
            assert(is_eviction_pick(s, n));
        } else {
            assert forall|j: int| 0 <= j < s.len() && s[j].respawn_at == 0 implies s[q].hits <= s[j].hits by {
                if j < n {
                    assert(t[j].respawn_at == 0);
                }
            }
            assert forall|j: int| 0 <= j < q && s[j].respawn_at == 0 implies s[q].hits < s[j].hits by {
                assert(t[j].respawn_at == 0);
            }
            assert(is_eviction_pick(s, q));
        }
    } else {
        assert forall|j: int| 0 <= j < n implies #[trigger] s[j] == t[j] by {}
        assert(s[n].respawn_at == 0);
        assert forall|j: int| 0 <= j < n implies s[j].respawn_at != 0 by {
            assert(t[j] == s[j]);
        }
        assert(is_eviction_pick(s, n));
    }
}

/// One landed swing, as seen from the cell's record: the record stays the
/// cell's only one, its spent budget moves on by [`spent_after`], and the
/// swing's pay is the share between the two.
#[verifier::spinoff_prover]
proof fn lemma_swing_step(
    gc: GatherContent,
    lives: Seq<SlotLife>,
    p: Player,
    spill: Seq<ItemStack>,
    tick: u64,
    cx: u16,
    cz: u16,
    ni: int,
    in_sector: bool,
    jitter: u64,
    next_mark: u8,
    impact: Option<(u32, u32, u32)>,
)
    requires
        0 <= ni < GATHERABLE_KINDS,
        gc.nodes[ni].output != NO_ITEM,
        (gc.nodes[ni].output as int) < MAX_ITEM_DEFS,
        row_lookup(gc.nodes[ni].tools@, held_tool(p, gc), gc.nodes[ni].hand_yield) > 0,
        gc.nodes[ni].hits as int * HIT_UNIT as int <= u16::MAX,
        slot_index(lives, cx, cz) is Some,
        one_record(lives, cx, cz),
    ensures
        ({
            let def = gc.nodes[ni];
            let l = land_spec(gc, lives, p, spill, tick, cx, cz, ni, in_sector, jitter, next_mark, impact);
            let weak = def.weak_pct > 0 && chase_hits(p, spec_cell_key(cx, cz)) > 0 && in_sector;
            let before = spent_on(lives, cx, cz);
            let after = spent_on(l.lives, cx, cz);
            let full = row_lookup(def.tools@, held_tool(p, gc), def.hand_yield);
            &&& one_record(l.lives, cx, cz)
            &&& exists|j: int| 0 <= j < l.lives.len() && life_at(l.lives[j], cx, cz)
            &&& after == spent_after(def, before, weak)
            &&& 0 <= after <= def.hits as int * HIT_UNIT as int
            &&& landed_pay(gc, lives, p, cx, cz, ni, in_sector) == min_int(
                pay_raw(full, def.hits, def.finish_pct, before, after, after >= def.hits as int * HIT_UNIT as int),
                u16::MAX as int,
            )
        }),
{
    let def = gc.nodes[ni];
    let budget = def.hits as int * HIT_UNIT as int;
    let i = slot_index(lives, cx, cz)->0;
    let mid = after_find(lives, cx, cz);
    let l = land_spec(gc, lives, p, spill, tick, cx, cz, ni, in_sector, jitter, next_mark, impact);
    let weak = def.weak_pct > 0 && chase_hits(p, spec_cell_key(cx, cz)) > 0 && in_sector;
    if exists|j: int| 0 <= j < lives.len() && life_at(lives[j], cx, cz) {
        assert(mid == lives);
        assert(spent_on(lives, cx, cz) == mid[i].hits);
    } else if lives.len() < MAX_SLOT_LIVES {
        assert(i == lives.len());
        assert(mid[i] == fresh_life(cx, cz));
        assert forall|a: int, b: int|
            0 <= a < mid.len() && 0 <= b < mid.len() && life_at(mid[a], cx, cz) && life_at(mid[b], cx, cz)
            implies a == b by {
            if a != i {
                assert(mid[a] == lives[a]);
            }
            if b != i {
                assert(mid[b] == lives[b]);
            }
        }
    } else {
        lemma_eviction_pick_exists(lives);
        let e = choose|j: int| is_eviction_pick(lives, j);
        assert(i == e);
        assert(0 <= e < lives.len());
        assert(mid == lives.update(e, fresh_life(cx, cz)));
        assert forall|a: int, b: int|
            0 <= a < mid.len() && 0 <= b < mid.len() && life_at(mid[a], cx, cz) && life_at(mid[b], cx, cz)
            implies a == b by {
            if a != i {
                assert(mid[a] == lives[a]);
            }
            if b != i {
                assert(mid[b] == lives[b]);
            }
        }
    }
    assert(0 <= i < mid.len());
    assert(life_at(mid[i], cx, cz));
    assert(one_record(mid, cx, cz));
    assert(mid[i].hits as int == spent_on(lives, cx, cz));
    let before = mid[i].hits as int;
    let after = spent_after(def, before, weak);
    assert(0 <= after <= budget);
    let new = mid.update(i, SlotLife { cx: mid[i].cx, cz: mid[i].cz, hits: after as u16, respawn_at: l.lives[i].respawn_at });
    assert(l.lives == new);
    assert(life_at(new[i], cx, cz));
    assert forall|a: int, b: int|
        0 <= a < new.len() && 0 <= b < new.len() && life_at(new[a], cx, cz) && life_at(new[b], cx, cz)
        implies a == b by {
        if a != i {
            assert(new[a] == mid[a]);
        }
        if b != i {
            assert(new[b] == mid[b]);
        }
        assert(life_at(mid[a], cx, cz));
        assert(life_at(mid[b], cx, cz));
    }
    let c = choose|j: int| 0 <= j < new.len() && life_at(new[j], cx, cz);
    assert(c == i);
}


/// A swing's pay never exceeds the node's whole payout.
proof fn lemma_pay_within_total(full: u16, hits: u16, finish_pct: u16, before: int, after: int, exhausted: bool)
    requires
        hits > 0,
        finish_pct <= 100,
        0 <= before <= after <= hits as int * HIT_UNIT as int,
    ensures
        0 <= pay_raw(full, hits, finish_pct, before, after, exhausted) <= node_total(full, hits),
{
    let budget = hits as int * HIT_UNIT as int;
    let t = node_total(full, hits);
    let pool = node_pool(full, hits, finish_pct);
    let f = finish_pct as int;
    assert(t >= 0) by (nonlinear_arith)
        requires
            t == full as int * hits as int,
    ;
    assert(0 <= t * (100 - f) / 100 <= t) by (nonlinear_arith)
        requires
            t >= 0,
            0 <= f <= 100,
    ;
    assert(pool * after <= pool * budget) by (nonlinear_arith)
        requires
            after <= budget,
            pool >= 0,
    ;
    vstd::arithmetic::div_mod::lemma_div_is_ordered(pool * after, pool * budget, budget);
    vstd::arithmetic::div_mod::lemma_div_multiples_vanish(pool, budget);
    assert(pool * budget == budget * pool) by (nonlinear_arith);
    assert(pool * before >= 0) by (nonlinear_arith)
        requires
            pool >= 0,
            before >= 0,
    ;
    vstd::arithmetic::div_mod::lemma_div_pos_is_pos(pool * before, budget);
}

/// The arguments of one swing of a run that are not its state: the tick,
/// whether the aim fell in the weak-spot sector, the respawn jitter, the
/// next weak-spot mark, and the impact to announce.
pub type SwingDraw = (u64, bool, u64, u8, Option<(u32, u32, u32)>);

/// Swing `k` of a run on the node of row `ni` in cell `(cx, cz)`: the
/// `k`-th state's hand, spill and slot records go by [`land_spec`] to the
/// next state's, with the same tool yield as the run's first swing and a
/// spill with room for what the hand cannot take; the run ends on the
/// swing that exhausts the node.
#[verifier::opaque]
pub open spec fn run_swing(
    gc: GatherContent,
    cx: u16,
    cz: u16,
    ni: int,
    ls: Seq<Seq<SlotLife>>,
    ps: Seq<Player>,
    sps: Seq<Seq<ItemStack>>,
    draws: Seq<SwingDraw>,
    k: int,
) -> bool {
    let def = gc.nodes[ni];
    let d = draws[k];
    let l = land_spec(gc, ls[k], ps[k], sps[k], d.0, cx, cz, ni, d.1, d.2, d.3, d.4);
    let out = def.output;
    let sm = gc.stack_max[out as int];
    let lost = inv_add_lost(ps[k].inv@, out, landed_pay(gc, ls[k], ps[k], cx, cz, ni, d.1) as u16, sm);
    &&& (ps[k].frame.sel as int) < INV_SLOTS
    &&& sps[k].len() == INV_SLOTS
    &&& row_lookup(def.tools@, held_tool(ps[k], gc), def.hand_yield) == row_lookup(
        def.tools@,
        held_tool(ps[0], gc),
        def.hand_yield,
    )
    &&& (lost > 0 ==> inv_add_lost(sps[k], out, lost as u16, sm) == 0)
    &&& ls[k + 1] == l.lives
    &&& ps[k + 1].inv@ == l.inv
    &&& sps[k + 1] == l.spill
    &&& (spent_on(l.lives, cx, cz) >= def.hits as int * HIT_UNIT as int) == (k == draws.len() - 1)
}

/// One swing of a run, in terms of the cell's spent budget and the output
/// held.
#[verifier::spinoff_prover]
proof fn lemma_run_step(
    gc: GatherContent,
    cx: u16,
    cz: u16,
    ni: int,
    ls: Seq<Seq<SlotLife>>,
    ps: Seq<Player>,
    sps: Seq<Seq<ItemStack>>,
    draws: Seq<SwingDraw>,
    j: int,
)
    requires
        0 <= ni < GATHERABLE_KINDS,
        gc.nodes[ni].output != NO_ITEM,
        (gc.nodes[ni].output as int) < MAX_ITEM_DEFS,
        !(gc.nodes[ni].secondary.0 != NO_ITEM && (gc.nodes[ni].secondary.0 as int) < MAX_ITEM_DEFS
            && gc.nodes[ni].secondary.1 > 0),
        gc.nodes[ni].hits > 0,
        gc.nodes[ni].finish_pct <= 100,
        gc.nodes[ni].hits as int * HIT_UNIT as int <= u16::MAX,
        row_lookup(gc.nodes[ni].tools@, held_tool(ps[0], gc), gc.nodes[ni].hand_yield) > 0,
        node_total(row_lookup(gc.nodes[ni].tools@, held_tool(ps[0], gc), gc.nodes[ni].hand_yield), gc.nodes[ni].hits)
            <= u16::MAX,
        ls.len() == draws.len() + 1,
        ps.len() == draws.len() + 1,
        sps.len() == draws.len() + 1,
        0 <= j < draws.len(),
        run_swing(gc, cx, cz, ni, ls, ps, sps, draws, j),
        one_record(ls[j], cx, cz),
        slot_index(ls[j], cx, cz) is Some,
        spent_on(ls[j], cx, cz) < gc.nodes[ni].hits as int * HIT_UNIT as int,
    ensures
        ({
            let def = gc.nodes[ni];
            let budget = def.hits as int * HIT_UNIT as int;
            let full = row_lookup(def.tools@, held_tool(ps[0], gc), def.hand_yield);
            let before = spent_on(ls[j], cx, cz);
            let after = spent_on(ls[j + 1], cx, cz);
            &&& one_record(ls[j + 1], cx, cz)
            &&& slot_index(ls[j + 1], cx, cz) is Some
            &&& before < after <= budget
            &&& (after >= budget) == (j == draws.len() - 1)
            &&& output_held(ps[j + 1].inv@, sps[j + 1], def.output) == output_held(ps[j].inv@, sps[j], def.output)
                + pay_raw(full, def.hits, def.finish_pct, before, after, after >= budget)
        }),
{
    reveal(run_swing);
    let def = gc.nodes[ni];
    let budget = def.hits as int * HIT_UNIT as int;
    let full = row_lookup(def.tools@, held_tool(ps[0], gc), def.hand_yield);
    let d = draws[j];
    lemma_swing_step(gc, ls[j], ps[j], sps[j], d.0, cx, cz, ni, d.1, d.2, d.3, d.4);
    law_a_landed_swing_hands_over_its_pay(gc, ls[j], ps[j], sps[j], d.0, cx, cz, ni, d.1, d.2, d.3, d.4);
    let before = spent_on(ls[j], cx, cz);
    let after = spent_on(ls[j + 1], cx, cz);
    lemma_pay_within_total(full, def.hits, def.finish_pct, before, after, after >= budget);
}

/// The budget spent on the cell's record at each state of a run.
pub open spec fn spent_run(ls: Seq<Seq<SlotLife>>, cx: u16, cz: u16) -> Seq<int> {
    Seq::new(ls.len(), |j: int| spent_on(ls[j], cx, cz))
}

/// Units of `out` in hand and spill together.
pub open spec fn output_held(inv: Seq<ItemStack>, spill: Seq<ItemStack>, out: u16) -> int {
    crate::craft::count_in(inv, out, INV_SLOTS as int) + crate::craft::count_in(spill, out, INV_SLOTS as int)
}

/// The run's facts through its `k`-th state.
#[verifier::spinoff_prover]
#[verifier::rlimit(40)]
proof fn lemma_run_prefix(
    gc: GatherContent,
    cx: u16,
    cz: u16,
    ni: int,
    ls: Seq<Seq<SlotLife>>,
    ps: Seq<Player>,
    sps: Seq<Seq<ItemStack>>,
    draws: Seq<SwingDraw>,
    k: int,
)
    requires
        0 <= ni < GATHERABLE_KINDS,
        gc.nodes[ni].output != NO_ITEM,
        (gc.nodes[ni].output as int) < MAX_ITEM_DEFS,
        !(gc.nodes[ni].secondary.0 != NO_ITEM && (gc.nodes[ni].secondary.0 as int) < MAX_ITEM_DEFS
            && gc.nodes[ni].secondary.1 > 0),
        gc.nodes[ni].hits > 0,
        gc.nodes[ni].finish_pct <= 100,
        gc.nodes[ni].hits as int * HIT_UNIT as int <= u16::MAX,
        row_lookup(gc.nodes[ni].tools@, held_tool(ps[0], gc), gc.nodes[ni].hand_yield) > 0,
        node_total(row_lookup(gc.nodes[ni].tools@, held_tool(ps[0], gc), gc.nodes[ni].hand_yield), gc.nodes[ni].hits)
            <= u16::MAX,
        draws.len() >= 1,
        ls.len() == draws.len() + 1,
        ps.len() == draws.len() + 1,
        sps.len() == draws.len() + 1,
        forall|j: int| 0 <= j < ls[0].len() ==> !life_at(#[trigger] ls[0][j], cx, cz),
        slot_index(ls[0], cx, cz) is Some,
        forall|j: int| 0 <= j < draws.len() ==> #[trigger] run_swing(gc, cx, cz, ni, ls, ps, sps, draws, j),
        0 <= k <= draws.len(),
    ensures
        ({
            let def = gc.nodes[ni];
            let s = spent_run(ls, cx, cz);
            let budget = def.hits as int * HIT_UNIT as int;
            let full = row_lookup(def.tools@, held_tool(ps[0], gc), def.hand_yield);
            &&& one_record(ls[k], cx, cz)
            &&& slot_index(ls[k], cx, cz) is Some
            &&& s[0] == 0
            &&& 0 <= s[k] <= budget
            &&& (k < draws.len() ==> s[k] < budget)
            &&& forall|j: int| 0 <= j < k ==> #[trigger] s[j] < s[j + 1]
            &&& output_held(ps[k].inv@, sps[k], def.output) == output_held(ps[0].inv@, sps[0], def.output)
                + paid_through(full, def.hits, def.finish_pct, s, k)
        }),
    decreases k,
{
    let def = gc.nodes[ni];
    let s = spent_run(ls, cx, cz);
    let budget = def.hits as int * HIT_UNIT as int;
    let full = row_lookup(def.tools@, held_tool(ps[0], gc), def.hand_yield);
    let n = draws.len();
    assert(s[0] == spent_on(ls[0], cx, cz));
    assert(!(exists|j: int| 0 <= j < ls[0].len() && life_at(ls[0][j], cx, cz)));
    assert(s[0] == 0);
    assert(budget > 0);
    if k == 0 {
        assert(paid_through(full, def.hits, def.finish_pct, s, 0) == 0);
    } else {
        lemma_run_prefix(gc, cx, cz, ni, ls, ps, sps, draws, k - 1);
        let j = k - 1;
        assert(s[j] == spent_on(ls[j], cx, cz));
        assert(s[k] == spent_on(ls[k], cx, cz));
        lemma_run_step(gc, cx, cz, ni, ls, ps, sps, draws, j);
        assert(paid_through(full, def.hits, def.finish_pct, s, k) == paid_through(full, def.hits, def.finish_pct, s, j)
            + pay_raw(full, def.hits, def.finish_pct, s[j], s[k], s[k] >= budget));
    }
}

/// A run on a cell that the slot store has no room for never starts: every
/// swing leaves the records as they were.
proof fn lemma_run_stuck(
    gc: GatherContent,
    cx: u16,
    cz: u16,
    ni: int,
    ls: Seq<Seq<SlotLife>>,
    ps: Seq<Player>,
    sps: Seq<Seq<ItemStack>>,
    draws: Seq<SwingDraw>,
    k: int,
)
    requires
        0 <= ni < GATHERABLE_KINDS,
        ls.len() == draws.len() + 1,
        slot_index(ls[0], cx, cz) is None,
        forall|j: int| 0 <= j < draws.len() ==> #[trigger] run_swing(gc, cx, cz, ni, ls, ps, sps, draws, j),
        0 <= k <= draws.len(),
    ensures
        ls[k] == ls[0],
    decreases k,
{
    if k > 0 {
        lemma_run_stuck(gc, cx, cz, ni, ls, ps, sps, draws, k - 1);
        reveal(run_swing);
        assert(run_swing(gc, cx, cz, ni, ls, ps, sps, draws, k - 1));
    }
}

/// A run of landed swings that takes a cell's node from no record to
/// harvested hands over exactly the node's whole payout — its yield for
/// the tool in hand times its hits — counted in hand and spill together,
/// whichever swings struck the weak spot: a marked swing only ends the run
/// sooner. (The tool's yield holds through the run, the node pays no
/// second item on the side, and the spill always has room; the run's last
/// swing is the one that exhausts the node. The row's budget fits a spent
/// count and its finish share is a share, as every swing at a live row
/// requires.)
pub proof fn law_a_run_of_swings_pays_exactly_the_node(
    gc: GatherContent,
    cx: u16,
    cz: u16,
    ni: int,
    ls: Seq<Seq<SlotLife>>,
    ps: Seq<Player>,
    sps: Seq<Seq<ItemStack>>,
    draws: Seq<SwingDraw>,
)
    requires
        0 <= ni < GATHERABLE_KINDS,
        gc.nodes[ni].output != NO_ITEM,
        (gc.nodes[ni].output as int) < MAX_ITEM_DEFS,
        !(gc.nodes[ni].secondary.0 != NO_ITEM && (gc.nodes[ni].secondary.0 as int) < MAX_ITEM_DEFS
            && gc.nodes[ni].secondary.1 > 0),
        gc.nodes[ni].hits > 0,
        gc.nodes[ni].finish_pct <= 100,
        gc.nodes[ni].hits as int * HIT_UNIT as int <= u16::MAX,
        row_lookup(gc.nodes[ni].tools@, held_tool(ps[0], gc), gc.nodes[ni].hand_yield) > 0,
        node_total(row_lookup(gc.nodes[ni].tools@, held_tool(ps[0], gc), gc.nodes[ni].hand_yield), gc.nodes[ni].hits)
            <= u16::MAX,
        draws.len() >= 1,
        ls.len() == draws.len() + 1,
        ps.len() == draws.len() + 1,
        sps.len() == draws.len() + 1,
        forall|j: int| 0 <= j < ls[0].len() ==> !life_at(#[trigger] ls[0][j], cx, cz),
        forall|j: int| 0 <= j < draws.len() ==> #[trigger] run_swing(gc, cx, cz, ni, ls, ps, sps, draws, j),
    ensures
        ({
            let def = gc.nodes[ni];
            let n = draws.len() as int;
            output_held(ps[n].inv@, sps[n], def.output) == output_held(ps[0].inv@, sps[0], def.output) + node_total(
                row_lookup(def.tools@, held_tool(ps[0], gc), def.hand_yield),
                def.hits,
            )
        }),
{
    let def = gc.nodes[ni];
    let n = draws.len() as int;
    let s = spent_run(ls, cx, cz);
    let budget = def.hits as int * HIT_UNIT as int;
    let full = row_lookup(def.tools@, held_tool(ps[0], gc), def.hand_yield);
    if slot_index(ls[0], cx, cz) is None {
        lemma_run_stuck(gc, cx, cz, ni, ls, ps, sps, draws, n);
        reveal(run_swing);
        assert(run_swing(gc, cx, cz, ni, ls, ps, sps, draws, n - 1));
        assert(!(exists|j: int| 0 <= j < ls[n].len() && life_at(ls[n][j], cx, cz)));
        assert(false);
    }
    lemma_run_prefix(gc, cx, cz, ni, ls, ps, sps, draws, n - 1);
    lemma_run_prefix(gc, cx, cz, ni, ls, ps, sps, draws, n);
    assert(s[n - 1] == spent_on(ls[n - 1], cx, cz));
    assert(s[n] == spent_on(ls[n], cx, cz));
    lemma_run_step(gc, cx, cz, ni, ls, ps, sps, draws, n - 1);
    assert(s[n] == budget);
    law_a_node_pays_exactly_its_total(full, def.hits, def.finish_pct, s);
}

} // verus!
