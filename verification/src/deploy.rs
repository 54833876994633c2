//! Deployables — the things a player places on the world: bags, hearths,
//! boxes, fires, benches, doors, and the lock a door or a box can carry.
//!
//! The store is dense and swap-removed. A hearth's claim and stock, a
//! box's contents and a lock's lists live in side-stores keyed by the
//! deployable's grid address; `DeployRec` carries only what the wire
//! mirrors (its `has_lock`/`locked` bits are mirrors of the lock store,
//! kept in lockstep by every lock verb).
use vstd::prelude::*;

use crate::gather::{added_slot, cell_key, inv_add_lost, min_int, sat, spec_cell_key, table_of, GatherContent, ItemStack};
use crate::limits::{
    BOX_SLOTS, HEARTH_CREW_CAP, HEARTH_STOCK_ROWS, INV_SLOTS, MAX_BOXES, MAX_BOX_SPILL_PER_TICK,
    MAX_BUILD_COORD, MAX_BUILD_LEVELS, MAX_DEPLOYS, MAX_DEPLOY_COSTS, MAX_DEPLOY_DEFS, MAX_HEARTHS, MAX_LOCKS,
};
use crate::lock::{self, LockModel, LockRec, Locks, Outcome};
use crate::roster::{Added, Roster};
use crate::world::{
    Event, EventQueue, Player, EV_AUTH, EV_DEPLOY_PLACED, EV_DEPLOY_REFUSED, EV_DEPLOY_REMOVED, EV_DOOR, EV_HEALTH,
    EV_KNOCK, EV_STOCK, EV_STRUCT_HIT, STRUCT_DEPLOY_BIT,
};
use crate::craft::{count_in, inv_count, inv_take, taken};

verus! {

pub const ARCH_BAG: u8 = 0;
pub const ARCH_HEARTH: u8 = 1;
pub const ARCH_BOX: u8 = 2;
pub const ARCH_FIRE: u8 = 3;
pub const ARCH_FURNACE: u8 = 4;
pub const ARCH_WORKBENCH: u8 = 5;
pub const ARCH_DOOR: u8 = 6;
pub const ARCH_LOCK: u8 = 7;
pub const ARCH_RECYCLER: u8 = 8;
pub const ARCH_RESEARCH: u8 = 9;
pub const ARCH_WORKBENCH2: u8 = 10;
pub const ARCH_WORKBENCH3: u8 = 11;

/// The lock ops, in the order the wire numbers them.
pub const ACCESS_OP_SET_CODE: u8 = 0;
pub const ACCESS_OP_SET_GUEST: u8 = 1;
pub const ACCESS_OP_ENTER: u8 = 2;
pub const ACCESS_OP_LOCK: u8 = 3;
pub const ACCESS_OP_UNLOCK: u8 = 4;
pub const ACCESS_OP_TAKE: u8 = 5;
/// The hearth-crew ops share the field.
pub const ACCESS_OP_CREW_JOIN: u8 = 6;
pub const ACCESS_OP_CREW_LEAVE: u8 = 7;
pub const ACCESS_OP_CREW_CLEAR: u8 = 8;
pub const ACCESS_OP_MAX: u8 = ACCESS_OP_CREW_CLEAR;

/// Whether an access op is a hearth-crew op rather than a lock op.
pub fn op_is_crew(op: u8) -> (b: bool)
    ensures
        b == (op == ACCESS_OP_CREW_JOIN || op == ACCESS_OP_CREW_LEAVE || op == ACCESS_OP_CREW_CLEAR),
{
    op == ACCESS_OP_CREW_JOIN || op == ACCESS_OP_CREW_LEAVE || op == ACCESS_OP_CREW_CLEAR
}

/// Whether an archetype owns a box record (a store, or a converter).
pub open spec fn spec_holds_items(arch: u8) -> bool {
    arch == ARCH_BOX || arch == ARCH_FIRE || arch == ARCH_FURNACE || arch == ARCH_RECYCLER
}

/// Whether an archetype owns a box record.
pub fn holds_items(arch: u8) -> (b: bool)
    ensures
        b == spec_holds_items(arch),
{
    arch == ARCH_BOX || arch == ARCH_FIRE || arch == ARCH_FURNACE || arch == ARCH_RECYCLER
}

/// The bench tier an archetype grants: 1..=3 for the workbenches, 0 for
/// everything else.
pub fn bench_tier(arch: u8) -> (t: u8)
    ensures
        t == (if arch == ARCH_WORKBENCH {
            1u8
        } else if arch == ARCH_WORKBENCH2 {
            2u8
        } else if arch == ARCH_WORKBENCH3 {
            3u8
        } else {
            0u8
        }),
{
    if arch == ARCH_WORKBENCH {
        1
    } else if arch == ARCH_WORKBENCH2 {
        2
    } else if arch == ARCH_WORKBENCH3 {
        3
    } else {
        0
    }
}

/// Whether a code lock can be bolted onto an archetype: a door or a box.
pub open spec fn spec_lockable(arch: u8) -> bool {
    arch == ARCH_DOOR || arch == ARCH_BOX
}

/// Whether a code lock can be bolted onto an archetype.
pub fn lockable(arch: u8) -> (b: bool)
    ensures
        b == spec_lockable(arch),
{
    arch == ARCH_DOOR || arch == ARCH_BOX
}

fn arch_is_door(arch: u8) -> (b: bool)
    ensures
        b == (arch == ARCH_DOOR),
{
    arch == ARCH_DOOR
}

pub const PLACE_GROUND: u8 = 0;
pub const PLACE_FOUNDATION: u8 = 1;
pub const PLACE_DOORWAY: u8 = 2;
pub const PLACE_ANY: u8 = 3;
pub const PLACE_DOOR: u8 = 4;

/// Where in a cell a deployable stands: on its plane, or on its low-x or
/// low-z edge (a doorway's).
pub const LOC_PLANE: u8 = 0;
pub const LOC_EDGE_XLO: u8 = 1;
pub const LOC_EDGE_ZLO: u8 = 2;

/// Whether `loc` is the kind of slot the placement class occupies: a
/// doorway's edge for a door, an edge or the plane for a lock (a door or a
/// box is what it bolts to), the plane for everything else.
pub open spec fn spec_loc_fits(placement: u8, loc: u8) -> bool {
    if placement == PLACE_DOORWAY {
        loc == LOC_EDGE_XLO || loc == LOC_EDGE_ZLO
    } else if placement == PLACE_DOOR {
        loc == LOC_EDGE_XLO || loc == LOC_EDGE_ZLO || loc == LOC_PLANE
    } else if placement == PLACE_GROUND || placement == PLACE_FOUNDATION || placement == PLACE_ANY {
        loc == LOC_PLANE
    } else {
        false
    }
}

/// Whether `loc` is the kind of slot the placement class occupies.
pub fn loc_fits_placement(placement: u8, loc: u8) -> (b: bool)
    ensures
        b == spec_loc_fits(placement, loc),
{
    match placement {
        PLACE_DOORWAY => loc == LOC_EDGE_XLO || loc == LOC_EDGE_ZLO,
        PLACE_DOOR => loc == LOC_EDGE_XLO || loc == LOC_EDGE_ZLO || loc == LOC_PLANE,
        PLACE_GROUND | PLACE_FOUNDATION | PLACE_ANY => loc == LOC_PLANE,
        _ => false,
    }
}

pub const REFUSE_D_KIND: u32 = 0;
pub const REFUSE_D_SPOT: u32 = 1;
pub const REFUSE_D_SUPPORT: u32 = 2;
pub const REFUSE_D_TERRAIN: u32 = 3;
pub const REFUSE_D_REACH: u32 = 4;
pub const REFUSE_D_COST: u32 = 5;
pub const REFUSE_D_FULL: u32 = 6;
pub const REFUSE_D_CLAIM: u32 = 7;
pub const REFUSE_D_OVERLAP: u32 = 8;
pub const REFUSE_D_BAG_CAP: u32 = 9;
pub const REFUSE_D_HEARTH: u32 = 10;
/// No door (or no lockable deployable) at the named address.
pub const REFUSE_D_DOOR: u32 = 11;
/// The hand's rights are not enough.
pub const REFUSE_D_OWNER: u32 = 12;
pub const REFUSE_D_FUEL: u32 = 13;
/// A lock op at an address with no lock.
pub const REFUSE_D_NO_LOCK: u32 = 14;
pub const REFUSE_D_HAS_LOCK: u32 = 15;
/// A wrong code.
pub const REFUSE_D_CODE: u32 = 16;
/// The keypad is shut.
pub const REFUSE_D_LOCKOUT: u32 = 17;
/// A remembered list is full.
pub const REFUSE_D_AUTH_FULL: u32 = 18;
pub const REFUSE_D_NOT_EMPTY: u32 = 19;

/// Ticks per upkeep period: one hour at 30 Hz.
pub const UPKEEP_PERIOD_TICKS: u64 = 108_000;
/// Upkeep periods per day.
pub const PERIODS_PER_DAY: u32 = 24;
/// Materials the decay ladder prices.
pub const DECAY_MATERIALS: usize = 4;
/// The flat decay rate, % of max hp a period, for anything unpriced.
pub const DECAY_PCT_PER_PERIOD: u32 = 5;
/// Units one feed press moves per material.
pub const FEED_CHUNK: u32 = 100;
/// A hearth's stock ceiling per material.
pub const STOCK_MAX: u32 = 2_000;
/// Bags one owner may have placed at once.
pub const BAG_CAP: usize = 8;
/// How long a bag sleeps after answering a death: five minutes of ticks.
pub const BAG_COOLDOWN_TICKS: u64 = 9_000;

/// One deployable's baked rules.
#[derive(Clone, Copy, Debug, PartialEq, Eq)]
pub struct DeployDef {
    pub arch: u8,
    pub placement: u8,
    pub hp: u16,
    /// The item placing it spends, and picking it up returns.
    pub item: u16,
    pub n_costs: u8,
    pub costs: [(u16, u16); MAX_DEPLOY_COSTS],
}

impl DeployDef {
    /// The row nothing can be placed from.
    pub fn inert() -> (d: Self)
        ensures
            d.arch == ARCH_BAG && d.placement == PLACE_GROUND && d.hp == 0 && d.item == 0 && d.n_costs == 0,
            forall|k: int| 0 <= k < MAX_DEPLOY_COSTS ==> d.costs[k] == (0u16, 0u16),
    {
        DeployDef { arch: ARCH_BAG, placement: PLACE_GROUND, hp: 0, item: 0, n_costs: 0, costs: [(0, 0); MAX_DEPLOY_COSTS] }
    }
}

/// The whole deployable ruleset plus the upkeep and decay prices.
#[derive(Clone, Copy, Debug)]
pub struct DeployContent {
    pub defs: [DeployDef; MAX_DEPLOY_DEFS],
    pub def_count: u16,
    /// Items a hearth stocks as upkeep, row-aligned with its stock.
    pub mats: [u16; HEARTH_STOCK_ROWS],
    pub mat_count: u8,
    /// Upkeep charged per day, % of a piece's build cost.
    pub upkeep_pct_per_day: u16,
    /// Decay per period by material, % of max hp; 0 = unpriced.
    pub decay_pct: [u16; DECAY_MATERIALS],
}

impl DeployContent {
    /// Inert: nothing can be placed and upkeep is off.
    pub fn empty() -> (d: Self)
        ensures
            d.def_count == 0,
            d.mat_count == 0,
            d.upkeep_pct_per_day == 0,
            forall|i: int| 0 <= i < DECAY_MATERIALS ==> d.decay_pct[i] == 0,
    {
        DeployContent {
            defs: [DeployDef::inert(); MAX_DEPLOY_DEFS],
            def_count: 0,
            mats: [0; HEARTH_STOCK_ROWS],
            mat_count: 0,
            upkeep_pct_per_day: 0,
            decay_pct: [0; DECAY_MATERIALS],
        }
    }

    /// Synthetic table for the parity, replay and allocation gates:
    /// hearth, workbench, door, bag, fire, lock, recycler and research
    /// table, each spending its own item (2..=8, 10); upkeep in items 0 and
    /// 1 at 10 % a day; decay 100/34/20/13 % by material.
    pub fn probe_fixture() -> (d: Self)
        ensures
            d.def_count == 8,
            d.defs[0] == (DeployDef { arch: ARCH_HEARTH, placement: PLACE_FOUNDATION, hp: 100, item: 2, n_costs: 2, costs: [(0u16, 30u16), (1u16, 10u16), (0u16, 0u16), (0u16, 0u16)] }),
            d.defs[1] == (DeployDef { arch: ARCH_WORKBENCH, placement: PLACE_ANY, hp: 80, item: 3, n_costs: 1, costs: [(0u16, 20u16), (0u16, 0u16), (0u16, 0u16), (0u16, 0u16)] }),
            d.defs[2] == (DeployDef { arch: ARCH_DOOR, placement: PLACE_DOORWAY, hp: 60, item: 4, n_costs: 2, costs: [(0u16, 40u16), (1u16, 8u16), (0u16, 0u16), (0u16, 0u16)] }),
            d.defs[3] == (DeployDef { arch: ARCH_BAG, placement: PLACE_GROUND, hp: 50, item: 5, n_costs: 0, costs: [(0u16, 0u16), (0u16, 0u16), (0u16, 0u16), (0u16, 0u16)] }),
            d.defs[4] == (DeployDef { arch: ARCH_FIRE, placement: PLACE_GROUND, hp: 40, item: 6, n_costs: 1, costs: [(0u16, 25u16), (0u16, 0u16), (0u16, 0u16), (0u16, 0u16)] }),
            d.defs[5] == (DeployDef { arch: ARCH_LOCK, placement: PLACE_DOOR, hp: 40, item: 7, n_costs: 1, costs: [(1u16, 12u16), (0u16, 0u16), (0u16, 0u16), (0u16, 0u16)] }),
            d.defs[6] == (DeployDef { arch: ARCH_RECYCLER, placement: PLACE_GROUND, hp: 45, item: 8, n_costs: 1, costs: [(1u16, 15u16), (0u16, 0u16), (0u16, 0u16), (0u16, 0u16)] }),
            d.defs[7] == (DeployDef { arch: ARCH_RESEARCH, placement: PLACE_GROUND, hp: 45, item: 10, n_costs: 1, costs: [(0u16, 18u16), (0u16, 0u16), (0u16, 0u16), (0u16, 0u16)] }),
            d.mats[0] == 0 && d.mats[1] == 1,
            d.mat_count == 2,
            d.upkeep_pct_per_day == 10,
            d.decay_pct[0] == 100 && d.decay_pct[1] == 34 && d.decay_pct[2] == 20 && d.decay_pct[3] == 13,
    {
        let mut d = Self::empty();
        d.def_count = 8;
        d.defs[0] = DeployDef { arch: ARCH_HEARTH, placement: PLACE_FOUNDATION, hp: 100, item: 2, n_costs: 2, costs: [(0, 30), (1, 10), (0, 0), (0, 0)] };
        d.defs[1] = DeployDef { arch: ARCH_WORKBENCH, placement: PLACE_ANY, hp: 80, item: 3, n_costs: 1, costs: [(0, 20), (0, 0), (0, 0), (0, 0)] };
        d.defs[2] = DeployDef { arch: ARCH_DOOR, placement: PLACE_DOORWAY, hp: 60, item: 4, n_costs: 2, costs: [(0, 40), (1, 8), (0, 0), (0, 0)] };
        d.defs[3] = DeployDef { arch: ARCH_BAG, placement: PLACE_GROUND, hp: 50, item: 5, n_costs: 0, costs: [(0, 0), (0, 0), (0, 0), (0, 0)] };
        d.defs[4] = DeployDef { arch: ARCH_FIRE, placement: PLACE_GROUND, hp: 40, item: 6, n_costs: 1, costs: [(0, 25), (0, 0), (0, 0), (0, 0)] };
        d.defs[5] = DeployDef { arch: ARCH_LOCK, placement: PLACE_DOOR, hp: 40, item: 7, n_costs: 1, costs: [(1, 12), (0, 0), (0, 0), (0, 0)] };
        d.defs[6] = DeployDef { arch: ARCH_RECYCLER, placement: PLACE_GROUND, hp: 45, item: 8, n_costs: 1, costs: [(1, 15), (0, 0), (0, 0), (0, 0)] };
        d.defs[7] = DeployDef { arch: ARCH_RESEARCH, placement: PLACE_GROUND, hp: 45, item: 10, n_costs: 1, costs: [(0, 18), (0, 0), (0, 0), (0, 0)] };
        d.mats = [0, 1, 0, 0];
        d.mat_count = 2;
        d.upkeep_pct_per_day = 10;
        d.decay_pct = [100, 34, 20, 13];
        d
    }
}

/// The arch of the row a record holds, or the inert bag for a row past the
/// table.
pub open spec fn arch_of(dc: DeployContent, row: u8) -> u8 {
    if (row as int) < MAX_DEPLOY_DEFS { dc.defs[row as int].arch } else { ARCH_BAG }
}

/// One placed deployable, grid-addressed like a piece.
#[derive(Clone, Copy, Debug, PartialEq, Eq, Structural)]
pub struct DeployRec {
    pub cx: u16,
    pub cz: u16,
    pub level: u8,
    pub loc: u8,
    /// Baked deployable row this address holds.
    pub row: u8,
    pub owner: u32,
    pub hp: u16,
    /// Last upkeep period processed.
    pub uh: u16,
    /// Door state (doors only).
    pub open: bool,
    /// Mirror: a code lock is bolted here.
    pub has_lock: bool,
    /// Mirror: that lock is locked.
    pub locked: bool,
    /// The damage band this record was sent at (wire-only).
    pub dmg: u8,
}

impl Default for DeployRec {
    fn default() -> (d: Self)
        ensures
            d == (DeployRec { cx: 0, cz: 0, level: 0, loc: 0, row: 0, owner: 0, hp: 0, uh: 0, open: false, has_lock: false, locked: false, dmg: 0 }),
    {
        DeployRec { cx: 0, cz: 0, level: 0, loc: 0, row: 0, owner: 0, hp: 0, uh: 0, open: false, has_lock: false, locked: false, dmg: 0 }
    }
}

/// Whether a record stands at this address.
pub open spec fn deploy_at(d: DeployRec, cx: u16, cz: u16, level: u8, loc: u8) -> bool {
    d.cx == cx && d.cz == cz && d.level == level && d.loc == loc
}

/// One of your own bags, as the death screen needs to know it.
#[derive(Clone, Copy, Debug, Default, PartialEq, Eq, Structural)]
pub struct BagAnchor {
    pub cx: u16,
    pub cz: u16,
    pub level: u8,
    /// Whether its cooldown had lapsed at the tick it was read.
    pub ready: bool,
}

/// The hearth's crew list — who may build inside its claim.
pub type CrewList = Roster<HEARTH_CREW_CAP>;

/// One hearth's claim, stock and crew, in the dense hearth list.
#[derive(Debug)]
pub struct HearthRec {
    pub cx: u16,
    pub cz: u16,
    pub level: u8,
    pub owner: u32,
    pub stock: [u32; HEARTH_STOCK_ROWS],
    pub crew: CrewList,
}

/// A hearth as the rules see it.
pub struct HearthModel {
    pub cx: u16,
    pub cz: u16,
    pub level: u8,
    pub owner: u32,
    pub stock: Seq<u32>,
    pub crew: Seq<u32>,
}

impl View for HearthRec {
    type V = HearthModel;

    open spec fn view(&self) -> HearthModel {
        HearthModel { cx: self.cx, cz: self.cz, level: self.level, owner: self.owner, stock: self.stock@, crew: self.crew@ }
    }
}

/// One deployed box's contents, keyed by its deployable's grid address.
#[derive(Clone, Copy, Debug, PartialEq, Eq)]
pub struct BoxRec {
    pub cx: u16,
    pub cz: u16,
    pub level: u8,
    pub owner: u32,
    pub items: [ItemStack; BOX_SLOTS],
}

impl Default for BoxRec {
    fn default() -> (b: Self)
        ensures
            b.cx == 0 && b.cz == 0 && b.level == 0 && b.owner == 0,
            forall|i: int| 0 <= i < BOX_SLOTS ==> b.items[i] == ItemStack::spec_blank(),
    {
        let blank = ItemStack { item: 0, count: 0, cond: 0 };
        let mut items = [blank; BOX_SLOTS];
        let mut s: usize = 0;
        while s < BOX_SLOTS
            invariant
                s <= BOX_SLOTS,
                blank == ItemStack::spec_blank(),
                forall|j: int| 0 <= j < s ==> items@[j] == ItemStack::spec_blank(),
            decreases BOX_SLOTS - s,
        {
            items[s] = blank;
            s += 1;
        }
        BoxRec { cx: 0, cz: 0, level: 0, owner: 0, items }
    }
}

/// A box record standing empty at this address for `owner`.
pub open spec fn empty_box_at(b: BoxRec, cx: u16, cz: u16, level: u8, owner: u32) -> bool {
    &&& b.cx == cx && b.cz == cz && b.level == level && b.owner == owner
    &&& forall|i: int| 0 <= i < BOX_SLOTS ==> b.items[i] == ItemStack::spec_blank()
}

/// Whether every slot of a box is empty.
pub open spec fn spec_box_empty(b: BoxRec) -> bool {
    forall|i: int| 0 <= i < BOX_SLOTS ==> b.items[i].count == 0
}

impl BoxRec {
    /// Whether every slot is empty.
    pub fn is_empty(&self) -> (e: bool)
        ensures
            e == spec_box_empty(*self),
    {
        let mut i: usize = 0;
        while i < BOX_SLOTS
            invariant
                i <= BOX_SLOTS,
                forall|j: int| 0 <= j < i ==> self.items[j].count == 0,
            decreases BOX_SLOTS - i,
        {
            if self.items[i].count != 0 {
                return false;
            }
            i += 1;
        }
        true
    }
}

/// A box's packed address: `cx << 16 | cz << 4 | level & 0xF`.
pub open spec fn spec_box_key(cx: u16, cz: u16, level: u8) -> u32 {
    ((cx as int * 0x1_0000 + cz as int * 16 + level as int % 16) % 0x1_0000_0000) as u32
}

/// A box's packed address, bit for bit as it is computed.
pub open spec fn box_key_bits(cx: u16, cz: u16, level: u8) -> u32 {
    ((cx as u32) << 16u32) | ((cz as u32) << 4u32) | (level as u32 & 0xFu32)
}

/// A box's packed address.
pub fn box_key(cx: u16, cz: u16, level: u8) -> (k: u32)
    ensures
        k == box_key_bits(cx, cz, level),
{
    ((cx as u32) << 16) | ((cz as u32) << 4) | (level as u32 & 0xF)
}

/// The contents of every standing item-holding deployable, found by its
/// packed address, plus the boxes a removal this tick left to spill onto
/// the ground.
pub struct BoxStore {
    entries: Vec<BoxRec>,
    spill: Vec<BoxRec>,
}

/// Every placed deployable, with its side-stores.
pub struct Deploys {
    entries: Vec<DeployRec>,
    bag_ready: Vec<u64>,
    placed: Vec<u64>,
    hearths: Vec<HearthRec>,
    boxes: BoxStore,
    locks: Locks,
}

impl Deploys {
    /// The deploy records, dense from 0.
    pub closed spec fn recs(&self) -> Seq<DeployRec> {
        self.entries@
    }

    /// The tick each record's bag cooldown ends, index-aligned.
    pub closed spec fn readies(&self) -> Seq<u64> {
        self.bag_ready@
    }

    /// The tick each record was placed, index-aligned.
    pub closed spec fn placed_ticks(&self) -> Seq<u64> {
        self.placed@
    }

    /// The box records, dense from 0.
    pub closed spec fn box_recs(&self) -> Seq<BoxRec> {
        self.boxes.entries@
    }

    /// Non-empty boxes removed this tick, for the caller to spill.
    pub closed spec fn spilled(&self) -> Seq<BoxRec> {
        self.boxes.spill@
    }

    /// The lock store.
    pub closed spec fn lock_models(&self) -> Seq<LockModel> {
        self.locks@
    }

    /// Number of hearths.
    pub closed spec fn hearth_count(&self) -> nat {
        self.hearths@.len()
    }

    /// The hearths, dense from 0.
    pub closed spec fn hearth_models(&self) -> Seq<HearthModel> {
        self.hearths@.map_values(|h: HearthRec| h@)
    }

    /// The store's shape: index-aligned side columns, every list in its cap.
    pub closed spec fn wf(&self) -> bool {
        &&& self.entries@.len() == self.bag_ready@.len()
        &&& self.entries@.len() == self.placed@.len()
        &&& self.entries@.len() <= MAX_DEPLOYS
        &&& self.hearths@.len() <= MAX_HEARTHS
        &&& self.boxes.entries@.len() <= MAX_BOXES
        &&& self.boxes.spill@.len() <= MAX_BOX_SPILL_PER_TICK
    }

    pub fn new() -> (d: Self)
        ensures
            d.wf(),
            d.recs() == Seq::<DeployRec>::empty(),
            d.hearth_count() == 0,
            d.box_recs() == Seq::<BoxRec>::empty(),
            d.spilled() == Seq::<BoxRec>::empty(),
            d.lock_models() == Seq::<LockModel>::empty(),
    {
        Deploys {
            entries: Vec::new(),
            bag_ready: Vec::new(),
            placed: Vec::new(),
            hearths: Vec::new(),
            boxes: BoxStore { entries: Vec::new(), spill: Vec::new() },
            locks: Locks::new(),
        }
    }

    pub fn len(&self) -> (n: usize)
        ensures
            n == self.recs().len(),
    {
        self.entries.len()
    }

    pub fn is_empty(&self) -> (b: bool)
        ensures
            b == (self.recs().len() == 0),
    {
        self.entries.len() == 0
    }

    /// The live records, dense from 0.
    pub fn entries(&self) -> (s: &[DeployRec])
        ensures
            s@ == self.recs(),
    {
        self.entries.as_slice()
    }

    /// Each record's bag-cooldown end, index-aligned with `entries`.
    pub fn bag_ready(&self) -> (s: &[u64])
        ensures
            s@ == self.readies(),
    {
        self.bag_ready.as_slice()
    }

    /// Each record's placement tick, index-aligned with `entries`.
    pub fn placed(&self) -> (s: &[u64])
        ensures
            s@ == self.placed_ticks(),
    {
        self.placed.as_slice()
    }

    /// Record `i`'s placement tick, 0 past the store.
    pub fn placed_at(&self, i: usize) -> (t: u64)
        requires
            self.wf(),
        ensures
            t == (if i < self.recs().len() { self.placed_ticks()[i as int] } else { 0 }),
    {
        if i >= self.entries.len() {
            return 0;
        }
        self.placed[i]
    }

    /// The live hearths, dense from 0.
    pub fn hearths(&self) -> (s: &[HearthRec])
        ensures
            s@.len() == self.hearth_count(),
            s@.len() == self.hearth_models().len(),
            forall|i: int| 0 <= i < s@.len() ==> #[trigger] s@[i]@ == self.hearth_models()[i],
    {
        self.hearths.as_slice()
    }

    /// The live boxes, dense from 0.
    pub fn boxes(&self) -> (s: &[BoxRec])
        ensures
            s@ == self.box_recs(),
    {
        self.boxes.entries.as_slice()
    }

    /// The live locks, dense from 0.
    pub fn locks(&self) -> (s: &[LockRec])
        ensures
            s@.len() == self.lock_models().len(),
            forall|i: int| 0 <= i < s@.len() ==> s@[i]@ == self.lock_models()[i],
    {
        self.locks.entries()
    }

    /// Whether the lock at this address (if any) lets `id` work the leaf.
    pub fn lock_passes(&self, cx: u16, cz: u16, level: u8, loc: u8, id: u32) -> (b: bool)
        ensures
            b == lock::spec_locks_pass(self.lock_models(), cx, cz, level, loc, id),
    {
        self.locks.passes(cx, cz, level, loc, id)
    }

    /// Whether the lock at this address is locked; a bare address is not.
    pub fn is_locked(&self, cx: u16, cz: u16, level: u8, loc: u8) -> (b: bool)
        ensures
            b == match lock::first_at(self.lock_models(), cx, cz, level, loc) {
                None => false,
                Some(i) => self.lock_models()[i].locked,
            },
    {
        self.locks.is_locked(cx, cz, level, loc)
    }

    /// Remember `id` on hearth `h`'s crew: appended when new and there is
    /// room, otherwise nothing moves.
    pub fn crew_add(&mut self, h: usize, id: u32) -> (r: Added)
        requires
            old(self).wf(),
            h < old(self).hearth_models().len(),
        ensures
            final(self).wf(),
            ({
                let c = old(self).hearth_models()[h as int].crew;
                let c2 = if c.contains(id) || c.len() >= HEARTH_CREW_CAP { c } else { c.push(id) };
                &&& final(self).hearth_models() == old(self).hearth_models().update(
                    h as int,
                    HearthModel { crew: c2, ..old(self).hearth_models()[h as int] },
                )
                &&& r == (if c.contains(id) {
                    Added::Already
                } else if c.len() >= HEARTH_CREW_CAP {
                    Added::Full
                } else {
                    Added::New
                })
            }),
            final(self).recs() == old(self).recs(),
            final(self).readies() == old(self).readies(),
            final(self).placed_ticks() == old(self).placed_ticks(),
            final(self).lock_models() == old(self).lock_models(),
            final(self).box_recs() == old(self).box_recs(),
            final(self).spilled() == old(self).spilled(),
    {
        let ghost hs = self.hearth_models();
        assert(hs[h as int] == self.hearths@[h as int]@);
        let r = self.hearths[h].crew.add(id);
        assert(self.hearth_models() =~= hs.update(h as int, self.hearths@[h as int]@));
        r
    }

    /// The box at this packed address; key 0 is "no box".
    pub fn box_index(&self, key: u32) -> (r: Option<usize>)
        ensures
            match r {
                None => key == 0 || forall|j: int| 0 <= j < self.box_recs().len() ==> box_key_of(#[trigger] self.box_recs()[j]) != key,
                Some(i) => key != 0 && i < self.box_recs().len() && box_key_of(self.box_recs()[i as int]) == key
                    && forall|j: int| 0 <= j < i ==> box_key_of(#[trigger] self.box_recs()[j]) != key,
            },
            box_at(self.box_recs(), key) == match r {
                Some(i) => Some(i as int),
                None => None::<int>,
            },
    {
        if key == 0 {
            return None;
        }
        let mut i: usize = 0;
        while i < self.boxes.entries.len()
            invariant
                i <= self.boxes.entries@.len(),
                key != 0,
                forall|j: int| 0 <= j < i ==> box_key_of(#[trigger] self.boxes.entries@[j]) != key,
                first_box_from(self.boxes.entries@, key, 0) == first_box_from(self.boxes.entries@, key, i as int),
            decreases self.boxes.entries@.len() - i,
        {
            let b = &self.boxes.entries[i];
            if box_key(b.cx, b.cz, b.level) == key {
                return Some(i);
            }
            i += 1;
        }
        None
    }

    /// Slot `s` of box `i`, or the empty stack past either end.
    pub fn box_slot(&self, i: usize, s: usize) -> (st: ItemStack)
        ensures
            st == (if i < self.box_recs().len() && s < BOX_SLOTS {
                self.box_recs()[i as int].items[s as int]
            } else {
                ItemStack::spec_blank()
            }),
    {
        if i >= self.boxes.entries.len() || s >= BOX_SLOTS {
            return ItemStack { item: 0, count: 0, cond: 0 };
        }
        self.boxes.entries[i].items[s]
    }

    /// Write slot `s` of box `i`; a no-op past either end.
    pub fn set_box_slot(&mut self, i: usize, s: usize, stack: ItemStack)
        requires
            old(self).wf(),
        ensures
            final(self).wf(),
            final(self).recs() == old(self).recs(),
            final(self).lock_models() == old(self).lock_models(),
            final(self).spilled() == old(self).spilled(),
            final(self).box_recs().len() == old(self).box_recs().len(),
            forall|j: int| 0 <= j < old(self).box_recs().len() && j != i ==> final(self).box_recs()[j] == old(self).box_recs()[j],
            i < old(self).box_recs().len() && s < BOX_SLOTS ==> {
                let o = old(self).box_recs()[i as int];
                let f = final(self).box_recs()[i as int];
                &&& f.cx == o.cx && f.cz == o.cz && f.level == o.level && f.owner == o.owner
                &&& f.items@ == o.items@.update(s as int, stack)
            },
            !(i < old(self).box_recs().len() && s < BOX_SLOTS) ==> final(self).box_recs() == old(self).box_recs(),
    {
        if i >= self.boxes.entries.len() || s >= BOX_SLOTS {
            return;
        }
        self.boxes.entries[i].items[s] = stack;
    }

    /// How many removed boxes are waiting to spill.
    pub fn box_spill_len(&self) -> (n: usize)
        ensures
            n == self.spilled().len(),
    {
        self.boxes.spill.len()
    }

    /// Spilled box `i`, or the default box past the end.
    pub fn box_spill_at(&self, i: usize) -> (b: BoxRec)
        ensures
            i < self.spilled().len() ==> b == self.spilled()[i as int],
            i >= self.spilled().len() ==> b.owner == 0 && forall|k: int| 0 <= k < BOX_SLOTS ==> b.items[k] == ItemStack::spec_blank(),
    {
        if i >= self.boxes.spill.len() {
            return BoxRec::default();
        }
        self.boxes.spill[i]
    }

    /// The caller has spilled every removed box.
    pub fn clear_box_spill(&mut self)
        requires
            old(self).wf(),
        ensures
            final(self).wf(),
            final(self).spilled() == Seq::<BoxRec>::empty(),
            final(self).recs() == old(self).recs(),
            final(self).box_recs() == old(self).box_recs(),
            final(self).lock_models() == old(self).lock_models(),
    {
        self.boxes.spill = Vec::new();
    }

    /// The record at this address, if one stands there.
    pub fn find(&self, cx: u16, cz: u16, level: u8, loc: u8) -> (r: Option<&DeployRec>)
        ensures
            match r {
                None => forall|j: int| 0 <= j < self.recs().len() ==> !deploy_at(#[trigger] self.recs()[j], cx, cz, level, loc),
                Some(d) => deploy_at(*d, cx, cz, level, loc) && self.recs().contains(*d),
            },
    {
        match self.find_index(cx, cz, level, loc) {
            None => None,
            Some(i) => Some(&self.entries[i]),
        }
    }

    /// The index of the first record at this address.
    pub fn find_index(&self, cx: u16, cz: u16, level: u8, loc: u8) -> (r: Option<usize>)
        ensures
            match r {
                None => forall|j: int| 0 <= j < self.recs().len() ==> !deploy_at(#[trigger] self.recs()[j], cx, cz, level, loc),
                Some(i) => i < self.recs().len() && deploy_at(self.recs()[i as int], cx, cz, level, loc)
                    && forall|j: int| 0 <= j < i ==> !deploy_at(#[trigger] self.recs()[j], cx, cz, level, loc),
            },
    {
        let mut i: usize = 0;
        while i < self.entries.len()
            invariant
                i <= self.entries@.len(),
                forall|j: int| 0 <= j < i ==> !deploy_at(#[trigger] self.entries@[j], cx, cz, level, loc),
            decreases self.entries@.len() - i,
        {
            let d = &self.entries[i];
            if d.cx == cx && d.cz == cz && d.level == level && d.loc == loc {
                return Some(i);
            }
            i += 1;
        }
        None
    }

    /// Append a record placed on `tick`, its bag cooldown clear. False
    /// when the store is full.
    pub fn insert(&mut self, rec: DeployRec, tick: u64) -> (ok: bool)
        requires
            old(self).wf(),
        ensures
            final(self).wf(),
            ok == (old(self).recs().len() < MAX_DEPLOYS),
            ok ==> final(self).recs() == old(self).recs().push(rec)
                && final(self).readies() == old(self).readies().push(0)
                && final(self).placed_ticks() == old(self).placed_ticks().push(tick),
            !ok ==> final(self).recs() == old(self).recs() && final(self).readies() == old(self).readies()
                && final(self).placed_ticks() == old(self).placed_ticks(),
            final(self).box_recs() == old(self).box_recs(),
            final(self).lock_models() == old(self).lock_models(),
            final(self).spilled() == old(self).spilled(),
            final(self).hearth_count() == old(self).hearth_count(),
            final(self).hearth_models() == old(self).hearth_models(),
    {
        if self.entries.len() >= MAX_DEPLOYS {
            return false;
        }
        self.entries.push(rec);
        self.bag_ready.push(0);
        self.placed.push(tick);
        true
    }

    /// Bolt a lock on. False when the lock store is full.
    pub fn insert_lock(&mut self, rec: LockRec) -> (ok: bool)
        requires
            old(self).wf(),
        ensures
            final(self).wf(),
            ok == (old(self).lock_models().len() < crate::limits::MAX_LOCKS),
            ok ==> final(self).lock_models() == old(self).lock_models().push(rec@),
            !ok ==> final(self).lock_models() == old(self).lock_models(),
            final(self).recs() == old(self).recs(),
            final(self).readies() == old(self).readies(),
            final(self).placed_ticks() == old(self).placed_ticks(),
            final(self).box_recs() == old(self).box_recs(),
            final(self).spilled() == old(self).spilled(),
            final(self).hearth_models() == old(self).hearth_models(),
    {
        self.locks.insert(rec)
    }

    /// Stand an empty box record at this address for `owner`. False when
    /// the box list is full.
    pub(crate) fn push_box(&mut self, cx: u16, cz: u16, level: u8, owner: u32) -> (ok: bool)
        requires
            old(self).wf(),
        ensures
            final(self).wf(),
            ok == (old(self).box_recs().len() < MAX_BOXES),
            ok ==> final(self).box_recs().len() == old(self).box_recs().len() + 1
                && final(self).box_recs().drop_last() == old(self).box_recs()
                && empty_box_at(final(self).box_recs().last(), cx, cz, level, owner),
            !ok ==> final(self).box_recs() == old(self).box_recs(),
            final(self).recs() == old(self).recs(),
            final(self).readies() == old(self).readies(),
            final(self).placed_ticks() == old(self).placed_ticks(),
            final(self).lock_models() == old(self).lock_models(),
            final(self).spilled() == old(self).spilled(),
            final(self).hearth_models() == old(self).hearth_models(),
    {
        if self.boxes.entries.len() >= MAX_BOXES {
            return false;
        }
        let mut b = BoxRec::default();
        b.cx = cx;
        b.cz = cz;
        b.level = level;
        b.owner = owner;
        self.boxes.entries.push(b);
        assert(self.box_recs().drop_last() =~= old(self).box_recs());
        true
    }

    /// Stand a hearth's record at this address: empty stock, its crew the
    /// owner alone. False when the hearth list is full.
    pub fn push_hearth(&mut self, cx: u16, cz: u16, level: u8, owner: u32) -> (ok: bool)
        requires
            old(self).wf(),
        ensures
            final(self).wf(),
            ok == (old(self).hearth_count() < MAX_HEARTHS),
            ok ==> final(self).hearth_models() == old(self).hearth_models().push(
                HearthModel { cx, cz, level, owner, stock: seq![0u32, 0u32, 0u32, 0u32], crew: seq![owner] },
            ),
            !ok ==> final(self).hearth_models() == old(self).hearth_models(),
            final(self).recs() == old(self).recs(),
            final(self).readies() == old(self).readies(),
            final(self).placed_ticks() == old(self).placed_ticks(),
            final(self).lock_models() == old(self).lock_models(),
            final(self).box_recs() == old(self).box_recs(),
            final(self).spilled() == old(self).spilled(),
    {
        if self.hearths.len() >= MAX_HEARTHS {
            return false;
        }
        let hr = HearthRec { cx, cz, level, owner, stock: [0u32; HEARTH_STOCK_ROWS], crew: CrewList::of(owner) };
        assert(hr.stock@ =~= seq![0u32, 0u32, 0u32, 0u32]);
        self.hearths.push(hr);
        assert(self.hearth_models() =~= old(self).hearth_models().push(hr@));
        true
    }

    /// Set the two lock mirror bits of record `i`; `locked` can only be up
    /// while `has_lock` is.
    pub fn set_lock_mirror(&mut self, i: usize, has_lock: bool, locked: bool)
        requires
            old(self).wf(),
            i < old(self).recs().len(),
        ensures
            final(self).wf(),
            final(self).recs() == old(self).recs().update(i as int, DeployRec { has_lock, locked: has_lock && locked, ..old(self).recs()[i as int] }),
            final(self).box_recs() == old(self).box_recs(),
            final(self).lock_models() == old(self).lock_models(),
            final(self).spilled() == old(self).spilled(),
            final(self).readies() == old(self).readies(),
            final(self).placed_ticks() == old(self).placed_ticks(),
            final(self).hearth_models() == old(self).hearth_models(),
    {
        self.entries[i].has_lock = has_lock;
        self.entries[i].locked = has_lock && locked;
    }

    /// Material `m` of hearth `h`'s stock.
    pub fn hearth_stock(&self, h: usize, m: usize) -> (s: u32)
        requires
            h < self.hearth_models().len(),
            m < HEARTH_STOCK_ROWS,
        ensures
            s == self.hearth_models()[h as int].stock[m as int],
    {
        assert(self.hearth_models()[h as int] == self.hearths@[h as int]@);
        self.hearths[h].stock[m]
    }

    /// Whether a hearth at this address holds any stock at all.
    pub fn hearth_stocked(&self, cx: u16, cz: u16, level: u8) -> (b: bool)
        ensures
            b == hearth_stocked_at(self.hearth_models(), cx, cz, level),
    {
        let mut h: usize = 0;
        while h < self.hearths.len()
            invariant
                h <= self.hearths@.len(),
                forall|j: int| 0 <= j < h ==> !stocked_here(#[trigger] self.hearth_models()[j], cx, cz, level),
            decreases self.hearths@.len() - h,
        {
            let hr = &self.hearths[h];
            assert(self.hearth_models()[h as int] == hr@);
            if hr.cx == cx && hr.cz == cz && hr.level == level {
                let mut m: usize = 0;
                while m < HEARTH_STOCK_ROWS
                    invariant
                        m <= HEARTH_STOCK_ROWS,
                        h < self.hearths@.len(),
                        hr.cx == cx && hr.cz == cz && hr.level == level,
                        self.hearth_models()[h as int] == hr@,
                        hr@.stock.len() == HEARTH_STOCK_ROWS,
                        forall|k: int| 0 <= k < m ==> hr@.stock[k] == 0,
                    decreases HEARTH_STOCK_ROWS - m,
                {
                    if hr.stock[m] > 0 {
                        assert(hr@.stock[m as int] > 0);
                        assert(stocked_here(self.hearth_models()[h as int], cx, cz, level));
                        return true;
                    }
                    m += 1;
                }
            }
            h += 1;
        }
        false
    }

    /// Write material `m` of hearth `h`'s stock.
    pub fn set_hearth_stock(&mut self, h: usize, m: usize, v: u32)
        requires
            old(self).wf(),
            h < old(self).hearth_models().len(),
            m < HEARTH_STOCK_ROWS,
        ensures
            final(self).wf(),
            final(self).hearth_models() == old(self).hearth_models().update(
                h as int,
                HearthModel {
                    stock: old(self).hearth_models()[h as int].stock.update(m as int, v),
                    ..old(self).hearth_models()[h as int]
                },
            ),
            final(self).recs() == old(self).recs(),
            final(self).readies() == old(self).readies(),
            final(self).placed_ticks() == old(self).placed_ticks(),
            final(self).lock_models() == old(self).lock_models(),
            final(self).box_recs() == old(self).box_recs(),
            final(self).spilled() == old(self).spilled(),
    {
        let ghost hs = self.hearth_models();
        self.hearths[h].stock[m] = v;
        assert(self.hearth_models() =~= hs.update(
            h as int,
            HearthModel { stock: hs[h as int].stock.update(m as int, v), ..hs[h as int] },
        ));
    }

    /// Write record `i`'s hp and last upkeep hour.
    pub(crate) fn set_upkeep(&mut self, i: usize, hp: u16, uh: u16)
        requires
            old(self).wf(),
            i < old(self).recs().len(),
        ensures
            final(self).wf(),
            final(self).recs() == old(self).recs().update(i as int, DeployRec { hp, uh, ..old(self).recs()[i as int] }),
            final(self).readies() == old(self).readies(),
            final(self).placed_ticks() == old(self).placed_ticks(),
            final(self).lock_models() == old(self).lock_models(),
            final(self).box_recs() == old(self).box_recs(),
            final(self).hearth_models() == old(self).hearth_models(),
            final(self).spilled() == old(self).spilled(),
    {
        self.entries[i].hp = hp;
        self.entries[i].uh = uh;
    }

    /// Set record `i`'s hp.
    pub fn set_hp(&mut self, i: usize, hp: u16)
        requires
            old(self).wf(),
            i < old(self).recs().len(),
        ensures
            final(self).wf(),
            final(self).recs() == old(self).recs().update(i as int, DeployRec { hp, ..old(self).recs()[i as int] }),
            final(self).readies() == old(self).readies(),
            final(self).placed_ticks() == old(self).placed_ticks(),
            final(self).box_recs() == old(self).box_recs(),
            final(self).lock_models() == old(self).lock_models(),
            final(self).hearth_models() == old(self).hearth_models(),
            final(self).spilled() == old(self).spilled(),
    {
        self.entries[i].hp = hp;
    }

    fn own_bag_count(&self, dc: &DeployContent, owner: u32) -> (n: usize)
        ensures
            n == own_bags_in(self.recs(), *dc, owner, self.recs().len() as int),
    {
        let mut n: usize = 0;
        let mut i: usize = 0;
        while i < self.entries.len()
            invariant
                i <= self.entries@.len(),
                n == own_bags_in(self.entries@, *dc, owner, i as int),
                n <= i,
            decreases self.entries@.len() - i,
        {
            let d = &self.entries[i];
            if d.owner == owner && (d.row as usize) < MAX_DEPLOY_DEFS && dc.defs[d.row as usize].arch == ARCH_BAG {
                n += 1;
            } else if d.owner == owner && (d.row as usize) >= MAX_DEPLOY_DEFS {
                n += 1;
            }
            i += 1;
        }
        n
    }

    /// Up to [`BAG_CAP`] of `owner`'s own bags, in store order, each with
    /// whether its cooldown has lapsed at `tick`. Returns how many were
    /// written; `out` past that is untouched.
    pub fn own_bags(&self, dc: &DeployContent, owner: u32, tick: u64, out: &mut [BagAnchor; BAG_CAP]) -> (n: usize)
        requires
            self.wf(),
        ensures
            n as int == if own_bags_in(self.recs(), *dc, owner, self.recs().len() as int) < BAG_CAP {
                own_bags_in(self.recs(), *dc, owner, self.recs().len() as int)
            } else {
                BAG_CAP as int
            },
            forall|k: int| n <= k < BAG_CAP ==> final(out)@[k] == old(out)@[k],
            forall|k: int| 0 <= k < n ==> final(out)@[k] == bag_anchor(self.recs(), self.readies(), *dc, owner, k, tick),
    {
        let mut n: usize = 0;
        let mut i: usize = 0;
        while i < self.entries.len()
            invariant
                self.wf(),
                i <= self.entries@.len(),
                n == (if own_bags_in(self.entries@, *dc, owner, i as int) < BAG_CAP {
                    own_bags_in(self.entries@, *dc, owner, i as int)
                } else {
                    BAG_CAP as int
                }),
                forall|k: int| n <= k < BAG_CAP ==> out@[k] == old(out)@[k],
                forall|k: int| 0 <= k < n ==> out@[k] == bag_anchor(self.entries@, self.bag_ready@, *dc, owner, k, tick),
            decreases self.entries@.len() - i,
        {
            let d = self.entries[i];
            let is_bag = d.owner == owner && ((d.row as usize) >= MAX_DEPLOY_DEFS || dc.defs[d.row as usize].arch == ARCH_BAG);
            proof {
                lemma_own_bags_step(self.entries@, *dc, owner, i as int);
            }
            if is_bag && n < BAG_CAP {
                out[n] = BagAnchor { cx: d.cx, cz: d.cz, level: d.level, ready: self.bag_ready[i] <= tick };
                proof {
                    assert(bag_nth(self.entries@, *dc, owner, i as int, n as int));
                    lemma_bag_nth_unique(self.entries@, *dc, owner, n as int, i as int);
                }
                n += 1;
            }
            i += 1;
        }
        n
    }

    /// Swap-remove record `i` with its side records: a hearth at its
    /// address leaves the hearth list; a box at its address leaves the box
    /// list, and is queued to spill if it held anything and the tick's
    /// spill budget has room.
    pub fn remove_at(&mut self, i: usize, dc: &DeployContent)
        requires
            old(self).wf(),
            i < old(self).recs().len(),
        ensures
            final(self).wf(),
            final(self).recs() == lock::swap_removed(old(self).recs(), i as int),
            final(self).readies() == lock::swap_removed(old(self).readies(), i as int),
            final(self).placed_ticks() == lock::swap_removed(old(self).placed_ticks(), i as int),
            final(self).lock_models() == old(self).lock_models(),
            final(self).hearth_models() == hearths_after_drop(old(self).hearth_models(), *dc, old(self).recs()[i as int]),
            final(self).box_recs() == boxes_after_drop(old(self).box_recs(), *dc, old(self).recs()[i as int]),
            final(self).spilled() == spill_after_drop(
                old(self).box_recs(),
                old(self).spilled(),
                *dc,
                old(self).recs()[i as int],
            ),
    {
        let rec = self.entries[i];
        self.entries.swap_remove(i);
        self.bag_ready.swap_remove(i);
        self.placed.swap_remove(i);
        let arch = if (rec.row as usize) < MAX_DEPLOY_DEFS { dc.defs[rec.row as usize].arch } else { ARCH_BAG };
        if arch == ARCH_HEARTH {
            self.remove_hearth(rec.cx, rec.cz, rec.level);
        }
        if holds_items(arch) {
            self.remove_box(box_key(rec.cx, rec.cz, rec.level));
        }
    }

    /// Drop the hearth at this address from the hearth list, if any.
    fn remove_hearth(&mut self, cx: u16, cz: u16, level: u8)
        requires
            old(self).wf(),
        ensures
            final(self).wf(),
            final(self).recs() == old(self).recs(),
            final(self).readies() == old(self).readies(),
            final(self).placed_ticks() == old(self).placed_ticks(),
            final(self).lock_models() == old(self).lock_models(),
            final(self).box_recs() == old(self).box_recs(),
            final(self).spilled() == old(self).spilled(),
            final(self).hearth_models() == match first_hearth_from(old(self).hearth_models(), cx, cz, level, 0) {
                None => old(self).hearth_models(),
                Some(h) => lock::swap_removed(old(self).hearth_models(), h),
            },
    {
        let ghost hs = self.hearth_models();
        if let Some(h) = self.hearth_find(cx, cz, level) {
            self.hearths.swap_remove(h);
            assert(self.hearth_models() =~= lock::swap_removed(hs, h as int));
        }
    }

    /// Drop the box at this packed address, if any, queueing it to spill
    /// when it held something and the tick's spill budget has room.
    fn remove_box(&mut self, key: u32)
        requires
            old(self).wf(),
        ensures
            final(self).wf(),
            final(self).recs() == old(self).recs(),
            final(self).readies() == old(self).readies(),
            final(self).placed_ticks() == old(self).placed_ticks(),
            final(self).lock_models() == old(self).lock_models(),
            final(self).hearth_models() == old(self).hearth_models(),
            final(self).box_recs() == match box_at(old(self).box_recs(), key) {
                None => old(self).box_recs(),
                Some(b) => lock::swap_removed(old(self).box_recs(), b),
            },
            final(self).spilled() == match box_at(old(self).box_recs(), key) {
                Some(b) => if !spec_box_empty(old(self).box_recs()[b]) && old(self).spilled().len()
                    < MAX_BOX_SPILL_PER_TICK {
                    old(self).spilled().push(old(self).box_recs()[b])
                } else {
                    old(self).spilled()
                },
                None => old(self).spilled(),
            },
    {
        let ghost ob = self.boxes.entries@;
        if let Some(b) = self.box_index(key) {
            let bx = self.boxes.entries[b];
            self.boxes.entries.swap_remove(b);
            assert(self.boxes.entries@ =~= lock::swap_removed(ob, b as int));
            if !bx.is_empty() && self.boxes.spill.len() < MAX_BOX_SPILL_PER_TICK {
                self.boxes.spill.push(bx);
            }
        }
    }
}

/// `owner`'s bags among the first `k` records (a row past the table reads
/// as the inert bag row).
pub open spec fn own_bags_in(s: Seq<DeployRec>, dc: DeployContent, owner: u32, k: int) -> int
    decreases k,
{
    if k <= 0 {
        0
    } else {
        own_bags_in(s, dc, owner, k - 1) + (if s[k - 1].owner == owner && arch_of(dc, s[k - 1].row) == ARCH_BAG { 1int } else { 0 })
    }
}

/// Record `i` is `owner`'s `k`-th bag (from 0), in store order.
pub open spec fn bag_nth(s: Seq<DeployRec>, dc: DeployContent, owner: u32, i: int, k: int) -> bool {
    &&& 0 <= i < s.len()
    &&& s[i].owner == owner
    &&& arch_of(dc, s[i].row) == ARCH_BAG
    &&& own_bags_in(s, dc, owner, i) == k
}

/// The anchor of `owner`'s `k`-th bag.
pub open spec fn bag_anchor(s: Seq<DeployRec>, ready: Seq<u64>, dc: DeployContent, owner: u32, k: int, tick: u64) -> BagAnchor {
    let i = choose|i: int| bag_nth(s, dc, owner, i, k);
    BagAnchor { cx: s[i].cx, cz: s[i].cz, level: s[i].level, ready: ready[i] <= tick }
}

proof fn lemma_own_bags_mono(s: Seq<DeployRec>, dc: DeployContent, owner: u32, a: int, b: int)
    requires
        0 <= a <= b <= s.len(),
    ensures
        own_bags_in(s, dc, owner, a) <= own_bags_in(s, dc, owner, b),
    decreases b - a,
{
    if a < b {
        lemma_own_bags_mono(s, dc, owner, a, b - 1);
    }
}

/// Only one record is anyone's `k`-th bag.
proof fn lemma_bag_nth_unique(s: Seq<DeployRec>, dc: DeployContent, owner: u32, k: int, i: int)
    requires
        bag_nth(s, dc, owner, i, k),
    ensures
        (choose|j: int| bag_nth(s, dc, owner, j, k)) == i,
{
    let j = choose|j: int| bag_nth(s, dc, owner, j, k);
    assert(bag_nth(s, dc, owner, j, k));
    if j < i {
        lemma_own_bags_mono(s, dc, owner, j + 1, i);
    } else if i < j {
        lemma_own_bags_mono(s, dc, owner, i + 1, j);
    }
}

proof fn lemma_own_bags_step(s: Seq<DeployRec>, dc: DeployContent, owner: u32, i: int)
    requires
        0 <= i < s.len(),
    ensures
        own_bags_in(s, dc, owner, i + 1) == own_bags_in(s, dc, owner, i) + (if s[i].owner == owner && arch_of(dc, s[i].row) == ARCH_BAG { 1int } else { 0 }),
{
}

/// The packed address of a box record.
pub open spec fn box_key_of(b: BoxRec) -> u32 {
    box_key_bits(b.cx, b.cz, b.level)
}

/// The first box with this packed address, searching from index `k`.
pub open spec fn first_box_from(boxes: Seq<BoxRec>, key: u32, k: int) -> Option<int>
    decreases boxes.len() - k,
{
    if k < 0 || k >= boxes.len() {
        None
    } else if box_key_of(boxes[k]) == key {
        Some(k)
    } else {
        first_box_from(boxes, key, k + 1)
    }
}

/// The box a packed address names: the first with that key. Key 0 names
/// none.
pub open spec fn box_at(boxes: Seq<BoxRec>, key: u32) -> Option<int> {
    if key == 0 { None } else { first_box_from(boxes, key, 0) }
}

/// The hearth list after the deployable `d` leaves: a hearth takes the
/// first hearth record at its address with it.
pub open spec fn hearths_after_drop(hs: Seq<HearthModel>, dc: DeployContent, d: DeployRec) -> Seq<HearthModel> {
    if arch_of(dc, d.row) == ARCH_HEARTH {
        match first_hearth_from(hs, d.cx, d.cz, d.level, 0) {
            None => hs,
            Some(h) => lock::swap_removed(hs, h),
        }
    } else {
        hs
    }
}

/// The box list after the deployable `d` leaves: one that holds items
/// takes its box with it.
pub open spec fn boxes_after_drop(boxes: Seq<BoxRec>, dc: DeployContent, d: DeployRec) -> Seq<BoxRec> {
    if spec_holds_items(arch_of(dc, d.row)) {
        match box_at(boxes, box_key_bits(d.cx, d.cz, d.level)) {
            None => boxes,
            Some(b) => lock::swap_removed(boxes, b),
        }
    } else {
        boxes
    }
}

/// The spill queue after the deployable `d` leaves: its box, when it held
/// anything and the tick's budget has room.
pub open spec fn spill_after_drop(boxes: Seq<BoxRec>, spill: Seq<BoxRec>, dc: DeployContent, d: DeployRec) -> Seq<BoxRec> {
    if spec_holds_items(arch_of(dc, d.row)) {
        match box_at(boxes, box_key_bits(d.cx, d.cz, d.level)) {
            Some(b) => if !spec_box_empty(boxes[b]) && spill.len() < MAX_BOX_SPILL_PER_TICK {
                spill.push(boxes[b])
            } else {
                spill
            },
            None => spill,
        }
    } else {
        spill
    }
}

/// Decay per period for a piece of `material`: its priced rate, or the
/// flat rate when the ladder prices nothing for it.
pub open spec fn spec_piece_decay_pct(dc: DeployContent, material: u8) -> u32 {
    if (material as int) < DECAY_MATERIALS && dc.decay_pct[material as int] > 0 {
        dc.decay_pct[material as int] as u32
    } else {
        DECAY_PCT_PER_PERIOD
    }
}

/// Decay per period for a piece of `material`.
pub fn piece_decay_pct(dc: &DeployContent, material: u8) -> (p: u32)
    ensures
        p == spec_piece_decay_pct(*dc, material),
{
    if (material as usize) < DECAY_MATERIALS && dc.decay_pct[material as usize] > 0 {
        dc.decay_pct[material as usize] as u32
    } else {
        DECAY_PCT_PER_PERIOD
    }
}

/// Hp one decay period takes: `pct` % of `max_hp`, never less than 1
/// (kept to its low 16 bits, as the store holds it).
pub fn decay_at(max_hp: u16, pct: u32) -> (d: u16)
    requires
        max_hp as int * pct <= u32::MAX,
    ensures
        d as int == (if max_hp as int * pct / 100 >= 1 { max_hp as int * pct / 100 } else { 1 }) % 0x1_0000,
        pct <= 100 ==> d >= 1 && (d <= max_hp || max_hp == 0),
{
    let v = (max_hp as u32 * pct) / 100;
    let w: u32 = if v >= 1 { v } else { 1 };
    proof {
        if pct <= 100 {
            assert(max_hp as int * pct / 100 <= max_hp) by (nonlinear_arith)
                requires
                    pct <= 100,
            ;
        }
    }
    let low = w % 0x1_0000;
    assert(low < 0x1_0000);
    low as u16
}

/// One period's upkeep for a cost of `cost` at `pct` % a day, rounded up.
pub fn charge_of(cost: u16, pct: u16) -> (c: u32)
    ensures
        c == (cost as int * pct as int + 2399) / 2400,
{
    assert(cost as u32 * pct as u32 <= 65535 * 65535) by (nonlinear_arith);
    let num = cost as u32 * pct as u32;
    (num + 2399) / (100 * PERIODS_PER_DAY)
}


/// The first record at this address, searching from index `k`.
pub open spec fn first_deploy_from(s: Seq<DeployRec>, cx: u16, cz: u16, level: u8, loc: u8, k: int) -> Option<int>
    decreases s.len() - k,
{
    if k < 0 || k >= s.len() {
        None
    } else if deploy_at(s[k], cx, cz, level, loc) {
        Some(k)
    } else {
        first_deploy_from(s, cx, cz, level, loc, k + 1)
    }
}

proof fn lemma_first_deploy(s: Seq<DeployRec>, cx: u16, cz: u16, level: u8, loc: u8, i: int)
    requires
        0 <= i <= s.len(),
        forall|j: int| 0 <= j < i ==> !deploy_at(#[trigger] s[j], cx, cz, level, loc),
    ensures
        first_deploy_from(s, cx, cz, level, loc, 0) == first_deploy_from(s, cx, cz, level, loc, i),
    decreases i,
{
    if i > 0 {
        lemma_first_deploy(s, cx, cz, level, loc, i - 1);
        assert(!deploy_at(s[i - 1], cx, cz, level, loc));
    }
}

/// The deployable a lock verb at this address works on: the first record
/// there, when its archetype can carry a lock.
pub open spec fn lock_target(s: Seq<DeployRec>, dc: DeployContent, cx: u16, cz: u16, level: u8, loc: u8) -> Option<int> {
    match first_deploy_from(s, cx, cz, level, loc, 0) {
        Some(i) => if spec_lockable(arch_of(dc, s[i].row)) { Some(i) } else { None },
        None => None,
    }
}

/// The door a use at this address swings: the first record there, when
/// it is a door.
pub open spec fn door_target(s: Seq<DeployRec>, dc: DeployContent, cx: u16, cz: u16, level: u8, loc: u8) -> Option<int> {
    match first_deploy_from(s, cx, cz, level, loc, 0) {
        Some(i) => if arch_of(dc, s[i].row) == ARCH_DOOR { Some(i) } else { None },
        None => None,
    }
}

/// The arch of a record's row.
fn row_arch(dc: &DeployContent, row: u8) -> (a: u8)
    ensures
        a == arch_of(*dc, row),
{
    if (row as usize) < MAX_DEPLOY_DEFS {
        dc.defs[row as usize].arch
    } else {
        ARCH_BAG
    }
}

/// The first lock row of the table, searching from row `k`.
pub open spec fn lock_row_from(dc: DeployContent, k: int) -> Option<int>
    decreases MAX_DEPLOY_DEFS - k,
{
    if k < 0 || k >= dc.def_count || k >= MAX_DEPLOY_DEFS {
        None
    } else if dc.defs[k].arch == ARCH_LOCK {
        Some(k)
    } else {
        lock_row_from(dc, k + 1)
    }
}

/// The row the code lock is baked at, if the table has one.
fn lock_row(dc: &DeployContent) -> (r: Option<usize>)
    ensures
        match r {
            Some(k) => lock_row_from(*dc, 0) == Some(k as int) && k < MAX_DEPLOY_DEFS,
            None => lock_row_from(*dc, 0) == None::<int>,
        },
{
    let n: usize = if (dc.def_count as usize) < MAX_DEPLOY_DEFS { dc.def_count as usize } else { MAX_DEPLOY_DEFS };
    let mut k: usize = 0;
    while k < n
        invariant
            k <= n,
            n <= MAX_DEPLOY_DEFS,
            n <= dc.def_count,
            n == MAX_DEPLOY_DEFS || n == dc.def_count,
            lock_row_from(*dc, 0) == lock_row_from(*dc, k as int),
        decreases n - k,
    {
        if dc.defs[k].arch == ARCH_LOCK {
            return Some(k);
        }
        k += 1;
    }
    None
}

/// A refusal addressed to `id`.
pub open spec fn refused(id: u32, reason: u32) -> Event {
    Event { code: EV_DEPLOY_REFUSED, a: id, b: reason, c: 0 }
}

/// A deployable's whole leaf-and-lock state, packed as the door event
/// carries it.
pub open spec fn door_word(d: DeployRec) -> u32 {
    ((d.level as u32) << 16u32) | ((d.loc as u32) << 8u32) | (if d.has_lock { 4u32 } else { 0u32 }) | (if d.locked {
        2u32
    } else {
        0u32
    }) | (if d.open { 1u32 } else { 0u32 })
}

/// The door announcement for a record, made by `by`.
pub open spec fn door_event(d: DeployRec, by: u32) -> Event {
    Event { code: EV_DOOR, a: spec_cell_key(d.cx, d.cz), b: door_word(d), c: by }
}

/// The announcement that `by` now holds `grant` at the lock at this address.
pub open spec fn auth_event(cx: u16, cz: u16, level: u8, loc: u8, grant: u8, by: u32) -> Event {
    Event {
        code: EV_AUTH,
        a: spec_cell_key(cx, cz),
        b: ((level as u32) << 16u32) | ((loc as u32) << 8u32) | (grant as u32),
        c: by,
    }
}

/// An absolute health reading.
pub open spec fn health_event(id: u32, hp: u16, hp_max: u16) -> Event {
    Event { code: EV_HEALTH, a: id, b: hp as u32, c: hp_max as u32 }
}

/// What a shock of `amount` takes from `hp`: never the last point.
pub open spec fn shock_took(hp: u16, amount: u16) -> int {
    if amount as int <= lock::sat_sub(hp, 1) { amount as int } else { lock::sat_sub(hp, 1) }
}

/// Announce the record at `i`'s leaf-and-lock state.
fn announce_door(deploys: &Deploys, i: usize, by: u32, events: &mut EventQueue)
    requires
        i < deploys.recs().len(),
    ensures
        final(events)@ == old(events)@.push(door_event(deploys.recs()[i as int], by)),
{
    let d = &deploys.entries[i];
    let word = ((d.level as u32) << 16) | ((d.loc as u32) << 8) | (if d.has_lock { 4u32 } else { 0u32 }) | (if d.locked {
        2u32
    } else {
        0u32
    }) | (if d.open { 1u32 } else { 0u32 });
    events.push(EV_DOOR, cell_key(d.cx, d.cz), word, by);
}

/// What a lock verb does once its door and its lock are found: `di` is
/// the record, `li` the lock.
pub open spec fn spec_lock_settle(
    recs: Seq<DeployRec>,
    locks: Seq<LockModel>,
    id: u32,
    hp: u16,
    hp_max: u16,
    cx: u16,
    cz: u16,
    level: u8,
    loc: u8,
    di: int,
    li: int,
    op: u8,
    code: u16,
    tick: u64,
) -> (Seq<DeployRec>, Seq<LockModel>, Seq<Event>, u16, bool, Option<u32>) {
    let m = locks[li];
    let (m2, out) = lock::spec_apply(m, id, op, code, tick);
    let kept = locks.update(li, m2);
    match out {
        Outcome::Done { relock } => {
            let d = DeployRec { locked: relock, ..recs[di] };
            (recs.update(di, d), kept, seq![door_event(d, id)], hp, false, None)
        },
        Outcome::Removed => {
            let d = DeployRec { has_lock: false, locked: false, ..recs[di] };
            (
                recs.update(di, d),
                lock::swap_removed(locks, li),
                seq![door_event(d, id)],
                hp,
                true,
                None,
            )
        },
        Outcome::Authorized { grant } => (
            recs,
            kept,
            seq![auth_event(cx, cz, level, loc, grant, id)],
            hp,
            false,
            Some(m.owner),
        ),
        Outcome::Wrong { shock, shut } => {
            let hp2 = (hp - shock_took(hp, shock)) as u16;
            (
                recs,
                kept,
                seq![
                    health_event(id, hp2, hp_max),
                    refused(id, if shut { REFUSE_D_LOCKOUT } else { REFUSE_D_CODE }),
                ],
                hp2,
                false,
                None,
            )
        },
        Outcome::LockedOut => (recs, kept, seq![refused(id, REFUSE_D_LOCKOUT)], hp, false, None),
        Outcome::Denied => (recs, kept, seq![refused(id, REFUSE_D_OWNER)], hp, false, None),
        Outcome::ListFull => (recs, kept, seq![refused(id, REFUSE_D_AUTH_FULL)], hp, false, None),
        Outcome::BadOp => (recs, kept, seq![refused(id, REFUSE_D_KIND)], hp, false, None),
    }
}

/// The lock item's way back to the sender: when `give` holds and the
/// table bakes a lock row, one of its item goes into the hands and what
/// will not fit into `spill`; otherwise neither moves.
pub open spec fn lock_item_handed(
    dc: DeployContent,
    gc: GatherContent,
    give: bool,
    inv0: Seq<ItemStack>,
    inv1: Seq<ItemStack>,
    spill0: Seq<ItemStack>,
    spill1: Seq<ItemStack>,
) -> bool {
    if give && lock_row_from(dc, 0) is Some {
        let item = dc.defs[lock_row_from(dc, 0)->0].item;
        let sm = table_of(gc.stack_max@, item);
        let cm = table_of(gc.cond_max@, item);
        let lost = inv_add_lost(inv0, item, 1, sm);
        &&& forall|k: int| 0 <= k < INV_SLOTS ==> #[trigger] inv1[k] == added_slot(inv0, item, 1, sm, cm, k)
        &&& forall|k: int| 0 <= k < INV_SLOTS ==> #[trigger] spill1[k] == (if lost > 0 {
            added_slot(spill0, item, 1, sm, cm, k)
        } else {
            spill0[k]
        })
    } else {
        inv1 == inv0 && spill1 == spill0
    }
}

/// What one lock verb does, as a whole: the records and locks after it,
/// the events it announces, the sender's hp after it, whether the lock
/// item comes back to the sender's hands, and whose lock it was when a
/// hand was newly trusted.
pub open spec fn spec_lock_op(
    recs: Seq<DeployRec>,
    locks: Seq<LockModel>,
    dc: DeployContent,
    id: u32,
    hp: u16,
    hp_max: u16,
    cx: u16,
    cz: u16,
    level: u8,
    loc: u8,
    op: u8,
    code: u16,
    tick: u64,
    in_reach: bool,
) -> (Seq<DeployRec>, Seq<LockModel>, Seq<Event>, u16, bool, Option<u32>) {
    match lock_target(recs, dc, cx, cz, level, loc) {
        None => (recs, locks, seq![refused(id, REFUSE_D_DOOR)], hp, false, None),
        Some(di) => if !in_reach {
            (recs, locks, seq![refused(id, REFUSE_D_REACH)], hp, false, None)
        } else {
            match lock::first_at(locks, cx, cz, level, loc) {
                None => (recs, locks, seq![refused(id, REFUSE_D_NO_LOCK)], hp, false, None),
                Some(li) => spec_lock_settle(recs, locks, id, hp, hp_max, cx, cz, level, loc, di, li, op, code, tick),
            }
        },
    }
}


/// The lock verb once its door (`di`) and its lock (`li`) are found.
fn settle_lock(
    dc: &DeployContent,
    gc: &GatherContent,
    deploys: &mut Deploys,
    p: &mut Player,
    di: usize,
    li: usize,
    cx: u16,
    cz: u16,
    level: u8,
    loc: u8,
    op: u8,
    code: u16,
    tick: u64,
    events: &mut EventQueue,
    spill: &mut [ItemStack; INV_SLOTS],
) -> (r: Option<u32>)
    requires
        old(deploys).wf(),
        di < old(deploys).recs().len(),
        li < old(deploys).lock_models().len(),
    ensures
        ({
            let res = spec_lock_settle(
                old(deploys).recs(),
                old(deploys).lock_models(),
                old(p).id,
                old(p).hp,
                old(p).hp_max,
                cx,
                cz,
                level,
                loc,
                di as int,
                li as int,
                op,
                code,
                tick,
            );
            &&& r == res.5
            &&& final(deploys).recs() == res.0
            &&& final(deploys).lock_models() == res.1
            &&& final(events)@ == old(events)@ + res.2
            &&& final(p).hp == res.3
            &&& lock_item_handed(*dc, *gc, res.4, old(p).inv@, final(p).inv@, old(spill)@, final(spill)@)
        }),
        *final(p) == (Player { hp: final(p).hp, inv: final(p).inv, ..*old(p) }),
        final(deploys).wf(),
        final(deploys).readies() == old(deploys).readies(),
        final(deploys).placed_ticks() == old(deploys).placed_ticks(),
        final(deploys).box_recs() == old(deploys).box_recs(),
        final(deploys).spilled() == old(deploys).spilled(),
        final(deploys).hearth_count() == old(deploys).hearth_count(),
{
    let owner = deploys.locks.entries()[li].owner;
    let out = lock::apply(&mut deploys.locks, li, p.id, op, code, tick);
    match out {
        Outcome::Done { relock } => {
            let d = DeployRec { locked: relock, ..deploys.entries[di] };
            deploys.entries.set(di, d);
            announce_door(deploys, di, p.id, events);
            assert(events@ == old(events)@ + seq![door_event(d, p.id)]);
        },
        Outcome::Removed => {
            match lock_row(dc) {
                Some(r) => {
                    let item = dc.defs[r].item;
                    lock::give_back(&mut p.inv, spill, item, gc.stack_max_of(item), gc.cond_max_of(item));
                },
                None => {},
            }
            let d = DeployRec { has_lock: false, locked: false, ..deploys.entries[di] };
            deploys.entries.set(di, d);
            announce_door(deploys, di, p.id, events);
            assert(events@ == old(events)@ + seq![door_event(d, p.id)]);
        },
        Outcome::Authorized { grant } => {
            events.push(EV_AUTH, cell_key(cx, cz), ((level as u32) << 16) | ((loc as u32) << 8) | grant as u32, p.id);
            assert(events@ == old(events)@ + seq![auth_event(cx, cz, level, loc, grant, p.id)]);
            return Some(owner);
        },
        Outcome::Wrong { shock, shut } => {
            lock::shock(&mut p.hp, shock);
            events.push(EV_HEALTH, p.id, p.hp as u32, p.hp_max as u32);
            let reason = if shut { REFUSE_D_LOCKOUT } else { REFUSE_D_CODE };
            events.push(EV_DEPLOY_REFUSED, p.id, reason, 0);
            assert(events@ == old(events)@ + seq![health_event(p.id, p.hp, p.hp_max), refused(p.id, reason)]);
        },
        Outcome::LockedOut => {
            events.push(EV_DEPLOY_REFUSED, p.id, REFUSE_D_LOCKOUT, 0);
            assert(events@ == old(events)@ + seq![refused(p.id, REFUSE_D_LOCKOUT)]);
        },
        Outcome::Denied => {
            events.push(EV_DEPLOY_REFUSED, p.id, REFUSE_D_OWNER, 0);
            assert(events@ == old(events)@ + seq![refused(p.id, REFUSE_D_OWNER)]);
        },
        Outcome::ListFull => {
            events.push(EV_DEPLOY_REFUSED, p.id, REFUSE_D_AUTH_FULL, 0);
            assert(events@ == old(events)@ + seq![refused(p.id, REFUSE_D_AUTH_FULL)]);
        },
        Outcome::BadOp => {
            events.push(EV_DEPLOY_REFUSED, p.id, REFUSE_D_KIND, 0);
            assert(events@ == old(events)@ + seq![refused(p.id, REFUSE_D_KIND)]);
        },
    }
    None
}

/// Apply one lock request: run `op` against the code lock at the address.
///
/// The deployable there must be lockable (a door or a box) and within
/// build reach of the sender — `in_reach` is that measurement, which the
/// caller takes from the bodies' float positions. `lock::apply` decides;
/// this function spends the shock, hands the lock item back (spilling
/// what will not fit), mirrors the bits onto the record and announces.
/// Returns the lock's owner when a hand was newly trusted.
pub fn lock_op(
    dc: &DeployContent,
    gc: &GatherContent,
    deploys: &mut Deploys,
    p: &mut Player,
    cx: u16,
    cz: u16,
    level: u8,
    loc: u8,
    op: u8,
    code: u16,
    tick: u64,
    in_reach: bool,
    events: &mut EventQueue,
    spill: &mut [ItemStack; INV_SLOTS],
) -> (r: Option<u32>)
    requires
        old(deploys).wf(),
    ensures
        ({
            let res = spec_lock_op(
                old(deploys).recs(),
                old(deploys).lock_models(),
                *dc,
                old(p).id,
                old(p).hp,
                old(p).hp_max,
                cx,
                cz,
                level,
                loc,
                op,
                code,
                tick,
                in_reach,
            );
            &&& r == res.5
            &&& final(deploys).recs() == res.0
            &&& final(deploys).lock_models() == res.1
            &&& final(events)@ == old(events)@ + res.2
            &&& final(p).hp == res.3
            &&& lock_item_handed(*dc, *gc, res.4, old(p).inv@, final(p).inv@, old(spill)@, final(spill)@)
        }),
        *final(p) == (Player { hp: final(p).hp, inv: final(p).inv, ..*old(p) }),
        final(deploys).wf(),
        final(deploys).readies() == old(deploys).readies(),
        final(deploys).placed_ticks() == old(deploys).placed_ticks(),
        final(deploys).box_recs() == old(deploys).box_recs(),
        final(deploys).spilled() == old(deploys).spilled(),
        final(deploys).hearth_count() == old(deploys).hearth_count(),
{
    let ghost recs0 = deploys.recs();
    let di = match deploys.find_index(cx, cz, level, loc) {
        Some(i) => {
            proof {
                lemma_first_deploy(recs0, cx, cz, level, loc, i as int);
            }
            if !lockable(row_arch(dc, deploys.entries[i].row)) {
                events.push(EV_DEPLOY_REFUSED, p.id, REFUSE_D_DOOR, 0);
                assert(events@ == old(events)@ + seq![refused(p.id, REFUSE_D_DOOR)]);
                return None;
            }
            i
        },
        None => {
            proof {
                lemma_first_deploy(recs0, cx, cz, level, loc, recs0.len() as int);
            }
            events.push(EV_DEPLOY_REFUSED, p.id, REFUSE_D_DOOR, 0);
            assert(events@ == old(events)@ + seq![refused(p.id, REFUSE_D_DOOR)]);
            return None;
        },
    };
    if !in_reach {
        events.push(EV_DEPLOY_REFUSED, p.id, REFUSE_D_REACH, 0);
        assert(events@ == old(events)@ + seq![refused(p.id, REFUSE_D_REACH)]);
        return None;
    }
    let li = match deploys.locks.find_index(cx, cz, level, loc) {
        Some(li) => li,
        None => {
            events.push(EV_DEPLOY_REFUSED, p.id, REFUSE_D_NO_LOCK, 0);
            assert(events@ == old(events)@ + seq![refused(p.id, REFUSE_D_NO_LOCK)]);
            return None;
        },
    };
    settle_lock(dc, gc, deploys, p, di, li, cx, cz, level, loc, op, code, tick, events, spill)
}

/// The knock a refused hand makes on a door.
pub open spec fn knock_event(cx: u16, cz: u16, level: u8, loc: u8, by: u32) -> Event {
    Event { code: EV_KNOCK, a: spec_cell_key(cx, cz), b: ((level as u32) << 16u32) | ((loc as u32) << 8u32), c: by }
}

/// Apply one use request: toggle the door at the address.
///
/// Any hand within build reach (`in_reach`, measured by the caller from
/// the bodies' float positions) that the lock there lets through may
/// swing the leaf — every hand, where no lock is bolted. A refusal knocks:
/// the leaf does not move, the sender hears why and everyone hears the
/// knock. The collision mirror of the shut bit lives with the building
/// store, which the caller updates from the record's new `open` bit.
/// Returns the door's owner when the leaf moved.
pub fn use_door(
    dc: &DeployContent,
    deploys: &mut Deploys,
    p: &Player,
    cx: u16,
    cz: u16,
    level: u8,
    loc: u8,
    in_reach: bool,
    events: &mut EventQueue,
) -> (r: Option<u32>)
    requires
        old(deploys).wf(),
    ensures
        final(deploys).wf(),
        final(deploys).lock_models() == old(deploys).lock_models(),
        final(deploys).readies() == old(deploys).readies(),
        final(deploys).placed_ticks() == old(deploys).placed_ticks(),
        final(deploys).box_recs() == old(deploys).box_recs(),
        final(deploys).spilled() == old(deploys).spilled(),
        final(deploys).hearth_count() == old(deploys).hearth_count(),
        match door_target(old(deploys).recs(), *dc, cx, cz, level, loc) {
            None => r == None::<u32> && final(deploys).recs() == old(deploys).recs()
                && final(events)@ == old(events)@.push(refused(p.id, REFUSE_D_DOOR)),
            Some(i) => if !in_reach {
                r == None::<u32> && final(deploys).recs() == old(deploys).recs()
                    && final(events)@ == old(events)@.push(refused(p.id, REFUSE_D_REACH))
            } else if !lock::spec_locks_pass(old(deploys).lock_models(), cx, cz, level, loc, p.id) {
                r == None::<u32> && final(deploys).recs() == old(deploys).recs()
                    && final(events)@ == old(events)@ + seq![knock_event(cx, cz, level, loc, p.id), refused(p.id, REFUSE_D_OWNER)]
            } else {
                let d = DeployRec { open: !old(deploys).recs()[i].open, ..old(deploys).recs()[i] };
                &&& r == Some(old(deploys).recs()[i].owner)
                &&& final(deploys).recs() == old(deploys).recs().update(i, d)
                &&& final(events)@ == old(events)@.push(door_event(d, p.id))
            },
        },
{
    let ghost recs0 = deploys.recs();
    let i = match deploys.find_index(cx, cz, level, loc) {
        Some(i) => {
            proof {
                lemma_first_deploy(recs0, cx, cz, level, loc, i as int);
            }
            if !arch_is_door(row_arch(dc, deploys.entries[i].row)) {
                events.push(EV_DEPLOY_REFUSED, p.id, REFUSE_D_DOOR, 0);
                return None;
            }
            i
        },
        None => {
            proof {
                lemma_first_deploy(recs0, cx, cz, level, loc, recs0.len() as int);
            }
            events.push(EV_DEPLOY_REFUSED, p.id, REFUSE_D_DOOR, 0);
            return None;
        },
    };
    if !in_reach {
        events.push(EV_DEPLOY_REFUSED, p.id, REFUSE_D_REACH, 0);
        return None;
    }
    if !deploys.lock_passes(cx, cz, level, loc, p.id) {
        events.push(EV_KNOCK, cell_key(cx, cz), ((level as u32) << 16) | ((loc as u32) << 8), p.id);
        events.push(EV_DEPLOY_REFUSED, p.id, REFUSE_D_OWNER, 0);
        assert(events@ == old(events)@ + seq![knock_event(cx, cz, level, loc, p.id), refused(p.id, REFUSE_D_OWNER)]);
        return None;
    }
    let d = DeployRec { open: !deploys.entries[i].open, ..deploys.entries[i] };
    deploys.entries.set(i, d);
    announce_door(deploys, i, p.id, events);
    Some(d.owner)
}

/// The first hearth at this address, searching from index `k`.
pub open spec fn first_hearth_from(s: Seq<HearthModel>, cx: u16, cz: u16, level: u8, k: int) -> Option<int>
    decreases s.len() - k,
{
    if k < 0 || k >= s.len() {
        None
    } else if s[k].cx == cx && s[k].cz == cz && s[k].level == level {
        Some(k)
    } else {
        first_hearth_from(s, cx, cz, level, k + 1)
    }
}

/// What one crew op does to the hearths, what it announces and, when the
/// crew's membership moved, whose hearth it was.
pub open spec fn spec_crew_op(
    hearths: Seq<HearthModel>,
    id: u32,
    cx: u16,
    cz: u16,
    level: u8,
    op: u8,
    in_reach: bool,
) -> (Seq<HearthModel>, Seq<Event>, Option<u32>) {
    match first_hearth_from(hearths, cx, cz, level, 0) {
        None => (hearths, seq![refused(id, REFUSE_D_HEARTH)], None),
        Some(h) => if !in_reach {
            (hearths, seq![refused(id, REFUSE_D_REACH)], None)
        } else {
            let hr = hearths[h];
            let crew = hr.crew;
            let full = auth_event(cx, cz, level, LOC_PLANE, lock::GRANT_FULL, id);
            let none = auth_event(cx, cz, level, LOC_PLANE, lock::GRANT_NONE, id);
            if op == ACCESS_OP_CREW_JOIN {
                if crew.len() > 0 && !crew.contains(id) {
                    (hearths, seq![refused(id, REFUSE_D_OWNER)], None)
                } else if crew.contains(id) {
                    (hearths, seq![full], None)
                } else if crew.len() >= HEARTH_CREW_CAP {
                    (hearths, seq![refused(id, REFUSE_D_AUTH_FULL)], None)
                } else {
                    (hearths.update(h, HearthModel { crew: crew.push(id), ..hr }), seq![full], Some(hr.owner))
                }
            } else if op == ACCESS_OP_CREW_LEAVE {
                if crew.contains(id) {
                    (
                        hearths.update(h, HearthModel { crew: crew.remove(crew.index_of(id)), ..hr }),
                        seq![none],
                        Some(hr.owner),
                    )
                } else {
                    (hearths, seq![none], None)
                }
            } else if op == ACCESS_OP_CREW_CLEAR {
                if !crew.contains(id) {
                    (hearths, seq![refused(id, REFUSE_D_OWNER)], None)
                } else {
                    (hearths.update(h, HearthModel { crew: seq![id], ..hr }), seq![full], Some(hr.owner))
                }
            } else {
                (hearths, seq![refused(id, REFUSE_D_KIND)], None)
            }
        },
    }
}

impl Deploys {
    /// Index of the first hearth at this address.
    fn hearth_find(&self, cx: u16, cz: u16, level: u8) -> (r: Option<usize>)
        ensures
            match r {
                Some(h) => first_hearth_from(self.hearth_models(), cx, cz, level, 0) == Some(h as int)
                    && h < self.hearth_models().len(),
                None => first_hearth_from(self.hearth_models(), cx, cz, level, 0) == None::<int>,
            },
    {
        let ghost hs = self.hearth_models();
        let mut h: usize = 0;
        while h < self.hearths.len()
            invariant
                h <= self.hearths@.len(),
                hs == self.hearth_models(),
                hs.len() == self.hearths@.len(),
                first_hearth_from(hs, cx, cz, level, 0) == first_hearth_from(hs, cx, cz, level, h as int),
            decreases self.hearths@.len() - h,
        {
            let hr = &self.hearths[h];
            assert(hs[h as int] == self.hearths@[h as int]@);
            if hr.cx == cx && hr.cz == cz && hr.level == level {
                return Some(h);
            }
            h += 1;
        }
        None
    }
}

/// Apply one crew op to the hearth at the address: join (anyone at an
/// empty crew, only a member at a crewed one — a member's re-press moves
/// nothing), leave (never refused: a refusal would tell a stranger whether
/// the crew knew them) or clear (a member only, leaving the clearer alone
/// on the crew). `in_reach` is whether the address lies within build reach
/// of the sender, which the caller measures from the bodies' float
/// positions. The sender hears its standing afterwards; the hearth's owner
/// comes back when the crew's membership actually moved.
pub fn crew_op(
    deploys: &mut Deploys,
    p: &Player,
    cx: u16,
    cz: u16,
    level: u8,
    op: u8,
    in_reach: bool,
    events: &mut EventQueue,
) -> (r: Option<u32>)
    requires
        old(deploys).wf(),
    ensures
        ({
            let res = spec_crew_op(old(deploys).hearth_models(), p.id, cx, cz, level, op, in_reach);
            &&& final(deploys).hearth_models() == res.0
            &&& final(events)@ == old(events)@ + res.1
            &&& r == res.2
        }),
        final(deploys).wf(),
        final(deploys).recs() == old(deploys).recs(),
        final(deploys).readies() == old(deploys).readies(),
        final(deploys).placed_ticks() == old(deploys).placed_ticks(),
        final(deploys).lock_models() == old(deploys).lock_models(),
        final(deploys).box_recs() == old(deploys).box_recs(),
        final(deploys).spilled() == old(deploys).spilled(),
{
    let ghost hs = deploys.hearth_models();
    let h = match deploys.hearth_find(cx, cz, level) {
        Some(h) => h,
        None => {
            events.push(EV_DEPLOY_REFUSED, p.id, REFUSE_D_HEARTH, 0);
            assert(events@ == old(events)@ + seq![refused(p.id, REFUSE_D_HEARTH)]);
            return None;
        },
    };
    if !in_reach {
        events.push(EV_DEPLOY_REFUSED, p.id, REFUSE_D_REACH, 0);
        assert(events@ == old(events)@ + seq![refused(p.id, REFUSE_D_REACH)]);
        return None;
    }
    assert(hs[h as int] == deploys.hearths@[h as int]@);
    let moved: bool;
    if op == ACCESS_OP_CREW_JOIN {
        if !deploys.hearths[h].crew.is_empty() && !deploys.hearths[h].crew.contains(p.id) {
            events.push(EV_DEPLOY_REFUSED, p.id, REFUSE_D_OWNER, 0);
            assert(events@ == old(events)@ + seq![refused(p.id, REFUSE_D_OWNER)]);
            return None;
        }
        let added = deploys.hearths[h].crew.add(p.id);
        if added == Added::Full {
            events.push(EV_DEPLOY_REFUSED, p.id, REFUSE_D_AUTH_FULL, 0);
            assert(events@ == old(events)@ + seq![refused(p.id, REFUSE_D_AUTH_FULL)]);
            assert(deploys.hearth_models() =~= hs);
            return None;
        }
        moved = added == Added::New;
        assert(deploys.hearths@[h as int].crew@[deploys.hearths@[h as int].crew@.len() - 1] == p.id || !moved);
    } else if op == ACCESS_OP_CREW_LEAVE {
        moved = deploys.hearths[h].crew.remove(p.id);
    } else if op == ACCESS_OP_CREW_CLEAR {
        if !deploys.hearths[h].crew.contains(p.id) {
            events.push(EV_DEPLOY_REFUSED, p.id, REFUSE_D_OWNER, 0);
            assert(events@ == old(events)@ + seq![refused(p.id, REFUSE_D_OWNER)]);
            return None;
        }
        deploys.hearths[h].crew.reset_to(p.id);
        assert(deploys.hearths@[h as int].crew@[0] == p.id);
        moved = true;
    } else {
        events.push(EV_DEPLOY_REFUSED, p.id, REFUSE_D_KIND, 0);
        assert(events@ == old(events)@ + seq![refused(p.id, REFUSE_D_KIND)]);
        return None;
    }
    let grant = if deploys.hearths[h].crew.contains(p.id) { lock::GRANT_FULL } else { lock::GRANT_NONE };
    events.push(
        EV_AUTH,
        cell_key(cx, cz),
        ((level as u32) << 16) | ((LOC_PLANE as u32) << 8) | grant as u32,
        p.id,
    );
    let ghost res = spec_crew_op(hs, p.id, cx, cz, level, op, in_reach);
    assert(deploys.hearth_models() =~= res.0);
    if moved {
        Some(deploys.hearths[h].owner)
    } else {
        None
    }
}

/// A feed press from material row `m` on: each row moves up to one
/// chunk of its item from the hands into the stock, never past the stock's
/// ceiling and never more than the hands hold.
pub open spec fn feed_from(dc: DeployContent, stock: Seq<u32>, inv: Seq<ItemStack>, m: int) -> (Seq<u32>, Seq<ItemStack>)
    decreases HEARTH_STOCK_ROWS - m,
{
    if m < 0 || m >= dc.mat_count || m >= HEARTH_STOCK_ROWS {
        (stock, inv)
    } else {
        let item = dc.mats[m];
        let want = min_int(min_int(FEED_CHUNK as int, sat(STOCK_MAX - stock[m])), count_in(inv, item, INV_SLOTS as int));
        feed_from(dc, stock.update(m, (stock[m] + want) as u32), taken(inv, item, want), m + 1)
    }
}

/// The acknowledgement of a feed.
pub open spec fn stock_event(id: u32, cx: u16, cz: u16, level: u8) -> Event {
    Event { code: EV_STOCK, a: id, b: spec_cell_key(cx, cz), c: level as u32 }
}

/// Feed the hearth at the address from the sender's hands: for each
/// upkeep material, up to one chunk, never past the stock ceiling. The
/// hearth must be within build reach (`in_reach`, measured by the caller
/// from the bodies' float positions).
pub fn feed(
    dc: &DeployContent,
    deploys: &mut Deploys,
    p: &mut Player,
    cx: u16,
    cz: u16,
    level: u8,
    in_reach: bool,
    events: &mut EventQueue,
)
    requires
        old(deploys).wf(),
        dc.mat_count as int <= HEARTH_STOCK_ROWS,
    ensures
        final(deploys).wf(),
        final(deploys).recs() == old(deploys).recs(),
        final(deploys).readies() == old(deploys).readies(),
        final(deploys).placed_ticks() == old(deploys).placed_ticks(),
        final(deploys).lock_models() == old(deploys).lock_models(),
        final(deploys).box_recs() == old(deploys).box_recs(),
        final(deploys).spilled() == old(deploys).spilled(),
        *final(p) == (Player { inv: final(p).inv, ..*old(p) }),
        match first_hearth_from(old(deploys).hearth_models(), cx, cz, level, 0) {
            None => final(deploys).hearth_models() == old(deploys).hearth_models() && final(p).inv == old(p).inv
                && final(events)@ == old(events)@.push(refused(old(p).id, REFUSE_D_HEARTH)),
            Some(h) => if !in_reach {
                final(deploys).hearth_models() == old(deploys).hearth_models() && final(p).inv == old(p).inv
                    && final(events)@ == old(events)@.push(refused(old(p).id, REFUSE_D_REACH))
            } else {
                let hr = old(deploys).hearth_models()[h];
                let fed = feed_from(*dc, hr.stock, old(p).inv@, 0);
                &&& final(deploys).hearth_models() == old(deploys).hearth_models().update(h, HearthModel { stock: fed.0, ..hr })
                &&& final(p).inv@ == fed.1
                &&& final(events)@ == old(events)@.push(stock_event(old(p).id, cx, cz, level))
            },
        },
{
    let ghost hs = deploys.hearth_models();
    let h = match deploys.hearth_find(cx, cz, level) {
        Some(h) => h,
        None => {
            events.push(EV_DEPLOY_REFUSED, p.id, REFUSE_D_HEARTH, 0);
            return;
        },
    };
    if !in_reach {
        events.push(EV_DEPLOY_REFUSED, p.id, REFUSE_D_REACH, 0);
        return;
    }
    assert(hs[h as int] == deploys.hearths@[h as int]@);
    let ghost goal = feed_from(*dc, hs[h as int].stock, p.inv@, 0);
    let ghost p0 = *p;
    let mut m: usize = 0;
    while m < dc.mat_count as usize
        invariant
            m <= dc.mat_count,
            dc.mat_count as int <= HEARTH_STOCK_ROWS,
            h < deploys.hearths@.len(),
            deploys.wf(),
            deploys.hearths@.len() == hs.len(),
            forall|j: int| 0 <= j < hs.len() && j != h ==> #[trigger] deploys.hearths@[j]@ == hs[j],
            deploys.hearths@[h as int]@ == (HearthModel { stock: deploys.hearths@[h as int]@.stock, ..hs[h as int] }),
            feed_from(*dc, deploys.hearths@[h as int].stock@, p.inv@, m as int) == goal,
            *p == (Player { inv: p.inv, ..p0 }),
            deploys.entries == old(deploys).entries,
            deploys.bag_ready == old(deploys).bag_ready,
            deploys.placed == old(deploys).placed,
            deploys.boxes == old(deploys).boxes,
            deploys.locks == old(deploys).locks,
        decreases dc.mat_count - m,
    {
        let item = dc.mats[m];
        let have = deploys.hearths[h].stock[m];
        let room: u32 = if have < STOCK_MAX { STOCK_MAX - have } else { 0 };
        let chunk: u32 = if FEED_CHUNK < room { FEED_CHUNK } else { room };
        let held = inv_count(&p.inv, item);
        let want: u32 = if chunk < held { chunk } else { held };
        if want > 0 {
            let took = inv_take(&mut p.inv, item, want);
            deploys.hearths[h].stock[m] = have + took;
        } else {
            proof {
                crate::craft::lemma_take_nothing(p.inv@, item);
            }
            assert(deploys.hearths@[h as int].stock@ =~= deploys.hearths@[h as int].stock@.update(m as int, have));
        }
        m += 1;
    }
    events.push(EV_STOCK, p.id, cell_key(cx, cz), level as u32);
    assert(deploys.hearth_models() =~= hs.update(h as int, HearthModel { stock: goal.0, ..hs[h as int] }));
}

/// A record's grid address and row, packed as the removal and hit events
/// carry them.
pub open spec fn address_word(d: DeployRec) -> u32 {
    ((d.level as u32) << 16u32) | ((d.loc as u32) << 8u32) | (d.row as u32)
}

/// The locks after the deployable `d` leaves: a lockable one takes the
/// lock bolted to its address with it.
pub open spec fn locks_after_drop(locks: Seq<LockModel>, dc: DeployContent, d: DeployRec) -> Seq<LockModel> {
    if spec_lockable(arch_of(dc, d.row)) {
        match lock::first_at(locks, d.cx, d.cz, d.level, d.loc) {
            None => locks,
            Some(i) => lock::swap_removed(locks, i),
        }
    } else {
        locks
    }
}

/// Remove the deployable at store index `di` — its hearth, its box (queued
/// to spill when it held anything) and, for a door or a box, the lock
/// bolted to it — and announce the removal. The one removal path: decay
/// and a raid both arrive here. The building store's collision mirror
/// (a door's seal, a solid volume) is the caller's, from the removed
/// record.
pub fn drop_deploy(dc: &DeployContent, deploys: &mut Deploys, di: usize, events: &mut EventQueue)
    requires
        old(deploys).wf(),
        di < old(deploys).recs().len(),
    ensures
        final(deploys).wf(),
        final(deploys).recs() == lock::swap_removed(old(deploys).recs(), di as int),
        final(deploys).readies() == lock::swap_removed(old(deploys).readies(), di as int),
        final(deploys).placed_ticks() == lock::swap_removed(old(deploys).placed_ticks(), di as int),
        final(deploys).lock_models() == locks_after_drop(old(deploys).lock_models(), *dc, old(deploys).recs()[di as int]),
        final(deploys).hearth_models() == hearths_after_drop(old(deploys).hearth_models(), *dc, old(deploys).recs()[di as int]),
        final(deploys).box_recs() == boxes_after_drop(old(deploys).box_recs(), *dc, old(deploys).recs()[di as int]),
        final(deploys).spilled() == spill_after_drop(
            old(deploys).box_recs(),
            old(deploys).spilled(),
            *dc,
            old(deploys).recs()[di as int],
        ),
        final(events)@ == old(events)@.push(
            Event {
                code: EV_DEPLOY_REMOVED,
                a: spec_cell_key(old(deploys).recs()[di as int].cx, old(deploys).recs()[di as int].cz),
                b: address_word(old(deploys).recs()[di as int]),
                c: 0,
            },
        ),
{
    let rec = deploys.entries[di];
    deploys.remove_at(di, dc);
    if lockable(row_arch(dc, rec.row)) {
        deploys.locks.remove_at_address(rec.cx, rec.cz, rec.level, rec.loc);
    }
    events.push(
        EV_DEPLOY_REMOVED,
        cell_key(rec.cx, rec.cz),
        ((rec.level as u32) << 16) | ((rec.loc as u32) << 8) | rec.row as u32,
        0,
    );
}

/// Take `amount` hp off the deployable at store index `di`, announcing the
/// hit (dealt and left) with the deployable bit set; at zero it goes
/// through [`drop_deploy`]. Returns true when it fell.
pub fn damage_deploy(dc: &DeployContent, deploys: &mut Deploys, di: usize, amount: u16, events: &mut EventQueue) -> (fell: bool)
    requires
        old(deploys).wf(),
        di < old(deploys).recs().len(),
    ensures
        ({
            let d = old(deploys).recs()[di as int];
            let left: u16 = (if d.hp >= amount { d.hp - amount } else { 0 }) as u16;
            let hit = Event {
                code: EV_STRUCT_HIT,
                a: spec_cell_key(d.cx, d.cz),
                b: STRUCT_DEPLOY_BIT | address_word(d),
                c: (((d.hp - left) as u32) << 16u32) | (left as u32),
            };
            &&& fell == (left == 0)
            &&& !fell ==> final(deploys).recs() == old(deploys).recs().update(di as int, DeployRec { hp: left, ..d })
                && final(deploys).readies() == old(deploys).readies()
                && final(deploys).placed_ticks() == old(deploys).placed_ticks()
                && final(deploys).lock_models() == old(deploys).lock_models()
                && final(deploys).hearth_models() == old(deploys).hearth_models()
                && final(deploys).box_recs() == old(deploys).box_recs()
                && final(deploys).spilled() == old(deploys).spilled()
                && final(events)@ == old(events)@.push(hit)
            &&& fell ==> final(deploys).recs() == lock::swap_removed(old(deploys).recs(), di as int)
                && final(deploys).readies() == lock::swap_removed(old(deploys).readies(), di as int)
                && final(deploys).placed_ticks() == lock::swap_removed(old(deploys).placed_ticks(), di as int)
                && final(deploys).lock_models() == locks_after_drop(old(deploys).lock_models(), *dc, d)
                && final(deploys).hearth_models() == hearths_after_drop(old(deploys).hearth_models(), *dc, d)
                && final(deploys).box_recs() == boxes_after_drop(old(deploys).box_recs(), *dc, d)
                && final(deploys).spilled() == spill_after_drop(old(deploys).box_recs(), old(deploys).spilled(), *dc, d)
                && final(events)@ == old(events)@.push(hit).push(
                    Event { code: EV_DEPLOY_REMOVED, a: spec_cell_key(d.cx, d.cz), b: address_word(d), c: 0 },
                )
        }),
        final(deploys).wf(),
{
    let rec = deploys.entries[di];
    let left: u16 = if rec.hp >= amount { rec.hp - amount } else { 0 };
    let dealt = rec.hp - left;
    events.push(
        EV_STRUCT_HIT,
        cell_key(rec.cx, rec.cz),
        STRUCT_DEPLOY_BIT | (((rec.level as u32) << 16) | ((rec.loc as u32) << 8) | rec.row as u32),
        ((dealt as u32) << 16) | left as u32,
    );
    if left == 0 {
        drop_deploy(dc, deploys, di, events);
        return true;
    }
    deploys.set_hp(di, left);
    false
}

/// What the caller measured of a placement site: the building store, the
/// terrain and the bodies' float positions answer these, and the rules
/// below decide from them.
#[derive(Clone, Copy, Debug, PartialEq, Eq, Structural)]
pub struct SiteFacts {
    /// The cell's centre lies within build reach of the placer.
    pub in_reach: bool,
    /// The cell lies in a claim the placer is not crewed on.
    pub foreign_claim: bool,
    /// The cell lies in any claim, the placer's own included.
    pub any_claim: bool,
    /// The cell's plane holds no piece, and its ground is buildable.
    pub ground_ok: bool,
    /// A building piece's plane stands at this cell and level.
    pub plane_piece: bool,
    /// A doorway-shaped piece stands at this exact address.
    pub doorway_piece: bool,
}

/// Whether the thing a deployable stands on is there: ground at level 0, a
/// foundation's plane, a doorway, or — for a lock — a door or a box at the
/// address.
pub open spec fn spec_supported(
    recs: Seq<DeployRec>,
    dc: DeployContent,
    def: DeployDef,
    f: SiteFacts,
    cx: u16,
    cz: u16,
    level: u8,
    loc: u8,
) -> bool {
    if def.placement == PLACE_GROUND {
        level == 0 && f.ground_ok
    } else if def.placement == PLACE_FOUNDATION {
        f.plane_piece
    } else if def.placement == PLACE_ANY {
        f.plane_piece || (level == 0 && f.ground_ok)
    } else if def.placement == PLACE_DOORWAY {
        f.doorway_piece
    } else if def.placement == PLACE_DOOR {
        lock_target(recs, dc, cx, cz, level, loc) is Some
    } else {
        false
    }
}

/// Why a placement of `row` at this address is refused, checked in order,
/// or `None` when it goes ahead.
pub open spec fn place_refusal(
    recs: Seq<DeployRec>,
    locks: Seq<LockModel>,
    hearths: nat,
    boxes: nat,
    dc: DeployContent,
    f: SiteFacts,
    inv: Seq<ItemStack>,
    id: u32,
    row: u16,
    cx: u16,
    cz: u16,
    level: u8,
    loc: u8,
) -> Option<u32> {
    let def = dc.defs[row as int];
    let holds_one = count_in(inv, def.item, INV_SLOTS as int) >= 1;
    if row >= dc.def_count || def.hp == 0 {
        Some(REFUSE_D_KIND)
    } else if cx >= MAX_BUILD_COORD || cz >= MAX_BUILD_COORD || level >= MAX_BUILD_LEVELS
        || !spec_loc_fits(def.placement, loc)
        || (def.placement != PLACE_DOOR && first_deploy_from(recs, cx, cz, level, loc, 0) is Some)
        || (def.arch == ARCH_BOX && box_key_bits(cx, cz, level) == 0) {
        Some(REFUSE_D_SPOT)
    } else if !f.in_reach {
        Some(REFUSE_D_REACH)
    } else if f.foreign_claim {
        Some(REFUSE_D_CLAIM)
    } else if !spec_supported(recs, dc, def, f, cx, cz, level, loc) {
        Some(if def.placement == PLACE_GROUND && level == 0 { REFUSE_D_TERRAIN } else { REFUSE_D_SUPPORT })
    } else if def.arch == ARCH_LOCK {
        if lock::first_at(locks, cx, cz, level, loc) is Some {
            Some(REFUSE_D_HAS_LOCK)
        } else if locks.len() >= MAX_LOCKS {
            Some(REFUSE_D_FULL)
        } else if !holds_one {
            Some(REFUSE_D_COST)
        } else {
            None
        }
    } else if def.arch == ARCH_HEARTH && f.any_claim {
        Some(REFUSE_D_OVERLAP)
    } else if def.arch == ARCH_HEARTH && hearths >= MAX_HEARTHS {
        Some(REFUSE_D_FULL)
    } else if def.arch == ARCH_BAG && own_bags_in(recs, dc, id, recs.len() as int) >= BAG_CAP {
        Some(REFUSE_D_BAG_CAP)
    } else if spec_holds_items(def.arch) && boxes >= MAX_BOXES {
        Some(REFUSE_D_FULL)
    } else if !holds_one {
        Some(REFUSE_D_COST)
    } else if recs.len() >= MAX_DEPLOYS {
        Some(REFUSE_D_FULL)
    } else {
        None
    }
}

/// The record a placement of `row` mints: full hp, closed, bare of any
/// lock, its upkeep clock at the current period.
pub open spec fn placed_rec(dc: DeployContent, row: u16, owner: u32, tick: u64, cx: u16, cz: u16, level: u8, loc: u8) -> DeployRec {
    DeployRec {
        cx,
        cz,
        level,
        loc,
        row: row as u8,
        owner,
        hp: dc.defs[row as int].hp,
        uh: (tick / UPKEEP_PERIOD_TICKS) as u16,
        open: false,
        has_lock: false,
        locked: false,
        dmg: 0,
    }
}

/// The announcement of a placed record.
pub open spec fn placed_event(row: u16, owner: u32, cx: u16, cz: u16, level: u8, loc: u8) -> Event {
    Event {
        code: EV_DEPLOY_PLACED,
        a: spec_cell_key(cx, cz),
        b: ((level as u32) << 16u32) | ((loc as u32) << 8u32) | (row as u32),
        c: owner,
    }
}

/// The hearth a placement stands up: empty stock, its crew the placer.
pub open spec fn placed_hearth(cx: u16, cz: u16, level: u8, owner: u32) -> HearthModel {
    HearthModel { cx, cz, level, owner, stock: seq![0u32, 0u32, 0u32, 0u32], crew: seq![owner] }
}

/// Apply one place request for deployable `row` at this address. Refusals
/// are events. The deployable's own item is the cost, one of it spent.
///
/// A lock mints no record: it bolts a fresh, codeless lock onto the door
/// or box at the address and announces that record's new bits. Anything
/// else appends its record, stands up its hearth or its (empty) box, and
/// announces the placement. `site` carries what only the building store,
/// the terrain and the float positions can answer. Returns true when a
/// record was appended; the building store's collision mirror (a door's
/// seal, a solid volume) is the caller's, from that record.
pub fn place_deploy(
    dc: &DeployContent,
    deploys: &mut Deploys,
    p: &mut Player,
    tick: u64,
    row: u16,
    cx: u16,
    cz: u16,
    level: u8,
    loc: u8,
    site: SiteFacts,
    events: &mut EventQueue,
) -> (placed: bool)
    requires
        old(deploys).wf(),
        dc.def_count <= MAX_DEPLOY_DEFS,
        row < dc.def_count && dc.defs[row as int].arch == ARCH_LOCK ==> dc.defs[row as int].placement == PLACE_DOOR,
    ensures
        final(deploys).wf(),
        final(deploys).spilled() == old(deploys).spilled(),
        *final(p) == (Player { inv: final(p).inv, ..*old(p) }),
        match place_refusal(
            old(deploys).recs(),
            old(deploys).lock_models(),
            old(deploys).hearth_count(),
            old(deploys).box_recs().len(),
            *dc,
            site,
            old(p).inv@,
            old(p).id,
            row,
            cx,
            cz,
            level,
            loc,
        ) {
            Some(reason) => {
                &&& !placed
                &&& final(deploys).recs() == old(deploys).recs()
                &&& final(deploys).readies() == old(deploys).readies()
                &&& final(deploys).placed_ticks() == old(deploys).placed_ticks()
                &&& final(deploys).lock_models() == old(deploys).lock_models()
                &&& final(deploys).hearth_models() == old(deploys).hearth_models()
                &&& final(deploys).box_recs() == old(deploys).box_recs()
                &&& final(p).inv == old(p).inv
                &&& final(events)@ == old(events)@.push(refused(old(p).id, reason))
            },
            None => {
                let def = dc.defs[row as int];
                &&& final(p).inv@ == taken(old(p).inv@, def.item, 1)
                &&& final(deploys).readies().len() == final(deploys).recs().len()
                &&& if def.arch == ARCH_LOCK {
                    let i = first_deploy_from(old(deploys).recs(), cx, cz, level, loc, 0)->0;
                    let d = DeployRec { has_lock: true, locked: false, ..old(deploys).recs()[i] };
                    &&& !placed
                    &&& final(deploys).recs() == old(deploys).recs().update(i, d)
                    &&& final(deploys).lock_models() == old(deploys).lock_models().push(
                        lock::fresh_model(cx, cz, level, loc, old(p).id),
                    )
                    &&& final(deploys).readies() == old(deploys).readies()
                    &&& final(deploys).placed_ticks() == old(deploys).placed_ticks()
                    &&& final(deploys).hearth_models() == old(deploys).hearth_models()
                    &&& final(deploys).box_recs() == old(deploys).box_recs()
                    &&& final(events)@ == old(events)@.push(door_event(d, old(p).id))
                } else {
                    &&& placed
                    &&& final(deploys).recs() == old(deploys).recs().push(
                        placed_rec(*dc, row, old(p).id, tick, cx, cz, level, loc),
                    )
                    &&& final(deploys).readies() == old(deploys).readies().push(0)
                    &&& final(deploys).placed_ticks() == old(deploys).placed_ticks().push(tick)
                    &&& final(deploys).lock_models() == old(deploys).lock_models()
                    &&& final(deploys).hearth_models() == if def.arch == ARCH_HEARTH {
                        old(deploys).hearth_models().push(placed_hearth(cx, cz, level, old(p).id))
                    } else {
                        old(deploys).hearth_models()
                    }
                    &&& if spec_holds_items(def.arch) {
                        &&& final(deploys).box_recs().len() == old(deploys).box_recs().len() + 1
                        &&& final(deploys).box_recs().drop_last() == old(deploys).box_recs()
                        &&& empty_box_at(final(deploys).box_recs().last(), cx, cz, level, old(p).id)
                    } else {
                        final(deploys).box_recs() == old(deploys).box_recs()
                    }
                    &&& final(events)@ == old(events)@.push(placed_event(row, old(p).id, cx, cz, level, loc))
                }
            },
        },
{
    let id = p.id;
    if row >= dc.def_count {
        events.push(EV_DEPLOY_REFUSED, id, REFUSE_D_KIND, 0);
        return false;
    }
    let def = dc.defs[row as usize];
    if def.hp == 0 {
        events.push(EV_DEPLOY_REFUSED, id, REFUSE_D_KIND, 0);
        return false;
    }
    let ghost recs0 = deploys.recs();
    let first = deploys.find_index(cx, cz, level, loc);
    proof {
        match first {
            Some(i) => lemma_first_deploy(recs0, cx, cz, level, loc, i as int),
            None => lemma_first_deploy(recs0, cx, cz, level, loc, recs0.len() as int),
        }
    }
    assert(first_deploy_from(recs0, cx, cz, level, loc, 0) == match first {
        Some(i) => Some(i as int),
        None => None::<int>,
    });
    if (cx as usize) >= MAX_BUILD_COORD || (cz as usize) >= MAX_BUILD_COORD || (level as usize) >= MAX_BUILD_LEVELS
        || !loc_fits_placement(def.placement, loc) || (def.placement != PLACE_DOOR && first.is_some())
        || (def.arch == ARCH_BOX && box_key(cx, cz, level) == 0) {
        events.push(EV_DEPLOY_REFUSED, id, REFUSE_D_SPOT, 0);
        return false;
    }
    if !site.in_reach {
        events.push(EV_DEPLOY_REFUSED, id, REFUSE_D_REACH, 0);
        return false;
    }
    if site.foreign_claim {
        events.push(EV_DEPLOY_REFUSED, id, REFUSE_D_CLAIM, 0);
        return false;
    }
    let supported = if def.placement == PLACE_GROUND {
        level == 0 && site.ground_ok
    } else if def.placement == PLACE_FOUNDATION {
        site.plane_piece
    } else if def.placement == PLACE_ANY {
        site.plane_piece || (level == 0 && site.ground_ok)
    } else if def.placement == PLACE_DOORWAY {
        site.doorway_piece
    } else if def.placement == PLACE_DOOR {
        match first {
            Some(i) => lockable(row_arch(dc, deploys.entries[i].row)),
            None => false,
        }
    } else {
        false
    };
    if !supported {
        let reason = if def.placement == PLACE_GROUND && level == 0 { REFUSE_D_TERRAIN } else { REFUSE_D_SUPPORT };
        events.push(EV_DEPLOY_REFUSED, id, reason, 0);
        return false;
    }
    if def.arch == ARCH_LOCK {
        if deploys.locks.find_index(cx, cz, level, loc).is_some() {
            events.push(EV_DEPLOY_REFUSED, id, REFUSE_D_HAS_LOCK, 0);
            return false;
        }
        if deploys.locks.len() >= MAX_LOCKS {
            events.push(EV_DEPLOY_REFUSED, id, REFUSE_D_FULL, 0);
            return false;
        }
        if !lock::holds(&p.inv, def.item) {
            events.push(EV_DEPLOY_REFUSED, id, REFUSE_D_COST, 0);
            return false;
        }
        let di = match first {
            Some(i) => i,
            None => {
                return false;
            },
        };
        deploys.insert_lock(LockRec::fresh(cx, cz, level, loc, id));
        inv_take(&mut p.inv, def.item, 1);
        deploys.set_lock_mirror(di, true, false);
        announce_door(deploys, di, id, events);
        return false;
    }
    if def.arch == ARCH_HEARTH {
        if site.any_claim {
            events.push(EV_DEPLOY_REFUSED, id, REFUSE_D_OVERLAP, 0);
            return false;
        }
        if deploys.hearths.len() >= MAX_HEARTHS {
            events.push(EV_DEPLOY_REFUSED, id, REFUSE_D_FULL, 0);
            return false;
        }
    }
    if def.arch == ARCH_BAG && deploys.own_bag_count(dc, id) >= BAG_CAP {
        events.push(EV_DEPLOY_REFUSED, id, REFUSE_D_BAG_CAP, 0);
        return false;
    }
    if holds_items(def.arch) && deploys.boxes.entries.len() >= MAX_BOXES {
        events.push(EV_DEPLOY_REFUSED, id, REFUSE_D_FULL, 0);
        return false;
    }
    if inv_count(&p.inv, def.item) < 1 {
        events.push(EV_DEPLOY_REFUSED, id, REFUSE_D_COST, 0);
        return false;
    }
    let rec = DeployRec {
        cx,
        cz,
        level,
        loc,
        row: row as u8,
        owner: id,
        hp: def.hp,
        uh: (tick / UPKEEP_PERIOD_TICKS) as u16,
        open: false,
        has_lock: false,
        locked: false,
        dmg: 0,
    };
    if !deploys.insert(rec, tick) {
        events.push(EV_DEPLOY_REFUSED, id, REFUSE_D_FULL, 0);
        return false;
    }
    if def.arch == ARCH_HEARTH {
        deploys.push_hearth(cx, cz, level, id);
    }
    if holds_items(def.arch) {
        deploys.push_box(cx, cz, level, id);
    }
    inv_take(&mut p.inv, def.item, 1);
    events.push(EV_DEPLOY_PLACED, cell_key(cx, cz), ((level as u32) << 16) | ((loc as u32) << 8) | row as u32, id);
    true
}

/// A hearth at this address with anything in its stock.
pub open spec fn stocked_here(h: HearthModel, cx: u16, cz: u16, level: u8) -> bool {
    h.cx == cx && h.cz == cz && h.level == level && exists|m: int| 0 <= m < HEARTH_STOCK_ROWS && h.stock[m] > 0
}

/// Whether any hearth at this address holds stock.
pub open spec fn hearth_stocked_at(hs: Seq<HearthModel>, cx: u16, cz: u16, level: u8) -> bool {
    exists|h: int| 0 <= h < hs.len() && stocked_here(#[trigger] hs[h], cx, cz, level)
}

/// Whether the box at this packed address holds anything.
pub open spec fn box_full_at(boxes: Seq<BoxRec>, key: u32) -> bool {
    key != 0 && exists|i: int|
        0 <= i < boxes.len() && box_key_of(#[trigger] boxes[i]) == key && (forall|j: int|
            0 <= j < i ==> box_key_of(#[trigger] boxes[j]) != key) && !spec_box_empty(boxes[i])
}

/// Why a lift at this address is refused, checked in order, or `None`
/// when it goes ahead. `in_reach` and `foreign_claim` are what the
/// geometry and the claims answer.
pub open spec fn pick_refusal(
    recs: Seq<DeployRec>,
    locks: Seq<LockModel>,
    hs: Seq<HearthModel>,
    boxes: Seq<BoxRec>,
    dc: DeployContent,
    in_reach: bool,
    foreign_claim: bool,
    id: u32,
    cx: u16,
    cz: u16,
    level: u8,
    loc: u8,
) -> Option<u32> {
    match first_deploy_from(recs, cx, cz, level, loc, 0) {
        None => Some(REFUSE_D_SPOT),
        Some(i) => {
            let arch = arch_of(dc, recs[i].row);
            if !in_reach {
                Some(REFUSE_D_REACH)
            } else if foreign_claim {
                Some(REFUSE_D_CLAIM)
            } else if !lock::spec_locks_pass_full(locks, cx, cz, level, loc, id) {
                Some(REFUSE_D_OWNER)
            } else if spec_holds_items(arch) && box_full_at(boxes, box_key_bits(cx, cz, level)) {
                Some(REFUSE_D_NOT_EMPTY)
            } else if arch == ARCH_HEARTH && hearth_stocked_at(hs, cx, cz, level) {
                Some(REFUSE_D_NOT_EMPTY)
            } else {
                None
            }
        },
    }
}

/// A hand after one unit of `item` is handed to it.
pub open spec fn inv_given(gc: GatherContent, item: u16, inv: Seq<ItemStack>) -> Seq<ItemStack> {
    Seq::new(
        INV_SLOTS as nat,
        |k: int| added_slot(inv, item, 1, table_of(gc.stack_max@, item), table_of(gc.cond_max@, item), k),
    )
}

/// The spill buffer after one unit of `item` is handed to `inv`: it takes
/// the unit when the hand has no room.
pub open spec fn spill_given(gc: GatherContent, item: u16, inv: Seq<ItemStack>, spill: Seq<ItemStack>) -> Seq<ItemStack> {
    if inv_add_lost(inv, item, 1, table_of(gc.stack_max@, item)) > 0 {
        Seq::new(
            INV_SLOTS as nat,
            |k: int| added_slot(spill, item, 1, table_of(gc.stack_max@, item), table_of(gc.cond_max@, item), k),
        )
    } else {
        spill
    }
}

/// The hand and the spill after a lift: the lock first, when one came up
/// and the table knows its item, then the deployable's own item.
pub open spec fn lifted(
    dc: DeployContent,
    gc: GatherContent,
    lock_too: bool,
    item: u16,
    inv: Seq<ItemStack>,
    spill: Seq<ItemStack>,
) -> (Seq<ItemStack>, Seq<ItemStack>) {
    let (i1, s1) = if lock_too && lock_row_from(dc, 0) is Some {
        let li = dc.defs[lock_row_from(dc, 0)->0].item;
        (inv_given(gc, li, inv), spill_given(gc, li, inv, spill))
    } else {
        (inv, spill)
    };
    (inv_given(gc, item, i1), spill_given(gc, item, i1, s1))
}

/// The refusal a lift at this address meets, or the store index of the
/// deployable it lifts.
fn pick_check(
    dc: &DeployContent,
    deploys: &Deploys,
    in_reach: bool,
    foreign_claim: bool,
    id: u32,
    cx: u16,
    cz: u16,
    level: u8,
    loc: u8,
) -> (r: Result<usize, u32>)
    requires
        deploys.wf(),
    ensures
        match pick_refusal(
            deploys.recs(),
            deploys.lock_models(),
            deploys.hearth_models(),
            deploys.box_recs(),
            *dc,
            in_reach,
            foreign_claim,
            id,
            cx,
            cz,
            level,
            loc,
        ) {
            Some(reason) => r == Err::<usize, u32>(reason),
            None => r is Ok && first_deploy_from(deploys.recs(), cx, cz, level, loc, 0) == Some(r->Ok_0 as int)
                && r->Ok_0 < deploys.recs().len(),
        },
{
    let ghost recs0 = deploys.recs();
    let i = match deploys.find_index(cx, cz, level, loc) {
        Some(i) => {
            proof {
                lemma_first_deploy(recs0, cx, cz, level, loc, i as int);
            }
            i
        },
        None => {
            proof {
                lemma_first_deploy(recs0, cx, cz, level, loc, recs0.len() as int);
            }
            return Err(REFUSE_D_SPOT);
        },
    };
    if !in_reach {
        return Err(REFUSE_D_REACH);
    }
    if foreign_claim {
        return Err(REFUSE_D_CLAIM);
    }
    if !deploys.locks.passes_full(cx, cz, level, loc, id) {
        return Err(REFUSE_D_OWNER);
    }
    let arch = row_arch(dc, deploys.entries[i].row);
    if holds_items(arch) {
        let key = box_key(cx, cz, level);
        match deploys.box_index(key) {
            Some(b) => {
                let ghost boxes = deploys.box_recs();
                if !deploys.boxes.entries[b].is_empty() {
                    assert(box_full_at(boxes, key));
                    return Err(REFUSE_D_NOT_EMPTY);
                }
                assert forall|k: int|
                    0 <= k < boxes.len() && box_key_of(#[trigger] boxes[k]) == key && (forall|j: int|
                        0 <= j < k ==> box_key_of(#[trigger] boxes[j]) != key) implies spec_box_empty(boxes[k]) by {
                    assert(k == b as int);
                }
            },
            None => {},
        }
    }
    if arch == ARCH_HEARTH && deploys.hearth_stocked(cx, cz, level) {
        return Err(REFUSE_D_NOT_EMPTY);
    }
    Ok(i)
}

/// Hand a lift's items over: the lock's first when `lock_too` and the
/// table knows it, then `item`, each spilling what will not fit.
fn hand_lifted(
    dc: &DeployContent,
    gc: &GatherContent,
    lock_too: bool,
    item: u16,
    inv: &mut [ItemStack; INV_SLOTS],
    spill: &mut [ItemStack; INV_SLOTS],
)
    ensures
        final(inv)@ == lifted(*dc, *gc, lock_too, item, old(inv)@, old(spill)@).0,
        final(spill)@ == lifted(*dc, *gc, lock_too, item, old(inv)@, old(spill)@).1,
{
    if lock_too {
        match lock_row(dc) {
            Some(r) => {
                let li = dc.defs[r].item;
                let ghost (i0, s0) = (inv@, spill@);
                lock::give_back(inv, spill, li, gc.stack_max_of(li), gc.cond_max_of(li));
                assert(inv@ =~= inv_given(*gc, li, i0));
                assert(spill@ =~= spill_given(*gc, li, i0, s0));
            },
            None => {},
        }
    }
    let ghost (i1, s1) = (inv@, spill@);
    crate::gather::inv_add_spilling(inv, spill, item, 1, gc.stack_max_of(item), gc.cond_max_of(item));
    assert(inv@ =~= inv_given(*gc, item, i1));
    assert(spill@ =~= spill_given(*gc, item, i1, s1));
}

/// Take a deployable back up and return its item (and the lock bolted to
/// it, as a second item) to the lifter's hands, spilling what will not
/// fit. Anyone within build reach (`in_reach`) outside a foreign claim
/// (`foreign_claim`) may lift one, except where a locked lock does not give
/// them full rights; a container (box, fire, furnace or recycler) with
/// anything in it and a hearth with stock do not come up. The removal is [`drop_deploy`]'s.
pub fn pick_up(
    dc: &DeployContent,
    gc: &GatherContent,
    deploys: &mut Deploys,
    p: &mut Player,
    cx: u16,
    cz: u16,
    level: u8,
    loc: u8,
    in_reach: bool,
    foreign_claim: bool,
    events: &mut EventQueue,
    spill: &mut [ItemStack; INV_SLOTS],
)
    requires
        old(deploys).wf(),
        match first_deploy_from(old(deploys).recs(), cx, cz, level, loc, 0) {
            Some(i) => old(deploys).recs()[i].row < MAX_DEPLOY_DEFS,
            None => true,
        },
    ensures
        final(deploys).wf(),
        *final(p) == (Player { inv: final(p).inv, ..*old(p) }),
        match pick_refusal(
            old(deploys).recs(),
            old(deploys).lock_models(),
            old(deploys).hearth_models(),
            old(deploys).box_recs(),
            *dc,
            in_reach,
            foreign_claim,
            old(p).id,
            cx,
            cz,
            level,
            loc,
        ) {
            Some(reason) => {
                &&& *final(deploys) == *old(deploys)
                &&& final(p).inv == old(p).inv
                &&& final(spill)@ == old(spill)@
                &&& final(events)@ == old(events)@.push(refused(old(p).id, reason))
            },
            None => {
                let i = first_deploy_from(old(deploys).recs(), cx, cz, level, loc, 0)->0;
                let d = old(deploys).recs()[i];
                let got = lifted(
                    *dc,
                    *gc,
                    lock::first_at(old(deploys).lock_models(), cx, cz, level, loc) is Some,
                    dc.defs[d.row as int].item,
                    old(p).inv@,
                    old(spill)@,
                );
                &&& final(p).inv@ == got.0
                &&& final(spill)@ == got.1
                &&& final(deploys).recs() == lock::swap_removed(old(deploys).recs(), i)
                &&& final(deploys).readies() == lock::swap_removed(old(deploys).readies(), i)
                &&& final(deploys).placed_ticks() == lock::swap_removed(old(deploys).placed_ticks(), i)
                &&& final(deploys).lock_models() == locks_after_drop(old(deploys).lock_models(), *dc, d)
                &&& final(deploys).hearth_models() == hearths_after_drop(old(deploys).hearth_models(), *dc, d)
                &&& final(deploys).box_recs() == boxes_after_drop(old(deploys).box_recs(), *dc, d)
                &&& final(deploys).spilled() == spill_after_drop(old(deploys).box_recs(), old(deploys).spilled(), *dc, d)
                &&& final(events)@ == old(events)@.push(
                    Event { code: EV_DEPLOY_REMOVED, a: spec_cell_key(d.cx, d.cz), b: address_word(d), c: 0 },
                )
            },
        },
{
    let i = match pick_check(dc, deploys, in_reach, foreign_claim, p.id, cx, cz, level, loc) {
        Ok(i) => i,
        Err(reason) => {
            events.push(EV_DEPLOY_REFUSED, p.id, reason, 0);
            return;
        },
    };
    let item = dc.defs[deploys.entries[i].row as usize].item;
    let lock_too = deploys.locks.find_index(cx, cz, level, loc).is_some();
    hand_lifted(dc, gc, lock_too, item, &mut p.inv, spill);
    drop_deploy(dc, deploys, i, events);
}

/// A placement never stacks a second record on an occupied address: what
/// a placement that goes ahead appends stands where nothing stood — the
/// one exception, a lock, mints no record at all. (A table row that is
/// no lock yet claims a lock's door-or-box support is left out: it would
/// stand on what it names.)
pub proof fn law_a_placement_takes_an_empty_address(
    recs: Seq<DeployRec>,
    locks: Seq<LockModel>,
    hearths: nat,
    boxes: nat,
    dc: DeployContent,
    f: SiteFacts,
    inv: Seq<ItemStack>,
    id: u32,
    row: u16,
    cx: u16,
    cz: u16,
    level: u8,
    loc: u8,
)
    requires
        place_refusal(recs, locks, hearths, boxes, dc, f, inv, id, row, cx, cz, level, loc) is None,
        dc.defs[row as int].arch != ARCH_LOCK,
        dc.defs[row as int].placement != PLACE_DOOR,
    ensures
        first_deploy_from(recs, cx, cz, level, loc, 0) is None,
{
}

/// A locked lock is what says whose door or box this is: a hand it gives
/// no full rights cannot lift the thing it is bolted to, wherever it
/// stands and whoever's ground it is — and within reach, outside a foreign
/// claim, the refusal names the lock.
pub proof fn law_a_lock_guards_what_it_is_bolted_to(
    recs: Seq<DeployRec>,
    locks: Seq<LockModel>,
    hs: Seq<HearthModel>,
    boxes: Seq<BoxRec>,
    dc: DeployContent,
    in_reach: bool,
    foreign_claim: bool,
    id: u32,
    cx: u16,
    cz: u16,
    level: u8,
    loc: u8,
)
    requires
        lock::first_at(locks, cx, cz, level, loc) is Some,
        locks[lock::first_at(locks, cx, cz, level, loc)->0].locked,
        lock::spec_grant(locks[lock::first_at(locks, cx, cz, level, loc)->0], id) != lock::GRANT_FULL,
    ensures
        pick_refusal(recs, locks, hs, boxes, dc, in_reach, foreign_claim, id, cx, cz, level, loc) is Some,
        first_deploy_from(recs, cx, cz, level, loc, 0) is Some && in_reach && !foreign_claim ==> pick_refusal(
            recs,
            locks,
            hs,
            boxes,
            dc,
            in_reach,
            foreign_claim,
            id,
            cx,
            cz,
            level,
            loc,
        ) == Some(REFUSE_D_OWNER),
{
}

/// The guest tier works the leaf and nothing else: where a locked lock
/// knows a hand only as a guest, the lock lets it through the door and
/// the door (or box) does not come up in its hands.
pub proof fn law_a_guest_works_the_leaf_and_lifts_nothing(
    recs: Seq<DeployRec>,
    locks: Seq<LockModel>,
    hs: Seq<HearthModel>,
    boxes: Seq<BoxRec>,
    dc: DeployContent,
    in_reach: bool,
    foreign_claim: bool,
    id: u32,
    cx: u16,
    cz: u16,
    level: u8,
    loc: u8,
)
    requires
        lock::first_at(locks, cx, cz, level, loc) is Some,
        locks[lock::first_at(locks, cx, cz, level, loc)->0].locked,
        lock::spec_grant(locks[lock::first_at(locks, cx, cz, level, loc)->0], id) == lock::GRANT_GUEST,
    ensures
        lock::spec_locks_pass(locks, cx, cz, level, loc, id),
        pick_refusal(recs, locks, hs, boxes, dc, in_reach, foreign_claim, id, cx, cz, level, loc) is Some,
{
}

/// The table's upkeep materials name distinct items.
pub open spec fn mats_distinct(dc: DeployContent) -> bool {
    forall|a: int, b: int| 0 <= a < b < dc.mat_count && b < HEARTH_STOCK_ROWS ==> dc.mats[a] != dc.mats[b]
}

/// A feed press from row `k` on moves units, it never makes or destroys
/// them: for each material row from `k`, what the stock gained the hand
/// lost; rows before `k` and every item no such row names are untouched.
proof fn lemma_feed_moves(dc: DeployContent, stock: Seq<u32>, inv: Seq<ItemStack>, k: int)
    requires
        0 <= k,
        stock.len() == HEARTH_STOCK_ROWS,
        inv.len() == INV_SLOTS,
        mats_distinct(dc),
    ensures
        feed_from(dc, stock, inv, k).0.len() == HEARTH_STOCK_ROWS,
        feed_from(dc, stock, inv, k).1.len() == INV_SLOTS,
        forall|m: int|
            0 <= m < HEARTH_STOCK_ROWS && (m < k || m >= dc.mat_count) ==> #[trigger] feed_from(dc, stock, inv, k).0[m]
                == stock[m],
        forall|m: int|
            k <= m < dc.mat_count && m < HEARTH_STOCK_ROWS ==> #[trigger] feed_from(dc, stock, inv, k).0[m] + count_in(
                feed_from(dc, stock, inv, k).1,
                dc.mats[m],
                INV_SLOTS as int,
            ) == stock[m] + count_in(inv, dc.mats[m], INV_SLOTS as int),
        forall|item: u16|
            (forall|j: int| k <= j < dc.mat_count && j < HEARTH_STOCK_ROWS ==> dc.mats[j] != item) ==> #[trigger] count_in(
                feed_from(dc, stock, inv, k).1,
                item,
                INV_SLOTS as int,
            ) == count_in(inv, item, INV_SLOTS as int),
    decreases HEARTH_STOCK_ROWS - k,
{
    if k >= dc.mat_count || k >= HEARTH_STOCK_ROWS {
    } else {
        let item = dc.mats[k];
        let want = min_int(
            min_int(FEED_CHUNK as int, sat(STOCK_MAX - stock[k])),
            count_in(inv, item, INV_SLOTS as int),
        );
        let stock2 = stock.update(k, (stock[k] + want) as u32);
        let inv2 = taken(inv, item, want);
        crate::craft::lemma_count_in_bounds(inv, item, INV_SLOTS as int);
        lemma_feed_moves(dc, stock2, inv2, k + 1);
        crate::craft::lemma_take_counts(inv, item, want, if item == 0 { 1u16 } else { 0u16 }, INV_SLOTS as int);
        assert forall|other: u16| other != item implies count_in(inv2, other, INV_SLOTS as int) == count_in(
            inv,
            other,
            INV_SLOTS as int,
        ) by {
            crate::craft::lemma_take_counts(inv, item, want, other, INV_SLOTS as int);
        }
        assert(count_in(feed_from(dc, stock2, inv2, k + 1).1, item, INV_SLOTS as int) == count_in(
            inv2,
            item,
            INV_SLOTS as int,
        ));
    }
}

/// Feeding moves units from the hand into the stock and makes none: for
/// every upkeep material, the stock's gain is exactly the hand's loss,
/// and a stock at or under its ceiling stays there.
pub proof fn law_feeding_moves_what_it_takes(dc: DeployContent, stock: Seq<u32>, inv: Seq<ItemStack>, m: int)
    requires
        stock.len() == HEARTH_STOCK_ROWS,
        inv.len() == INV_SLOTS,
        mats_distinct(dc),
        0 <= m < dc.mat_count,
        m < HEARTH_STOCK_ROWS,
    ensures
        feed_from(dc, stock, inv, 0).0[m] + count_in(feed_from(dc, stock, inv, 0).1, dc.mats[m], INV_SLOTS as int)
            == stock[m] + count_in(inv, dc.mats[m], INV_SLOTS as int),
        feed_from(dc, stock, inv, 0).0[m] >= stock[m],
        stock[m] <= STOCK_MAX ==> feed_from(dc, stock, inv, 0).0[m] <= STOCK_MAX,
{
    lemma_feed_moves(dc, stock, inv, 0);
    lemma_feed_grows(dc, stock, inv, 0, m);
}

proof fn lemma_feed_grows(dc: DeployContent, stock: Seq<u32>, inv: Seq<ItemStack>, k: int, m: int)
    requires
        0 <= k,
        0 <= m < HEARTH_STOCK_ROWS,
        stock.len() == HEARTH_STOCK_ROWS,
    ensures
        feed_from(dc, stock, inv, k).0[m] >= stock[m],
        stock[m] <= STOCK_MAX ==> feed_from(dc, stock, inv, k).0[m] <= STOCK_MAX,
    decreases HEARTH_STOCK_ROWS - k,
{
    if k >= dc.mat_count || k >= HEARTH_STOCK_ROWS {
    } else {
        let item = dc.mats[k];
        let want = min_int(
            min_int(FEED_CHUNK as int, sat(STOCK_MAX - stock[k])),
            count_in(inv, item, INV_SLOTS as int),
        );
        crate::craft::lemma_count_in_bounds(inv, item, INV_SLOTS as int);
        let stock2 = stock.update(k, (stock[k] + want) as u32);
        lemma_feed_grows(dc, stock2, taken(inv, item, want), k + 1, m);
    }
}

/// What a placement spends, a lift gives back: the one unit of the
/// deployable's item that placing took from the hand comes back to the
/// hand, or to the spill when the hand has no room — so hand and spill
/// together hold what they held before the placement. (A spill with no
/// room either is left out: the unit is destroyed there.)
pub proof fn law_a_lift_returns_what_a_placement_spent(
    dc: DeployContent,
    gc: GatherContent,
    item: u16,
    inv: Seq<ItemStack>,
    spill: Seq<ItemStack>,
)
    requires
        inv.len() == INV_SLOTS,
        spill.len() == INV_SLOTS,
        count_in(inv, item, INV_SLOTS as int) >= 1,
        inv_add_lost(spill, item, 1, table_of(gc.stack_max@, item)) == 0,
    ensures
        ({
            let back = lifted(dc, gc, false, item, taken(inv, item, 1), spill);
            count_in(back.0, item, INV_SLOTS as int) + count_in(back.1, item, INV_SLOTS as int) == count_in(
                inv,
                item,
                INV_SLOTS as int,
            ) + count_in(spill, item, INV_SLOTS as int)
        }),
{
    let other: u16 = if item == 0 { 1 } else { 0 };
    let sm = table_of(gc.stack_max@, item);
    let cm = table_of(gc.cond_max@, item);
    let inv1 = taken(inv, item, 1);
    crate::craft::lemma_take_counts(inv, item, 1, other, INV_SLOTS as int);
    crate::gather::law_inv_add_conserves(inv1, item, 1, sm, cm, other);
    assert(inv_given(gc, item, inv1) =~= crate::gather::added_inv(inv1, item, 1, sm, cm));
    if inv_add_lost(inv1, item, 1, sm) > 0 {
        crate::gather::law_inv_add_conserves(spill, item, 1, sm, cm, other);
        assert(spill_given(gc, item, inv1, spill) =~= crate::gather::added_inv(spill, item, 1, sm, cm));
    }
}

} // verus!
