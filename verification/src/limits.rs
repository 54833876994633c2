//! Every fixed capacity and cadence the simulation is bounded by. A store
//! that holds at most N of something names its N here, so the bound is one
//! number in one file rather than a literal scattered across its users.
use vstd::prelude::*;

verus! {

/// Connected players a shard holds.
pub const MAX_PLAYERS: usize = 100;
/// Simulation ticks per second.
pub const TICK_HZ: u32 = 30;
/// Item definitions the content tables can name.
pub const MAX_ITEM_DEFS: usize = 64;
/// Slots in a player's inventory; the hotbar is its first `HOTBAR_SLOTS`.
pub const INV_SLOTS: usize = 30;
/// Hotbar width — the slots a hand can hold.
pub const HOTBAR_SLOTS: usize = 6;
/// Touched scatter slots the gather store remembers.
pub const MAX_SLOT_LIVES: usize = 16_384;
/// Deployable content rows.
pub const MAX_DEPLOY_DEFS: usize = 16;
/// Recipe inputs, and therefore the price rows of a deployable.
pub const MAX_RECIPE_INPUTS: usize = 4;
/// Price rows a deployable carries.
pub const MAX_DEPLOY_COSTS: usize = MAX_RECIPE_INPUTS;
/// Build cells along each horizontal axis (ten bits of a cell coordinate).
pub const MAX_BUILD_COORD: usize = 1_024;
/// Build levels a cell stacks (three bits).
pub const MAX_BUILD_LEVELS: usize = 8;
/// Entries one upkeep sweep visits per tick, per store.
pub const UPKEEP_SWEEP_PER_TICK: usize = 64;
/// Deployables standing at once.
pub const MAX_DEPLOYS: usize = 1_024;
/// Hearths standing at once.
pub const MAX_HEARTHS: usize = 256;
/// Upkeep material rows a hearth stocks.
pub const HEARTH_STOCK_ROWS: usize = 4;
/// Item-holding deployables standing at once.
pub const MAX_BOXES: usize = 256;
/// Slots inside one deployed box.
pub const BOX_SLOTS: usize = 12;
/// Non-empty boxes a single tick may hand to the ground as it removes them.
pub const MAX_BOX_SPILL_PER_TICK: usize = 16;
/// Code locks bolted on at once.
pub const MAX_LOCKS: usize = 512;
/// Full-rights members one lock remembers.
pub const LOCK_AUTH_CAP: usize = 8;
/// Guests one lock remembers.
pub const LOCK_GUEST_CAP: usize = 8;
/// Members one hearth's crew holds.
pub const HEARTH_CREW_CAP: usize = 10;
/// Loot tables the content can declare.
pub const MAX_LOOT_TABLES: usize = 8;
/// Weighted rows in one loot table.
pub const MAX_LOOT_ENTRIES: usize = 16;
/// The animal roster's fixed slots.
pub const MAX_MOBS: usize = 64;
/// The bit that marks an entity id as an animal rather than a player.
pub const MOB_ID_TAG: u32 = 0x8000_0000;
/// Ticks between two thinks of one animal.
pub const MOB_THINK_TICKS: u64 = 15;
/// Bites the animals may land in one tick.
pub const MAX_MOB_BITES_PER_TICK: usize = 8;
/// Recent noises the hearing ring remembers.
pub const MAX_NOISES: usize = 32;
/// Corners one navigation path can hold.
pub const NAV_MAX_CORNERS: usize = 16;
/// Loose stacks lying on the island at once.
pub const MAX_GROUND_ITEMS: usize = 512;
/// Howls the animals may raise in one tick.
pub const MAX_HOWLS_PER_TICK: usize = 8;
/// Events one tick may queue.
pub const MAX_EVENTS_PER_TICK: usize = 256;

} // verus!
