//! The animal roster's fixed facts: which species a slot holds, which
//! slots guard which site, how the free predators den in packs, the
//! species table, how an animal's id names its slot, and the bounded
//! buffers a tick parks its bites and howls in.
//!
//! Every roster fact here is pure in the slot ordinal, so both sides of the
//! wire recompute it rather than transmit it.
use vstd::prelude::*;

use crate::gather::{ItemStack, NO_ITEM};
use crate::limits::{MAX_HOWLS_PER_TICK, MAX_MOBS, MAX_MOB_BITES_PER_TICK, MOB_ID_TAG};

verus! {

/// Species ordinals.
pub const MOB_PIG: u8 = 0;
pub const MOB_WOLF: u8 = 1;
pub const MOB_KINDS: usize = 2;

/// One roster slot in this many is a predator: 64 slots at 1-in-4 is 16
/// wolves and 48 pigs, on every seed.
pub const WOLF_SLOT_EVERY: usize = 4;

/// Guards standing at the haven pad, and at each waystation. The richest
/// site keeps strictly the most, and the tier below it keeps some.
pub const HAVEN_GUARDS: usize = 4;
pub const WAYSTATION_GUARDS: usize = 2;
/// Guards an inland site keeps: none, as it pays nothing.
pub const INLAND_GUARDS: usize = 0;
/// Waystations the island raises.
pub const WAYSTATIONS: usize = 2;
/// Roster slots spent guarding, across every site: the pad's four and two
/// at each waystation — 8 of the 16 wolves.
pub const SITE_GUARDS: usize = HAVEN_GUARDS + WAYSTATIONS * WAYSTATION_GUARDS;

/// Item rows one species may drop.
pub const MOB_LOOT_ROWS: usize = 4;

/// Turn rate while walking a route: eight yaw-table entries a tick.
pub const MOB_TURN_STEP: u16 = 8 << 8;

/// Free wolves den together, this many to a pack: 8 free wolves are packs
/// of 3, 3 and 2.
pub const PACK_SIZE: usize = 3;

/// Which species a roster slot holds.
pub open spec fn spec_kind_of(slot: usize) -> u8 {
    if slot % WOLF_SLOT_EVERY == 0 { MOB_WOLF } else { MOB_PIG }
}

/// Which species a roster slot holds: every fourth slot is a wolf.
pub fn kind_of(slot: usize) -> (k: u8)
    ensures
        k == spec_kind_of(slot),
{
    if slot % WOLF_SLOT_EVERY == 0 {
        MOB_WOLF
    } else {
        MOB_PIG
    }
}

/// Which authored site a roster slot keeps: site 0 is the haven pad,
/// `1..=WAYSTATIONS` the waystations; `None` is the free roster.
pub open spec fn spec_guard_site_of(slot: usize) -> Option<usize> {
    let g = slot as int / WOLF_SLOT_EVERY as int;
    if slot % WOLF_SLOT_EVERY != 0 {
        None
    } else if g >= SITE_GUARDS {
        None
    } else if g < HAVEN_GUARDS {
        Some(0)
    } else {
        Some((1 + (g - HAVEN_GUARDS) / WAYSTATION_GUARDS as int) as usize)
    }
}

/// Which authored site a roster slot keeps, or `None` for the free roster.
pub fn guard_site_of(slot: usize) -> (r: Option<usize>)
    ensures
        r == spec_guard_site_of(slot),
{
    if slot % WOLF_SLOT_EVERY != 0 {
        return None;
    }
    let g = slot / WOLF_SLOT_EVERY;
    if g >= SITE_GUARDS {
        return None;
    }
    if g < HAVEN_GUARDS {
        return Some(0);
    }
    Some(1 + (g - HAVEN_GUARDS) / WAYSTATION_GUARDS)
}

/// The first slot of the pack a free predator slot belongs to.
pub open spec fn spec_pack_leader_of(slot: usize) -> Option<usize> {
    let g = slot as int / WOLF_SLOT_EVERY as int;
    if slot % WOLF_SLOT_EVERY != 0 {
        None
    } else if g < SITE_GUARDS {
        None
    } else {
        let free = g - SITE_GUARDS;
        Some(((SITE_GUARDS + free - free % PACK_SIZE as int) * WOLF_SLOT_EVERY) as usize)
    }
}

/// The first slot of the pack a free predator slot belongs to, or `None`
/// for prey and for guards (whose pack is their post).
pub fn pack_leader_of(slot: usize) -> (r: Option<usize>)
    ensures
        r == spec_pack_leader_of(slot),
{
    if slot % WOLF_SLOT_EVERY != 0 {
        return None;
    }
    let g = slot / WOLF_SLOT_EVERY;
    if g < SITE_GUARDS {
        return None;
    }
    let free = g - SITE_GUARDS;
    Some((SITE_GUARDS + free - free % PACK_SIZE) * WOLF_SLOT_EVERY)
}

/// Which pack a slot answers: a guard's is its post (200 + site), a free
/// predator's its den's leader, the solitary none.
pub open spec fn spec_pack_of(slot: usize) -> Option<u8> {
    match spec_guard_site_of(slot) {
        Some(site) => Some((200 + site) as u8),
        None => match spec_pack_leader_of(slot) {
            Some(l) => Some(l as u8),
            None => None,
        },
    }
}

/// Which pack a slot answers, or `None` for the solitary.
pub fn pack_of(slot: usize) -> (r: Option<u8>)
    ensures
        r == spec_pack_of(slot),
{
    match guard_site_of(slot) {
        Some(site) => {
            assert(site <= WAYSTATIONS);
            return Some(200 + site as u8);
        },
        None => {},
    }
    match pack_leader_of(slot) {
        Some(l) => Some(l as u8),
        None => None,
    }
}

/// Every guard is a wolf, and keeps a site that exists: the pad keeps the
/// first four guard ordinals, each waystation the next two.
pub proof fn law_guards_are_wolves_at_real_sites(slot: usize)
    ensures
        spec_guard_site_of(slot) is Some ==> spec_kind_of(slot) == MOB_WOLF
            && spec_guard_site_of(slot)->0 <= WAYSTATIONS,
        spec_guard_site_of(slot) == Some(0usize) <==> (slot == 0 || slot == 4 || slot == 8 || slot == 12),
        spec_guard_site_of(slot) == Some(1usize) <==> (slot == 16 || slot == 20),
        spec_guard_site_of(slot) == Some(2usize) <==> (slot == 24 || slot == 28),
{
}

/// A pack's leader is a free wolf that leads itself, stands at or before
/// every member, and no pack holds more than `PACK_SIZE` wolves.
pub proof fn law_packs_lead_themselves(slot: usize)
    ensures
        spec_pack_leader_of(slot) is Some ==> {
            let l = spec_pack_leader_of(slot)->0;
            &&& spec_pack_leader_of(l) == Some(l)
            &&& spec_kind_of(l) == MOB_WOLF && spec_kind_of(slot) == MOB_WOLF
            &&& spec_guard_site_of(l) is None && spec_guard_site_of(slot) is None
            &&& l <= slot
            &&& (slot - l) / (WOLF_SLOT_EVERY as int) < PACK_SIZE
        },
{
}

/// One species, as content sees it.
#[derive(Clone, Copy, Debug, PartialEq, Eq)]
pub struct MobDef {
    /// Hit points at hatch; zero is inert and never hatches.
    pub hp: u16,
    /// Forward gait while roaming, `0..=127`.
    pub gait: u8,
    /// Forward gait while roused — fleeing or charging.
    pub flee_gait: u8,
    /// How long one rousing lasts, in ticks.
    pub flee_ticks: u16,
    /// Damage per bite; zero never fights.
    pub attack: u16,
    /// Bite reach, planar centimetres.
    pub attack_range_cm: i64,
    /// Ticks between bites.
    pub attack_ticks: u16,
    /// Percent of max hp at which courage runs out; zero is the predator.
    pub brave_pct: u8,
    /// Leash from home, planar centimetres.
    pub roam_cm: i64,
    /// Notice radius by day, planar centimetres.
    pub spook_cm: i64,
    /// Notice radius by night, planar centimetres.
    pub night_spook_cm: i64,
    /// Ticks between a death and the slot hatching again.
    pub respawn_ticks: u32,
    /// Hit volume, a cylinder on the feet: radius and height, centimetres.
    pub body_r_cm: u16,
    pub body_h_cm: u16,
    /// Cosine of the sight cone's half-angle, per mille.
    pub sight_dot_pm: i16,
    /// How far it answers a pack-mate, centimetres; zero is solitary.
    pub pack_cm: i64,
    /// A lit torch inside this radius is circled, not bitten, centimetres.
    pub fire_fear_cm: i64,
    /// What the corpse holds; `NO_ITEM` ends the table.
    pub loot: [ItemStack; MOB_LOOT_ROWS],
}

impl MobDef {
    /// The species that never hatches.
    pub fn inert() -> (d: Self)
        ensures
            d.hp == 0 && d.gait == 0 && d.flee_gait == 0 && d.flee_ticks == 0 && d.attack == 0,
            d.attack_range_cm == 0 && d.attack_ticks == 0 && d.brave_pct == 0 && d.roam_cm == 0,
            d.spook_cm == 0 && d.night_spook_cm == 0 && d.respawn_ticks == 0,
            d.body_r_cm == 0 && d.body_h_cm == 0 && d.sight_dot_pm == 0 && d.pack_cm == 0 && d.fire_fear_cm == 0,
            forall|i: int| 0 <= i < MOB_LOOT_ROWS ==> d.loot[i] == (ItemStack { item: NO_ITEM, count: 0, cond: 0 }),
    {
        let none = ItemStack { item: NO_ITEM, count: 0, cond: 0 };
        MobDef {
            hp: 0,
            gait: 0,
            flee_gait: 0,
            flee_ticks: 0,
            attack: 0,
            attack_range_cm: 0,
            attack_ticks: 0,
            brave_pct: 0,
            roam_cm: 0,
            spook_cm: 0,
            night_spook_cm: 0,
            respawn_ticks: 0,
            body_r_cm: 0,
            body_h_cm: 0,
            sight_dot_pm: 0,
            pack_cm: 0,
            fire_fear_cm: 0,
            loot: [none, none, none, none],
        }
    }
}

/// The baked species table.
#[derive(Clone, Copy, Debug, PartialEq, Eq)]
pub struct MobContent {
    pub defs: [MobDef; MOB_KINDS],
}

impl MobContent {
    /// Inert: no species has hit points, so the roster never hatches.
    pub fn empty() -> (c: Self)
        ensures
            c.defs[0].hp == 0 && c.defs[1].hp == 0,
    {
        MobContent { defs: [MobDef::inert(), MobDef::inert()] }
    }

    /// The fixture the probe and the sim tests run on: both species, loot
    /// left empty.
    pub fn probe_fixture() -> (c: Self)
        ensures
            c.defs[MOB_PIG as int].hp == 80 && c.defs[MOB_PIG as int].brave_pct == 50,
            c.defs[MOB_PIG as int].spook_cm == 1_200 && c.defs[MOB_PIG as int].night_spook_cm == 1_200,
            c.defs[MOB_PIG as int].pack_cm == 0 && c.defs[MOB_PIG as int].fire_fear_cm == 0,
            c.defs[MOB_WOLF as int].hp == 100 && c.defs[MOB_WOLF as int].brave_pct == 0,
            c.defs[MOB_WOLF as int].spook_cm == 3_000 && c.defs[MOB_WOLF as int].night_spook_cm == 1_500,
            c.defs[MOB_WOLF as int].pack_cm == 4_000 && c.defs[MOB_WOLF as int].fire_fear_cm == 800,
            forall|k: int, i: int| 0 <= k < MOB_KINDS && 0 <= i < MOB_LOOT_ROWS ==> c.defs[k].loot[i].item == NO_ITEM,
            c.defs[MOB_PIG as int] == (MobDef {
                hp: 80,
                gait: 63,
                flee_gait: 127,
                flee_ticks: 90,
                attack: 15,
                attack_range_cm: 200,
                attack_ticks: 60,
                brave_pct: 50,
                roam_cm: 6_000,
                spook_cm: 1_200,
                night_spook_cm: 1_200,
                respawn_ticks: 9_000,
                body_r_cm: 55,
                body_h_cm: 78,
                sight_dot_pm: -500i16,
                pack_cm: 0,
                fire_fear_cm: 0,
                loot: c.defs[MOB_PIG as int].loot,
            }),
            c.defs[MOB_WOLF as int] == (MobDef {
                hp: 100,
                gait: 69,
                flee_gait: 107,
                flee_ticks: 180,
                attack: 20,
                attack_range_cm: 200,
                attack_ticks: 60,
                brave_pct: 0,
                roam_cm: 9_000,
                spook_cm: 3_000,
                night_spook_cm: 1_500,
                respawn_ticks: 9_000,
                body_r_cm: 60,
                body_h_cm: 85,
                sight_dot_pm: -500i16,
                pack_cm: 4_000,
                fire_fear_cm: 800,
                loot: c.defs[MOB_WOLF as int].loot,
            }),
            forall|k: int, i: int| 0 <= k < MOB_KINDS && 0 <= i < MOB_LOOT_ROWS ==> c.defs[k].loot[i].count == 0,
    {
        let mut c = Self::empty();
        let none = ItemStack { item: NO_ITEM, count: 0, cond: 0 };
        c.defs[MOB_PIG as usize] = MobDef {
            hp: 80,
            gait: 63,
            flee_gait: 127,
            flee_ticks: 90,
            attack: 15,
            attack_range_cm: 200,
            attack_ticks: 60,
            brave_pct: 50,
            roam_cm: 6_000,
            spook_cm: 1_200,
            night_spook_cm: 1_200,
            respawn_ticks: 9_000,
            body_r_cm: 55,
            body_h_cm: 78,
            sight_dot_pm: -500,
            pack_cm: 0,
            fire_fear_cm: 0,
            loot: [none, none, none, none],
        };
        c.defs[MOB_WOLF as usize] = MobDef {
            hp: 100,
            gait: 69,
            flee_gait: 107,
            flee_ticks: 180,
            attack: 20,
            attack_range_cm: 200,
            attack_ticks: 60,
            brave_pct: 0,
            roam_cm: 9_000,
            spook_cm: 3_000,
            night_spook_cm: 1_500,
            respawn_ticks: 9_000,
            body_r_cm: 60,
            body_h_cm: 85,
            sight_dot_pm: -500,
            pack_cm: 4_000,
            fire_fear_cm: 800,
            loot: [none, none, none, none],
        };
        c
    }

    /// A species' row, or the inert row for an ordinal past the table.
    pub fn def(&self, kind: u8) -> (d: MobDef)
        ensures
            (kind as int) < MOB_KINDS ==> d == self.defs[kind as int],
            (kind as int) >= MOB_KINDS ==> d.hp == 0 && d.attack == 0,
    {
        if (kind as usize) < MOB_KINDS {
            self.defs[kind as usize]
        } else {
            MobDef::inert()
        }
    }
}

/// The entity id of a roster slot: the animal tag over the slot.
pub fn mob_id(slot: usize) -> (id: u32)
    ensures
        id == MOB_ID_TAG | (slot as u32),
{
    MOB_ID_TAG | slot as u32
}

/// The roster slot an entity id names, or `None` for a player's id and
/// for a tagged id past the roster.
pub fn slot_of_id(id: u32) -> (r: Option<usize>)
    ensures
        r == (if id & MOB_ID_TAG == 0 {
            None
        } else if ((id & !MOB_ID_TAG) as int) < MAX_MOBS {
            Some((id & !MOB_ID_TAG) as usize)
        } else {
            None
        }),
{
    if id & MOB_ID_TAG == 0 {
        return None;
    }
    let slot = (id & !MOB_ID_TAG) as usize;
    if slot < MAX_MOBS {
        Some(slot)
    } else {
        None
    }
}

/// An animal's id names its slot back, and is never a player's id.
pub proof fn law_mob_ids_round_trip(slot: usize)
    requires
        slot < MAX_MOBS,
    ensures
        (MOB_ID_TAG | (slot as u32)) & MOB_ID_TAG != 0,
        ((MOB_ID_TAG | (slot as u32)) & !MOB_ID_TAG) as int == slot,
{
    let s = slot as u32;
    assert(s < 64);
    assert((0x8000_0000u32 | s) & 0x8000_0000u32 != 0) by (bit_vector);
    assert(s < 64 ==> ((0x8000_0000u32 | s) & !0x8000_0000u32) == s) by (bit_vector);
}

/// One landed bite, parked for the world to apply.
#[derive(Clone, Copy, Debug, Default, PartialEq, Eq, Structural)]
pub struct Bite {
    pub mob_slot: u8,
    pub victim: u8,
    pub damage: u16,
    pub range_cm: u16,
}

/// The tick's bites, bounded: overflow drops the bite.
pub struct Bites {
    entries: Vec<Bite>,
}

impl View for Bites {
    type V = Seq<Bite>;

    closed spec fn view(&self) -> Seq<Bite> {
        self.entries@
    }
}

impl Bites {
    pub closed spec fn wf(&self) -> bool {
        self.entries@.len() <= MAX_MOB_BITES_PER_TICK
    }

    pub fn new() -> (b: Self)
        ensures
            b.wf(),
            b@ == Seq::<Bite>::empty(),
    {
        Bites { entries: Vec::new() }
    }

    pub fn clear(&mut self)
        ensures
            final(self).wf(),
            final(self)@ == Seq::<Bite>::empty(),
    {
        self.entries = Vec::new();
    }

    pub fn entries(&self) -> (s: &[Bite])
        ensures
            s@ == self@,
    {
        self.entries.as_slice()
    }

    /// Park a bite; a full buffer drops it.
    pub fn push(&mut self, b: Bite)
        requires
            old(self).wf(),
        ensures
            final(self).wf(),
            old(self)@.len() < MAX_MOB_BITES_PER_TICK ==> final(self)@ == old(self)@.push(b),
            old(self)@.len() >= MAX_MOB_BITES_PER_TICK ==> final(self)@ == old(self)@,
    {
        if self.entries.len() < MAX_MOB_BITES_PER_TICK {
            self.entries.push(b);
        }
    }
}

impl Default for Bites {
    fn default() -> (b: Self)
        ensures
            b.wf(),
            b@ == Seq::<Bite>::empty(),
    {
        Bites::new()
    }
}

/// The tick's pack calls, bounded: the roster slots that howled. Overflow
/// drops the howl's sound, never the call.
pub struct Howls {
    slots: Vec<u8>,
}

impl View for Howls {
    type V = Seq<u8>;

    closed spec fn view(&self) -> Seq<u8> {
        self.slots@
    }
}

impl Howls {
    pub closed spec fn wf(&self) -> bool {
        self.slots@.len() <= MAX_HOWLS_PER_TICK
    }

    pub fn new() -> (h: Self)
        ensures
            h.wf(),
            h@ == Seq::<u8>::empty(),
    {
        Howls { slots: Vec::new() }
    }

    pub fn clear(&mut self)
        ensures
            final(self).wf(),
            final(self)@ == Seq::<u8>::empty(),
    {
        self.slots = Vec::new();
    }

    pub fn entries(&self) -> (s: &[u8])
        ensures
            s@ == self@,
    {
        self.slots.as_slice()
    }

    /// Record a howl; a full buffer drops it.
    pub fn push(&mut self, slot: u8)
        requires
            old(self).wf(),
        ensures
            final(self).wf(),
            old(self)@.len() < MAX_HOWLS_PER_TICK ==> final(self)@ == old(self)@.push(slot),
            old(self)@.len() >= MAX_HOWLS_PER_TICK ==> final(self)@ == old(self)@,
    {
        if self.slots.len() < MAX_HOWLS_PER_TICK {
            self.slots.push(slot);
        }
    }
}

impl Default for Howls {
    fn default() -> (h: Self)
        ensures
            h.wf(),
            h@ == Seq::<u8>::empty(),
    {
        Howls::new()
    }
}

} // verus!
