use sim_core::limits::{MAX_MOBS, MAX_MOB_BITES_PER_TICK};
use sim_core::mob::{
    guard_site_of, kind_of, mob_id, pack_leader_of, pack_of, slot_of_id, Bite, Bites, Howls,
    MobContent, MobDef, HAVEN_GUARDS, MOB_PIG, MOB_WOLF, SITE_GUARDS, WAYSTATION_GUARDS,
};

#[test]
fn one_slot_in_four_is_a_wolf() {
    let wolves = (0..MAX_MOBS).filter(|&s| kind_of(s) == MOB_WOLF).count();
    assert_eq!(wolves, 16);
    assert_eq!(kind_of(1), MOB_PIG);
}

#[test]
fn the_pad_keeps_the_most_guards_and_every_guard_is_a_wolf() {
    assert!(HAVEN_GUARDS > WAYSTATION_GUARDS && WAYSTATION_GUARDS > 0);
    assert_eq!(SITE_GUARDS, 8);
    let mut per_site = [0usize; 3];
    for s in 0..MAX_MOBS {
        if let Some(site) = guard_site_of(s) {
            assert_eq!(kind_of(s), MOB_WOLF);
            per_site[site] += 1;
        }
    }
    assert_eq!(per_site, [4, 2, 2]);
}

#[test]
fn free_wolves_den_in_packs_of_three() {
    assert_eq!(pack_leader_of(32), Some(32));
    assert_eq!(pack_leader_of(36), Some(32));
    assert_eq!(pack_leader_of(40), Some(32));
    assert_eq!(pack_leader_of(44), Some(44));
    assert_eq!(pack_leader_of(60), Some(56));
    assert_eq!(pack_leader_of(0), None, "a guard's pack is its post");
    assert_eq!(pack_leader_of(1), None);
    assert_eq!(pack_of(0), Some(200));
    assert_eq!(pack_of(16), Some(201));
    assert_eq!(pack_of(36), Some(32));
    assert_eq!(pack_of(3), None);
}

#[test]
fn an_animal_id_names_its_slot() {
    assert_eq!(mob_id(5), 0x8000_0005);
    assert_eq!(slot_of_id(mob_id(5)), Some(5));
    assert_eq!(slot_of_id(5), None, "a player's id names no slot");
    assert_eq!(slot_of_id(0x8000_0000 | 64), None);
}

#[test]
fn the_species_table_reads_inert_past_its_end() {
    let mc = MobContent::probe_fixture();
    assert_eq!(mc.def(MOB_PIG).hp, 80);
    assert_eq!(mc.def(MOB_WOLF).brave_pct, 0);
    assert_eq!(mc.def(9), MobDef::inert());
    assert_eq!(MobContent::empty().def(MOB_WOLF).hp, 0);
}

#[test]
fn a_full_buffer_drops_the_bite_and_the_howl() {
    let mut b = Bites::new();
    for k in 0..MAX_MOB_BITES_PER_TICK + 3 {
        b.push(Bite { mob_slot: k as u8, victim: 1, damage: 5, range_cm: 100 });
    }
    assert_eq!(b.entries().len(), MAX_MOB_BITES_PER_TICK);
    assert_eq!(b.entries()[0].mob_slot, 0);
    b.clear();
    assert!(b.entries().is_empty());
    let mut h = Howls::new();
    for k in 0..20u8 {
        h.push(k);
    }
    assert_eq!(h.entries().len(), 8);
    h.clear();
    assert!(h.entries().is_empty());
}
