use sim_core::limits::{MAX_NOISES, MAX_PLAYERS, MOB_THINK_TICKS};
use sim_core::noise::{Noise, Noises, NOISE_BLAST_CM, NOISE_BOW_CM, NOISE_GUN_CM, NOISE_STRIKE_CM};
use sim_core::world::{impact_a, EventQueue, Player, EV_IMPACT, EV_SHOT, IMPACT_MELEE, SURF_WORLD};

#[test]
fn a_noise_is_heard_inside_its_radius_for_one_think() {
    let mut n = Noises::new();
    n.push(Noise {
        qx: 1_000,
        qz: 1_000,
        radius_cm: NOISE_BOW_CM,
        at: 100,
    });
    // 14 m off (467 quanta): inside a bow's 15 m.
    assert!(n.heard(100, 1_000 + 467, 1_000).is_some());
    assert!(n.heard(100 + MOB_THINK_TICKS, 1_000, 1_000).is_some());
    // Past the window, and past the radius.
    assert!(n.heard(101 + MOB_THINK_TICKS, 1_000, 1_000).is_none());
    assert!(n.heard(100, 1_000 + 600, 1_000).is_none());
    // Not before it was made.
    assert!(n.heard(99, 1_000, 1_000).is_none());
}

#[test]
fn the_newest_noise_wins_and_a_full_ring_forgets_the_oldest() {
    let mut n = Noises::new();
    for i in 0..MAX_NOISES as u64 + 1 {
        n.push(Noise {
            qx: i as i32,
            qz: 0,
            radius_cm: NOISE_BLAST_CM,
            at: 10 + i,
        });
    }
    let got = n.heard(10 + MAX_NOISES as u64, 0, 0).expect("heard");
    assert_eq!(got.at, 10 + MAX_NOISES as u64);
    assert!(
        n.ring().iter().all(|x| x.at != 10),
        "the oldest survived a full ring"
    );
}

/// Two noises on one tick: the louder one answers.
#[test]
fn a_tie_on_the_tick_goes_to_the_louder() {
    let mut n = Noises::new();
    n.push(Noise { qx: 0, qz: 0, radius_cm: NOISE_BOW_CM, at: 5 });
    n.push(Noise { qx: 0, qz: 0, radius_cm: NOISE_GUN_CM, at: 5 });
    n.push(Noise { qx: 0, qz: 0, radius_cm: NOISE_BOW_CM, at: 5 });
    assert_eq!(n.heard(5, 0, 0).unwrap().radius_cm, NOISE_GUN_CM);
    // A noise at the exact edge of its radius is heard: 10 quanta is 30 cm.
    let mut edge = Noises::new();
    edge.push(Noise { qx: 10, qz: 0, radius_cm: 30, at: 0 });
    assert!(edge.heard(0, 0, 0).is_some());
    assert!(edge.heard(0, -1, 0).is_none());
}

#[test]
fn a_gunshot_is_loud_and_an_arrow_is_not() {
    let mut players = Box::new([Player::default(); MAX_PLAYERS]);
    players[3].active = true;
    players[3].id = 77;
    players[3].body.qx = 500;
    players[3].body.qz = 700;
    let mut ev = EventQueue::default();
    ev.push(EV_SHOT, 77, 0, 0); // speed 0: a firearm
    ev.push(EV_SHOT, 77, 0, 40 << 16); // a flight: a bow

    // A hatchet blow: the weapon kind sits above x in `a`, and must not
    // move the noise.
    let a = impact_a(SURF_WORLD, IMPACT_MELEE, 900);
    ev.push(EV_IMPACT, a, 1_100, 0);
    let mut n = Noises::new();
    n.record(5, &ev, &players);
    let radii: Vec<i64> = n.ring()[..3].iter().map(|x| x.radius_cm).collect();
    assert_eq!(radii, [NOISE_GUN_CM, NOISE_BOW_CM, NOISE_STRIKE_CM]);
    assert_eq!((n.ring()[0].qx, n.ring()[0].qz), (500, 700));
    assert_eq!((n.ring()[2].qx, n.ring()[2].qz), (900, 1_100));
}

#[test]
fn a_shot_from_nobody_present_makes_no_noise() {
    let players = Box::new([Player::default(); MAX_PLAYERS]);
    let mut ev = EventQueue::default();
    ev.push(EV_SHOT, 12, 0, 0);
    let mut n = Noises::new();
    n.record(5, &ev, &players);
    assert!(n.ring().iter().all(|x| x.radius_cm == 0));
}
