use sim_core::exposure::{readout, reset, step, target_chill, ExposureContent, Inputs};
use sim_core::gather::ItemStack;
use sim_core::survival::Step;
use sim_core::world::{EventQueue, Player, EV_HEALTH};

fn body() -> Player {
    let mut p = Player::default();
    p.id = 9;
    p.active = true;
    p.hp = 100;
    p.hp_max = 100;
    p
}

fn rainy_night() -> Inputs {
    Inputs { rain: 1000, night: true, ..Inputs::default() }
}

#[test]
fn empty_content_disarms_everything() {
    let ec = ExposureContent::empty();
    assert!(!ec.armed());
    let mut p = body();
    let mut ev = EventQueue::new();
    assert_eq!(step(&ec, &rainy_night(), &mut p, &mut ev), Step::Quiet);
    assert_eq!((p.wet, p.chill, p.hp), (0, 0, 100));
    assert_eq!(ev.len(), 0);
}

#[test]
fn a_rainy_night_soaks_chills_and_then_hurts() {
    let ec = ExposureContent::probe_fixture();
    let mut p = body();
    let mut ev = EventQueue::new();
    assert_eq!(step(&ec, &rainy_night(), &mut p, &mut ev), Step::Quiet);
    assert_eq!((p.wet, p.chill), (250, 200), "the chill moves at its rate, not at once");
    assert_eq!(step(&ec, &rainy_night(), &mut p, &mut ev), Step::Quiet);
    assert_eq!((p.wet, p.chill), (500, 400));
    // Past hurt_at 500 by 100 of a 500 span: 1200 hp a minute at full
    // chill is 240 a minute here, 4 a second.
    assert_eq!(step(&ec, &rainy_night(), &mut p, &mut ev), Step::Changed);
    assert_eq!((p.wet, p.chill, p.hp, p.cold_acc), (750, 600, 96, 0));
    let e = ev.entries()[0];
    assert_eq!((e.code, e.a, e.b, e.c), (EV_HEALTH, 9, 96, 100));
    assert_eq!(readout(&ec, &p), (75, 60, true));
    reset(&mut p);
    assert_eq!((p.wet, p.chill, p.cold_acc), (0, 0, 0));
}

#[test]
fn shelter_a_fire_and_clothes_pull_the_target_down() {
    let ec = ExposureContent::probe_fixture();
    let mut p = body();
    let roofed_night = Inputs { night: true, roofed: true, ..Inputs::default() };
    assert_eq!(target_chill(&ec, &rainy_night(), &p), 900);
    assert_eq!(target_chill(&ec, &roofed_night, &p), 500);
    p.worn[0] = ItemStack { item: 0, count: 1, cond: 0 };
    assert_eq!(target_chill(&ec, &roofed_night, &p), 400, "dry clothes keep their warmth");
    p.wet = 1000;
    assert_eq!(target_chill(&ec, &roofed_night, &p), 950, "wet clothes keep half");
    let by_fire = Inputs { fire: true, ..roofed_night };
    assert_eq!(target_chill(&ec, &by_fire, &p), 0);
}

#[test]
fn the_sea_soaks_to_its_depth_and_a_fire_dries_fast() {
    let ec = ExposureContent::probe_fixture();
    let mut p = body();
    let mut ev = EventQueue::new();
    let wading = Inputs { depth_cm: 40, ..Inputs::default() };
    step(&ec, &wading, &mut p, &mut ev);
    assert_eq!(p.wet, 400);
    let by_fire = Inputs { fire: true, ..Inputs::default() };
    step(&ec, &by_fire, &mut p, &mut ev);
    assert_eq!(p.wet, 200);
    step(&ec, &Inputs::default(), &mut p, &mut ev);
    assert_eq!(p.wet, 180);
}
