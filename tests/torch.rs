use raycaster::torch::{FlickerPhase, Torch, FLICKER_CEIL, FLICKER_FLOOR};

fn torch(intensity: u64, state: FlickerPhase) -> Torch {
    Torch {
        intensity,
        flicker_r_low: 57000,
        flicker_r_high: 60000,
        flicker_r_hold: 100,
        flicker_r_pause: 50,
        state,
        timer: 1000,
    }
}

#[test]
fn ramp_up_steps_until_past_the_high_threshold() {
    let mut t = torch(59000, FlickerPhase::RampUp);
    t.advance(2000, 300);
    assert_eq!(t.intensity, 59655);
    assert_eq!(t.state, FlickerPhase::RampUp);
    let mut t = torch(60001, FlickerPhase::RampUp);
    t.advance(2000, 300);
    assert_eq!(t.state, FlickerPhase::Hold);
    assert_eq!(t.flicker_r_hold, 300);
    assert_eq!(t.timer, 2000);
    assert_eq!(t.intensity, 60001);
}

#[test]
fn hold_waits_for_its_duration() {
    let mut t = torch(60001, FlickerPhase::Hold);
    t.advance(1100, 57000);
    assert_eq!(t.state, FlickerPhase::Hold);
    t.advance(1101, 58000);
    assert_eq!(t.state, FlickerPhase::RampDown);
    assert_eq!(t.flicker_r_low, 58000);
}

#[test]
fn ramp_down_and_pause() {
    let mut t = torch(58000, FlickerPhase::RampDown);
    t.advance(1500, 60);
    assert_eq!(t.intensity, 57017);
    t.advance(1500, 60);
    assert_eq!(t.intensity, 56034);
    t.advance(1600, 60);
    assert_eq!(t.state, FlickerPhase::Pause);
    assert_eq!(t.flicker_r_pause, 60);
    assert_eq!(t.timer, 1600);
    t.advance(1661, 61000);
    assert_eq!(t.state, FlickerPhase::RampUp);
    assert_eq!(t.flicker_r_high, 61000);
}

#[test]
fn flicker_stays_in_its_envelope_over_a_long_run() {
    let mut t = Torch::default();
    let mut now: u64 = 0;
    for _ in 0..200_000 {
        now += 16;
        t.update_intensity(now);
        assert!(t.intensity >= FLICKER_FLOOR && t.intensity <= FLICKER_CEIL);
    }
}

#[test]
fn new_torches_draw_their_thresholds_at_random() {
    let torches: Vec<Torch> = (0..50).map(|_| Torch::default()).collect();
    for t in &torches {
        assert!(t.intensity >= 51200 && t.intensity < 61440);
        assert!(t.flicker_r_low >= 51200 && t.flicker_r_low < 61440);
        assert!(t.flicker_r_high >= 58880 && t.flicker_r_high < 65536);
        assert_eq!(t.state, FlickerPhase::RampUp);
        assert_eq!(t.timer, 0);
    }
    assert!(torches.iter().any(|t| t.intensity != torches[0].intensity));
    assert!(torches.iter().any(|t| t.flicker_r_high != torches[0].flicker_r_high));
}
