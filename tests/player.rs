use raycaster::player::{clamp_pitch, collide, crouch_step, is_solid_at};
use raycaster::tilemap::TileMap;

fn room() -> TileMap {
    // a 3-by-3 room whose right column is wall, with a door on the top row
    TileMap::new(vec![0, 6, 1, 0, 0, 1, 0, 0, 1], vec![0; 9], (3, 3))
}

#[test]
fn a_step_into_a_wall_is_cancelled_on_that_axis() {
    let m = room();
    assert_eq!(collide(&m, 480, 384, 10, 5), (0, 5));
    assert_eq!(collide(&m, 300, 384, 10, 5), (10, 5));
    assert!(is_solid_at(&m, -1, 0));
    assert!(!is_solid_at(&m, 0, 0));
}

#[test]
fn crouching_and_pitch_stay_in_bounds() {
    assert_eq!(crouch_step(0, true), -30);
    assert_eq!(crouch_step(-300, true), -300);
    assert_eq!(crouch_step(-30, false), 0);
    assert_eq!(crouch_step(0, false), 0);
    assert_eq!(clamp_pitch(500), 300);
    assert_eq!(clamp_pitch(-500), -300);
    assert_eq!(clamp_pitch(12), 12);
}

#[test]
fn interacting_opens_the_door_ahead() {
    let mut m = room();
    // standing in the middle of the left column, facing north-east toward the door
    m.interact(128, 640, 256, -256, 500);
    assert!(!m.doors[1].unwrap().opening);
    m.interact(384, 600, 0, -256, 500);
    let d = m.doors[1].unwrap();
    assert!(d.opening);
    assert_eq!(d.timer, 500);
}
