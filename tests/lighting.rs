use raycaster::lighting::{
    bilerp, level_intensity, lerp, light_levels, lighting, Lighting, Vertex, LIGHT_ONE,
};
use raycaster::Orientation;

#[test]
fn it_works() {
    let result = 2 + 2;
    assert_eq!(result, 4);
}

#[test]
fn torch_in_open_room_fades_by_one_level_per_step() {
    let solid = vec![false; 9];
    let levels = light_levels(&vec![4], &solid, 3, 3);
    assert_eq!(levels, vec![13, 14, 13, 14, 15, 14, 13, 14, 13]);
}

#[test]
fn light_stops_at_level_one_in_a_long_corridor() {
    let solid = vec![false; 20];
    let levels = light_levels(&vec![0], &solid, 20, 1);
    let expected: Vec<u8> = vec![15, 14, 13, 12, 11, 10, 9, 8, 7, 6, 5, 4, 3, 2, 1, 0, 0, 0, 0, 0];
    assert_eq!(levels, expected);
}

#[test]
fn solid_cell_blocks_light() {
    let solid = vec![false, false, true, false, false];
    let levels = light_levels(&vec![0], &solid, 5, 1);
    assert_eq!(levels, vec![15, 14, 0, 0, 0]);
}

#[test]
fn walled_off_cells_stay_dark() {
    // a plus of solid cells cuts the corner torch off from the rest
    let solid = vec![false, true, false, true, false, true, false, true, false];
    let levels = light_levels(&vec![0], &solid, 3, 3);
    assert_eq!(levels, vec![15, 0, 0, 0, 0, 0, 0, 0, 0]);
}

#[test]
fn two_torches_take_the_brighter_light() {
    let solid = vec![false; 7];
    let levels = light_levels(&vec![0, 6], &solid, 7, 1);
    assert_eq!(levels, vec![15, 14, 13, 12, 13, 14, 15]);
}

#[test]
fn rebuilding_the_light_field_gives_the_same_result() {
    let solid = vec![false, false, true, false, false, false, true, false, false, false, false, false];
    let a = light_levels(&vec![0, 11], &solid, 4, 3);
    let b = light_levels(&vec![0, 11], &solid, 4, 3);
    assert_eq!(a, b);
    let la = lighting(vec![0, 11], &solid, (4, 3));
    let lb = lighting(vec![0, 11], &solid, (4, 3));
    assert_eq!(la, lb);
}

#[test]
fn intensity_table_is_monotone_and_tops_at_one() {
    let mut prev = 0u32;
    for level in 0u8..=15 {
        let v = level_intensity(level);
        assert!(v >= prev);
        assert!(v <= LIGHT_ONE);
        prev = v;
    }
    assert_eq!(level_intensity(15), 65536);
    assert_eq!(level_intensity(14), 52063);
    assert_eq!(level_intensity(0), 2076);
}

#[test]
fn lighting_converts_levels_to_intensities() {
    let solid = vec![false; 9];
    let light = lighting(vec![4], &solid, (3, 3));
    assert_eq!(light[4], 65536);
    assert_eq!(light[1], 52063);
    assert_eq!(light[0], 41360);
}

#[test]
fn vertex_averages_the_cells_around_a_corner() {
    let light = vec![65536u32, 52063];
    assert_eq!(Vertex::new([0, 0], (2, 1), &light).lighting, 16384);
    assert_eq!(Vertex::new([1, 0], (2, 1), &light).lighting, 29399);
    assert_eq!(Vertex::new([2, 1], (2, 1), &light).lighting, 13015);
}

#[test]
fn blends_are_exact() {
    assert_eq!(bilerp(0, 0, [100, 200, 300, 400]), 100);
    assert_eq!(bilerp(128, 0, [100, 200, 300, 400]), 200);
    assert_eq!(bilerp(0, 128, [100, 200, 300, 400]), 300);
    assert_eq!(bilerp(128, 128, [100, 200, 300, 400]), 400);
    assert_eq!(bilerp(64, 64, [100, 200, 300, 400]), 250);
    assert_eq!(lerp(32, 0, 1280), 320);
}

#[test]
fn floor_lighting_follows_the_switches() {
    let solid = vec![false, false];
    let mut l = Lighting::new(vec![0], &solid, (2, 1));
    assert_eq!(l.get_lighting_floor(64, 0, 0), 22891);
    l.smooth_switch = false;
    assert_eq!(l.get_lighting_floor(64, 0, 0), 65536);
    assert_eq!(l.get_lighting_floor(64, 0, 1), 52063);
    l.switch = false;
    assert_eq!(l.get_lighting_floor(64, 0, 1), 65536);
}

#[test]
fn wall_lighting_reads_the_facing_cell() {
    let solid = vec![false, false];
    let mut l = Lighting::new(vec![0], &solid, (2, 1));
    // an east face of cell 1 looks into cell 0
    assert_eq!(l.get_lighting_wall(0, 0, 1, &Orientation::E), 29399);
    assert_eq!(l.get_lighting_wall(0, 64, 1, &Orientation::E), 16384);
    l.smooth_switch = false;
    assert_eq!(l.get_lighting_wall(0, 0, 1, &Orientation::E), 65536);
    assert_eq!(l.get_lighting_wall(0, 0, 0, &Orientation::W), 52063);
}

#[test]
fn no_torches_leave_every_cell_dark() {
    let solid = vec![false; 6];
    assert_eq!(light_levels(&vec![], &solid, 3, 2), vec![0; 6]);
    let light = lighting(vec![], &solid, (3, 2));
    assert_eq!(light, vec![2076; 6]);
}

#[test]
fn torch_in_a_wall_lights_the_open_cells_beside_it() {
    let solid = vec![false, true, false];
    assert_eq!(light_levels(&vec![1], &solid, 3, 1), vec![14, 15, 14]);
}
