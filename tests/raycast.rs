use raycaster::raycast::{cast, Intersections, Ray};
use raycaster::tilemap::{Door, TileMap};
use raycaster::Orientation;

fn grid(walls: Vec<u8>) -> TileMap {
    let n = walls.len();
    TileMap::new(walls, vec![0; n], (10, 10))
}

#[test]
fn empty_map_never_stops_a_ray() {
    let m = grid(vec![0; 100]);
    for (dx, dy) in [(256, 0), (-256, 0), (0, 256), (0, -256), (181, 181), (-100, 37)] {
        let ray = Ray { ox: 1280, oy: 1280, dx, dy };
        assert!(cast(&m, &ray).is_none());
    }
}

#[test]
fn wall_straight_ahead_is_five_tiles_away() {
    let mut walls = vec![0u8; 100];
    walls[5 * 10 + 5] = 1;
    let m = grid(walls);
    let hit = cast(&m, &Ray { ox: 0, oy: 1280, dx: 256, dy: 0 }).unwrap();
    assert_eq!((hit.cell_x, hit.cell_y), (5, 5));
    assert_eq!(hit.dist_num * 256, 5 * 256 * hit.dist_den);
    assert_eq!(hit.dist_num as f64 / hit.dist_den as f64, 5.0);
    assert_eq!(hit.orientation, Orientation::E);
    assert_eq!(hit.wall_type, 1);
}

#[test]
fn ray_going_north_hits_a_south_face() {
    let mut walls = vec![0u8; 100];
    walls[2 * 10 + 3] = 4;
    let m = grid(walls);
    let hit = cast(&m, &Ray { ox: 3 * 256 + 128, oy: 7 * 256 + 128, dx: 0, dy: -256 }).unwrap();
    assert_eq!((hit.cell_x, hit.cell_y), (3, 2));
    assert_eq!(hit.orientation, Orientation::S);
    assert_eq!(hit.dist_num as f64 / hit.dist_den as f64, 4.5);
    assert_eq!(hit.wall_type, 4);
}

#[test]
fn closed_door_stops_the_ray_halfway_into_its_cell() {
    let mut walls = vec![0u8; 100];
    walls[5 * 10 + 5] = 6;
    walls[5 * 10 + 6] = 2;
    let m = grid(walls);
    let hit = cast(&m, &Ray { ox: 0, oy: 1408, dx: 256, dy: 0 }).unwrap();
    assert_eq!((hit.cell_x, hit.cell_y), (5, 5));
    assert_eq!(hit.wall_type, 6);
    assert_eq!(hit.dist_num as f64 / hit.dist_den as f64, 5.5);
}

#[test]
fn open_door_lets_the_ray_through() {
    let mut walls = vec![0u8; 100];
    walls[5 * 10 + 5] = 6;
    walls[5 * 10 + 6] = 2;
    let mut m = grid(walls);
    m.doors[55] = Some(Door { opening: true, offset: 0, timer: 0 });
    let hit = cast(&m, &Ray { ox: 0, oy: 1408, dx: 256, dy: 0 }).unwrap();
    assert_eq!((hit.cell_x, hit.cell_y), (6, 5));
    assert_eq!(hit.wall_type, 7);
    assert_eq!(hit.dist_num as f64 / hit.dist_den as f64, 6.0);
}

#[test]
fn open_door_with_nothing_behind_reports_no_hit() {
    let mut walls = vec![0u8; 100];
    walls[5 * 10 + 5] = 6;
    let mut m = grid(walls);
    m.doors[55] = Some(Door { opening: true, offset: 0, timer: 0 });
    assert!(cast(&m, &Ray { ox: 0, oy: 1408, dx: 256, dy: 0 }).is_none());
}

#[test]
fn intersections_record_each_ray() {
    let mut walls = vec![0u8; 100];
    walls[5 * 10 + 5] = 1;
    let m = grid(walls);
    let mut its = Intersections::new(8);
    assert_eq!(its.hits.len(), 4);
    its.calculate_ray(&m, &Ray { ox: 0, oy: 1280, dx: 256, dy: 0 }, 1);
    assert!(its.hits[0].is_none());
    assert_eq!(its.hits[1].unwrap().cell_x, 5);
}

#[test]
fn diagonal_ray_reaches_the_corner_wall() {
    let mut walls = vec![0u8; 100];
    walls[3 * 10 + 3] = 5;
    let m = grid(walls);
    let hit = cast(&m, &Ray { ox: 128, oy: 128 + 32, dx: 256, dy: 256 }).unwrap();
    assert_eq!((hit.cell_x, hit.cell_y), (3, 3));
    assert_eq!(hit.wall_type, 5);
    // it enters row 3 at t = 2.375, in column 2, and column 3 at t = 2.5
    assert_eq!(hit.orientation, Orientation::E);
    assert_eq!(hit.dist_num as f64 / hit.dist_den as f64, 2.5);
}
