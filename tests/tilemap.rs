use raycaster::tilemap::{TileMap, DOOR_CLOSED};

#[test]
fn map_marks_solid_cells_and_doors() {
    let m = TileMap::new(vec![0, 6, 1], vec![0, 0, 0], (3, 1));
    assert_eq!(m.solid, vec![false, true, true]);
    assert!(m.doors[0].is_none());
    assert_eq!(m.doors[1].unwrap().offset, DOOR_CLOSED);
    assert!(!m.doors[1].unwrap().opening);
}

#[test]
fn opening_a_door_twice_keeps_the_first_start() {
    let mut m = TileMap::new(vec![0, 6, 0], vec![0, 0, 0], (3, 1));
    m.open_door(1, 1000);
    m.open_door(1, 2000);
    let d = m.doors[1].unwrap();
    assert!(d.opening);
    assert_eq!(d.timer, 1000);
    m.open_door(0, 3000);
    assert!(m.doors[0].is_none());
}

#[test]
fn door_slides_open_and_frees_its_cell() {
    let mut m = TileMap::new(vec![0, 6, 0], vec![0, 0, 0], (3, 1));
    m.update_doors(5000, 1);
    assert_eq!(m.doors[1].unwrap().offset, DOOR_CLOSED);
    m.open_door(1, 1000);
    m.update_doors(1100, 1);
    assert_eq!(m.doors[1].unwrap().offset, 156);
    assert!(m.solid[1]);
    m.update_doors(1300, 1);
    assert_eq!(m.doors[1].unwrap().offset, 0);
    assert!(!m.solid[1]);
    m.update_doors(1400, 1);
    assert_eq!(m.doors[1].unwrap().offset, 0);
}
