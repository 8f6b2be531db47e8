use raycaster::lighting::Lighting;
use raycaster::raycast::{cast, Intersection, Ray};
use raycaster::screen::{
    attenuation, draw_flat, draw_slice, ray_attenuation, shade, sprite_shade, texture_x, Eye, ATLAS_BYTES,
    SPRITE_ATLAS_BYTES,
};
use raycaster::sprite::{project, Camera, Sprite, SpriteBox, SpriteType};
use raycaster::tilemap::TileMap;
use raycaster::Orientation;

#[test]
fn falloff_is_capped_near_and_inverse_square_far() {
    assert_eq!(attenuation(256, 256), 98304);
    assert_eq!(attenuation(0, 256), 98304);
    assert_eq!(attenuation(512, 256), 49152);
    assert_eq!(attenuation(1280, 256), 7864);
}

#[test]
fn shading_multiplies_and_saturates() {
    assert_eq!(shade(200, 65536, 65536, 65536), 200);
    assert_eq!(shade(200, 65536, 32768, 98304), 150);
    assert_eq!(shade(255, 131072, 65536, 98304), 255);
    assert_eq!(shade(0, 131072, 65536, 98304), 0);
}

fn map_with_wall() -> TileMap {
    let mut walls = vec![0u8; 100];
    walls[5 * 10 + 5] = 1;
    TileMap::new(walls, vec![0; 100], (10, 10))
}

#[test]
fn texture_column_follows_the_crossing_and_mirrors_west() {
    let m = map_with_wall();
    let ray = Ray { ox: 0, oy: 1408, dx: 256, dy: 0 };
    let mut hit = cast(&m, &ray).unwrap();
    assert_eq!(hit.orientation, Orientation::E);
    assert_eq!(texture_x(&ray, &hit, 256), 64);
    hit.orientation = Orientation::W;
    assert_eq!(texture_x(&ray, &hit, 256), 63);
    let ray = Ray { ox: 0, oy: 1280 + 32, dx: 256, dy: 0 };
    let hit = cast(&m, &ray).unwrap();
    assert_eq!(texture_x(&ray, &hit, 256), 16);
}

#[test]
fn column_shows_ceiling_wall_and_floor() {
    let m = map_with_wall();
    let mut light = Lighting::new(vec![0], &m.solid, (10, 10));
    light.switch = false;
    let atlas = vec![100u8; ATLAS_BYTES];
    let ray = Ray { ox: 0, oy: 1280, dx: 256, dy: 0 };
    let hit = cast(&m, &ray);
    let eye = Eye { planedist: 600, jump: 0, pitch: 0 };
    let mut slice = vec![0u8; 800 * 4];
    draw_slice(&mut slice, 0, 800, 300, &atlas, &m, &light, &ray, &hit, &eye, 65536);
    // ceiling, wall (rows 340..460, five tiles away), floor
    assert_eq!(&slice[0..4], &[150, 150, 150, 255]);
    assert_eq!(&slice[339 * 4..340 * 4], &[12, 12, 12, 255]);
    assert_eq!(&slice[460 * 4..461 * 4], &[11, 11, 11, 255]);
    assert_eq!(&slice[340 * 4..341 * 4], &[11, 11, 11, 255]);
    assert_eq!(&slice[459 * 4..460 * 4], &[11, 11, 11, 255]);
    assert_eq!(&slice[799 * 4..800 * 4], &[150, 150, 150, 255]);
}

#[test]
fn column_without_a_hit_is_left_alone() {
    let m = TileMap::new(vec![0; 100], vec![0; 100], (10, 10));
    let light = Lighting::new(vec![0], &m.solid, (10, 10));
    let atlas = vec![100u8; ATLAS_BYTES];
    let ray = Ray { ox: 0, oy: 1280, dx: 256, dy: 0 };
    let hit = cast(&m, &ray);
    assert!(hit.is_none());
    let eye = Eye { planedist: 600, jump: 0, pitch: 0 };
    let mut slice = vec![7u8; 800 * 4];
    draw_slice(&mut slice, 0, 800, 300, &atlas, &m, &light, &ray, &hit, &eye, 65536);
    assert!(slice.iter().all(|&b| b == 7));
}

#[test]
fn sprite_light_falls_off_with_distance() {
    assert_eq!(sprite_shade(3, 10_000_000), 65536);
    assert_eq!(sprite_shade(0, 65536 * 19), 65536);
    assert_eq!(sprite_shade(0, 65536 * 38), 32768);
    assert_eq!(sprite_shade(0, 65536 * 95), 13107);
    assert_eq!(sprite_shade(0, 65536 * 1000), 13107);
}

fn sprite_scene() -> (Camera, Sprite, SpriteBox) {
    let cam = Camera { pos_x: 2048, pos_y: 2048, dir_x: 0, dir_y: -256, plane_x: 106, plane_y: 0, planedist: 600, pitch: 0, jump: 0 };
    let s = Sprite::new(SpriteType::Armor, (2048, 2048 - 768));
    let b = project(&cam, &s, 1200, 800).unwrap();
    (cam, s, b)
}

#[test]
fn sprite_stripe_paints_its_rows_only() {
    let (cam, s, b) = sprite_scene();
    let atlas = vec![200u8; SPRITE_ATLAS_BYTES];
    let mut slice = vec![0u8; 800 * 4];
    s.draw(&mut slice, 0, 800, &atlas, &cam, &b, 600, &None);
    assert_eq!(&slice[299 * 4..300 * 4], &[0, 0, 0, 0]);
    assert_eq!(&slice[300 * 4..301 * 4], &[200, 200, 200, 255]);
    assert_eq!(&slice[500 * 4..501 * 4], &[200, 200, 200, 255]);
    assert_eq!(&slice[501 * 4..502 * 4], &[0, 0, 0, 0]);
}

#[test]
fn sprite_stripe_hides_behind_a_nearer_wall_and_skips_clear_texels() {
    let (cam, s, b) = sprite_scene();
    let atlas = vec![200u8; SPRITE_ATLAS_BYTES];
    let wall = Intersection { cell_x: 8, cell_y: 6, wall_type: 1, orientation: Orientation::S, dist_num: 512, dist_den: 256 };
    let mut slice = vec![0u8; 800 * 4];
    s.draw(&mut slice, 0, 800, &atlas, &cam, &b, 600, &Some(wall));
    assert!(slice.iter().all(|&v| v == 0));
    let clear = vec![0u8; SPRITE_ATLAS_BYTES];
    s.draw(&mut slice, 0, 800, &clear, &cam, &b, 600, &None);
    assert!(slice.iter().all(|&v| v == 0));
    s.draw(&mut slice, 0, 800, &atlas, &cam, &b, 900, &None);
    assert!(slice.iter().all(|&v| v == 0));
}

#[test]
fn wall_falloff_follows_the_ray_length() {
    // straight ahead the ray is as long as the perpendicular distance
    assert_eq!(ray_attenuation(1280, 256, 256, 0), 7864);
    // an off-centre ray to the same depth is longer: 5 * sqrt(2) tiles
    assert_eq!(ray_attenuation(1280, 256, 256, 256), 3932);
    assert_eq!(ray_attenuation(0, 256, 256, 256), 98304);
}

#[test]
fn ceiling_is_painted_under_the_minimap_but_floor_is_not() {
    let m = TileMap::new(vec![0; 100], vec![0; 100], (10, 10));
    let mut light = Lighting::new(vec![0], &m.solid, (10, 10));
    light.switch = false;
    let atlas = vec![100u8; ATLAS_BYTES];
    let ray = Ray { ox: 1280, oy: 1280, dx: 256, dy: 0 };
    // a view pitched far down puts ceiling rows below row 805
    let eye = Eye { planedist: 600, jump: 0, pitch: 400 };
    let mut ceiling = vec![0u8; 1000 * 4];
    draw_flat(&mut ceiling, 0, 1000, 50, &atlas, &m, &light, &ray, &eye, 65536, true, 0, 1000);
    assert_ne!(&ceiling[810 * 4..811 * 4], &[0, 0, 0, 0]);
    let eye = Eye { planedist: 600, jump: 0, pitch: 0 };
    let mut floor = vec![0u8; 1000 * 4];
    draw_flat(&mut floor, 0, 1000, 50, &atlas, &m, &light, &ray, &eye, 65536, false, 0, 1000);
    assert_eq!(&floor[810 * 4..811 * 4], &[0, 0, 0, 0]);
    let mut floor = vec![0u8; 1000 * 4];
    draw_flat(&mut floor, 0, 1000, 200, &atlas, &m, &light, &ray, &eye, 65536, false, 0, 1000);
    assert_ne!(&floor[810 * 4..811 * 4], &[0, 0, 0, 0]);
}
