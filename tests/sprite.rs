use raycaster::sprite::{project, sort_back_to_front, sprite_in_front, Camera, Sprite, SpriteBox, SpriteType};

fn camera() -> Camera {
    Camera { pos_x: 2048, pos_y: 2048, dir_x: 0, dir_y: -256, plane_x: 106, plane_y: 0, planedist: 600, pitch: 0, jump: 0 }
}

#[test]
fn sprite_straight_ahead_is_centred() {
    let s = Sprite::new(SpriteType::Armor, (2048, 2048 - 768));
    let b = project(&camera(), &s, 1200, 800).unwrap();
    assert_eq!(b, SpriteBox { screen_x: 600, size: 200, top: 300, start_x: 500, end_x: 700, start_y: 300, end_y: 500 });
    assert_eq!(b.screen_x - b.start_x, b.end_x - b.screen_x);
}

#[test]
fn sprite_behind_is_not_drawn() {
    let s = Sprite::new(SpriteType::Bat, (2048, 2048 + 768));
    assert!(project(&camera(), &s, 1200, 800).is_none());
}

#[test]
fn sprite_to_the_right_lands_right_of_centre() {
    let s = Sprite::new(SpriteType::Torch, (2048 + 256, 2048 - 768));
    let b = project(&camera(), &s, 1200, 800).unwrap();
    assert!(b.screen_x > 600);
}

#[test]
fn squared_distance_and_time() {
    let mut s = Sprite::new(SpriteType::Gore, (2048, 2048 - 768));
    assert_eq!(s.stype, 4);
    assert_eq!(s.calculate_distance_2(&camera()), 589824);
    s.update(1234);
    assert_eq!(s.time, 1234);
}

#[test]
fn frames_follow_kind_time_and_facing() {
    let mut bat = Sprite::new(SpriteType::Bat, (0, 0));
    bat.select_frame(2);
    assert_eq!(bat.sprite_rotation, 5);
    bat.select_frame(8);
    assert_eq!(bat.sprite_rotation, 7);
    bat.select_frame(0);
    assert_eq!(bat.sprite_rotation, 7);
    let mut torch = Sprite::new(SpriteType::Torch, (0, 0));
    torch.update(1500);
    torch.select_frame(0);
    assert_eq!(torch.sprite_rotation, 4);
    let mut armor = Sprite::new(SpriteType::Armor, (0, 0));
    armor.select_frame(3);
    assert_eq!(armor.sprite_rotation, 0);
}

#[test]
fn sprite_hides_behind_a_nearer_wall() {
    let s = Sprite::new(SpriteType::Armor, (2048, 2048 - 768));
    assert!(sprite_in_front(1280, 256, &camera(), &s));
    assert!(!sprite_in_front(512, 256, &camera(), &s));
}

#[test]
fn sprites_sort_farthest_first() {
    let cam = camera();
    let mut v = vec![
        Sprite::new(SpriteType::Armor, (2048, 2048 - 256)),
        Sprite::new(SpriteType::Bat, (2048, 2048 - 1024)),
        Sprite::new(SpriteType::Gore, (2048 + 512, 2048)),
        Sprite::new(SpriteType::Torch, (2048, 2048 - 256)),
    ];
    sort_back_to_front(&mut v, &cam);
    let d: Vec<u64> = v.iter().map(|s| s.calculate_distance_2(&cam)).collect();
    assert_eq!(d, vec![1048576, 262144, 65536, 65536]);
    assert_eq!(v[0].stype, 2);
    assert_eq!(v[1].stype, 4);
    let mut kinds: Vec<usize> = v.iter().map(|s| s.stype).collect();
    kinds.sort();
    assert_eq!(kinds, vec![0, 2, 3, 4]);
}
