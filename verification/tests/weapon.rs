use tilephys::command::Command;
use tilephys::input::KeyState;
use tilephys::rect::IntRect;
use tilephys::weapon::{
    can_place_shot, checked_weapon_name_indef, new_weapon, weapon_name, weapon_name_indef,
    weapon_sprite_frame, weapon_v_offset, AutoLaser, BackupLaser, BurstLaser, DoubleLaser,
    ReverseShotgun, Shotgun, SuperShotgun, Weapon, WeaponType,
};

const ALL: [WeaponType; 7] = [
    WeaponType::BackupLaser,
    WeaponType::BurstLaser,
    WeaponType::AutoLaser,
    WeaponType::DoubleLaser,
    WeaponType::Shotgun,
    WeaponType::SuperShotgun,
    WeaponType::ReverseShotgun,
];

fn player() -> IntRect {
    IntRect::new(100, 50, 14, 24)
}

fn shot(x: i32, y: i32, vx: i32) -> Command {
    Command::Projectile { rect: IntRect::new(x, y, 8, 5), vx }
}

#[test]
fn the_names() {
    assert_eq!(weapon_name(WeaponType::BackupLaser), "backup laser");
    assert_eq!(weapon_name(WeaponType::AutoLaser), "auto-laser");
    assert_eq!(weapon_name(WeaponType::BurstLaser), "burst laser");
    assert_eq!(weapon_name(WeaponType::DoubleLaser), "double laser");
    assert_eq!(weapon_name(WeaponType::Shotgun), "shotgun");
    assert_eq!(weapon_name(WeaponType::SuperShotgun), "super shotgun");
    assert_eq!(weapon_name(WeaponType::ReverseShotgun), "reverse shotgun");
}

#[test]
fn the_names_with_article() {
    assert_eq!(weapon_name_indef(WeaponType::AutoLaser), "an auto-laser");
    assert_eq!(weapon_name_indef(WeaponType::BurstLaser), "a burst laser");
    assert_eq!(weapon_name_indef(WeaponType::DoubleLaser), "a double laser");
    assert_eq!(weapon_name_indef(WeaponType::Shotgun), "a shotgun");
    assert_eq!(weapon_name_indef(WeaponType::SuperShotgun), "a super shotgun");
    assert_eq!(weapon_name_indef(WeaponType::ReverseShotgun), "the reverse shotgun");
    assert_eq!(checked_weapon_name_indef(WeaponType::BackupLaser), None);
    assert_eq!(checked_weapon_name_indef(WeaponType::Shotgun), Some("a shotgun"));
}

#[test]
fn the_sprite_frames_and_offsets() {
    let frames: Vec<usize> = ALL.iter().map(|t| weapon_sprite_frame(*t)).collect();
    assert_eq!(frames, vec![0, 1, 2, 7, 3, 4, 5]);
    let offsets: Vec<i32> = ALL.iter().map(|t| weapon_v_offset(*t)).collect();
    assert_eq!(offsets, vec![4, 3, 3, 2, 4, 3, 1]);
}

#[test]
fn new_weapon_makes_the_type_asked_for() {
    for typ in ALL {
        assert_eq!(new_weapon(typ).get_type(), typ);
    }
    assert_eq!(BackupLaser::new().get_type(), WeaponType::BackupLaser);
    assert_eq!(Shotgun::new().get_type(), WeaponType::Shotgun);
    assert_eq!(SuperShotgun::new().get_type(), WeaponType::SuperShotgun);
    assert_eq!(ReverseShotgun::new().get_type(), WeaponType::ReverseShotgun);
    assert_eq!(AutoLaser::new().get_type(), WeaponType::AutoLaser);
    assert_eq!(BurstLaser::new().get_type(), WeaponType::BurstLaser);
    assert_eq!(DoubleLaser::new().get_type(), WeaponType::DoubleLaser);
}

#[test]
fn the_backup_laser_fires_once_for_each_press() {
    let mut w = BackupLaser::new();
    let mut buffer: Vec<Command> = Vec::new();
    assert_eq!(w.update(&mut buffer, &player(), 1, KeyState::NotPressed), None);
    assert_eq!(w.update(&mut buffer, &player(), 1, KeyState::Held), None);
    assert!(buffer.is_empty());
    assert_eq!(w.update(&mut buffer, &player(), 1, KeyState::Pressed), Some(-10));
    assert_eq!(buffer, vec![shot(112, 61, 10)]);
    assert_eq!(w.update(&mut buffer, &player(), -1, KeyState::Pressed), Some(10));
    assert_eq!(buffer, vec![shot(112, 61, 10), shot(94, 61, -10)]);
}

#[test]
fn the_shotguns_fire_like_the_backup_laser() {
    let mut buffer: Vec<Command> = Vec::new();
    assert_eq!(Shotgun::new().update(&mut buffer, &player(), 1, KeyState::Pressed), Some(-10));
    assert_eq!(SuperShotgun::new().update(&mut buffer, &player(), -1, KeyState::Pressed), Some(10));
    assert_eq!(Shotgun::new().update(&mut buffer, &player(), 1, KeyState::Held), None);
    assert_eq!(SuperShotgun::new().update(&mut buffer, &player(), 1, KeyState::NotPressed), None);
    assert_eq!(buffer, vec![shot(112, 61, 10), shot(94, 61, -10)]);
}

#[test]
fn the_reverse_shotgun_shoots_backwards() {
    let mut w = ReverseShotgun::new();
    let mut buffer: Vec<Command> = Vec::new();
    assert_eq!(w.update(&mut buffer, &player(), 1, KeyState::Pressed), Some(10));
    assert_eq!(w.update(&mut buffer, &player(), -1, KeyState::Pressed), Some(-10));
    assert_eq!(w.update(&mut buffer, &player(), 1, KeyState::Held), None);
    assert_eq!(buffer, vec![shot(94, 61, -10), shot(112, 61, 10)]);
}

#[test]
fn the_double_laser_fires_two_projectiles() {
    let mut w = DoubleLaser::new();
    let mut buffer: Vec<Command> = Vec::new();
    assert_eq!(w.update(&mut buffer, &player(), 1, KeyState::Pressed), Some(-10));
    assert_eq!(buffer, vec![shot(112, 58, 10), shot(112, 64, 10)]);
    assert_eq!(w.update(&mut buffer, &player(), 1, KeyState::Held), None);
    assert_eq!(buffer.len(), 2);
}

#[test]
fn the_auto_laser_fires_every_third_tick_while_the_key_is_down() {
    let mut w = AutoLaser::new();
    let mut buffer: Vec<Command> = Vec::new();
    let mut fired = Vec::new();
    let keys = [
        KeyState::Pressed, KeyState::Held, KeyState::Held, KeyState::Held, KeyState::Held,
        KeyState::Held, KeyState::Held, KeyState::NotPressed, KeyState::NotPressed,
        KeyState::NotPressed, KeyState::Pressed, KeyState::Pressed,
    ];
    for key in keys {
        fired.push(w.update(&mut buffer, &player(), 1, key).is_some());
    }
    assert_eq!(
        fired,
        vec![true, false, false, true, false, false, true, false, false, false, true, false]
    );
    assert_eq!(buffer.len(), 4);
    assert_eq!(buffer[0], shot(112, 61, 10));
}

#[test]
fn the_burst_laser_fires_three_shots_and_waits_for_the_key_to_come_up() {
    let mut w = BurstLaser::new();
    let mut buffer: Vec<Command> = Vec::new();
    let mut fired = Vec::new();
    let keys = [
        KeyState::Pressed, KeyState::Held, KeyState::Held, KeyState::Held, KeyState::Held,
        KeyState::Held, KeyState::Held, KeyState::Held, KeyState::NotPressed, KeyState::Pressed,
        KeyState::Held, KeyState::Held,
    ];
    for key in keys {
        fired.push(w.update(&mut buffer, &player(), -1, key).map(|kick| kick == 10));
    }
    assert_eq!(
        fired,
        vec![
            Some(true), None, Some(true), None, Some(true), None, None, None, None, Some(true),
            None, Some(true),
        ]
    );
    assert_eq!(buffer.len(), 5);
    assert_eq!(buffer[0], shot(94, 61, -10));
}

#[test]
fn a_weapon_from_new_weapon_keeps_its_state() {
    let mut w = new_weapon(WeaponType::AutoLaser);
    let mut buffer: Vec<Command> = Vec::new();
    assert_eq!(w.update(&mut buffer, &player(), 1, KeyState::Held), Some(-10));
    assert_eq!(w.update(&mut buffer, &player(), 1, KeyState::Held), None);
    assert_eq!(w.update(&mut buffer, &player(), 1, KeyState::Held), None);
    assert_eq!(w.update(&mut buffer, &player(), 1, KeyState::Held), Some(-10));
    assert_eq!(w.get_type(), WeaponType::AutoLaser);
    let mut d = new_weapon(WeaponType::DoubleLaser);
    assert_eq!(d.update(&mut buffer, &player(), 1, KeyState::Pressed), Some(-10));
    assert_eq!(buffer.len(), 4);
    let mut r = new_weapon(WeaponType::ReverseShotgun);
    assert_eq!(r.update(&mut buffer, &player(), 1, KeyState::Pressed), Some(10));
    assert_eq!(buffer[4], shot(94, 61, -10));
}

#[test]
fn can_place_shot_tells_where_a_shot_fits() {
    for typ in ALL {
        assert!(can_place_shot(typ, &player(), 1));
        assert!(can_place_shot(typ, &player(), -1));
    }
    let right_edge = IntRect::new(i32::MAX - 5, 0, 14, 24);
    assert!(!can_place_shot(WeaponType::Shotgun, &right_edge, 1));
    assert!(can_place_shot(WeaponType::Shotgun, &right_edge, -1));
    assert!(can_place_shot(WeaponType::ReverseShotgun, &right_edge, 1));
    // the hand itself must fit, three units into the player
    assert!(!can_place_shot(WeaponType::Shotgun, &IntRect::new(i32::MAX - 2, 0, 14, 24), -1));
    assert!(!can_place_shot(WeaponType::ReverseShotgun, &right_edge, -1));
    let left_edge = IntRect::new(i32::MIN, 0, 14, 24);
    assert!(can_place_shot(WeaponType::AutoLaser, &left_edge, 1));
    assert!(!can_place_shot(WeaponType::AutoLaser, &left_edge, -1));
    let low = IntRect::new(0, i32::MAX - 13, 14, 24);
    assert!(can_place_shot(WeaponType::BurstLaser, &low, 1));
    assert!(!can_place_shot(WeaponType::DoubleLaser, &low, 1));
    assert!(can_place_shot(WeaponType::Shotgun, &IntRect::new(i32::MAX - 12, i32::MAX - 11, 14, 24), 1));
    assert!(!can_place_shot(WeaponType::Shotgun, &IntRect::new(i32::MAX - 12, i32::MAX - 10, 14, 24), 1));
}
