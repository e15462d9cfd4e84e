use tilephys::inventory::{backup_to_drop, top_up};
use tilephys::weapon::WeaponType;

#[test]
fn top_up_fills_to_the_most_that_can_be_carried() {
    assert_eq!(top_up(0, 10, 50), 10);
    assert_eq!(top_up(45, 10, 50), 50);
    assert_eq!(top_up(40, 10, 50), 50);
    assert_eq!(top_up(39, 10, 50), 49);
    assert_eq!(top_up(50, 0, 50), 50);
    assert_eq!(top_up(200, 55, 255), 255);
    assert_eq!(top_up(60, 5, 50), 50);
}

#[test]
fn the_backup_laser_goes_once_another_weapon_can_fire() {
    let types = vec![WeaponType::BackupLaser, WeaponType::Shotgun];
    assert_eq!(backup_to_drop(&types, &vec![true, true]), Some(0));
    let types = vec![WeaponType::Shotgun, WeaponType::AutoLaser, WeaponType::BackupLaser];
    assert_eq!(backup_to_drop(&types, &vec![false, true, true]), Some(2));
}

#[test]
fn the_backup_laser_stays_while_nothing_else_can_fire() {
    let types = vec![WeaponType::BackupLaser, WeaponType::Shotgun, WeaponType::BurstLaser];
    assert_eq!(backup_to_drop(&types, &vec![true, false, false]), None);
    assert_eq!(backup_to_drop(&vec![WeaponType::BackupLaser], &vec![true]), None);
}

#[test]
fn without_a_backup_laser_nothing_goes() {
    let types = vec![WeaponType::Shotgun, WeaponType::BurstLaser];
    assert_eq!(backup_to_drop(&types, &vec![true, true]), None);
    assert_eq!(backup_to_drop(&Vec::new(), &Vec::new()), None);
}

#[test]
fn of_two_backup_lasers_the_first_goes() {
    let types = vec![WeaponType::Shotgun, WeaponType::BackupLaser, WeaponType::BackupLaser];
    assert_eq!(backup_to_drop(&types, &vec![true, true, true]), Some(1));
}
