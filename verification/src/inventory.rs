//! The rules by which ammunition is taken up: how far a stock fills, and when the backup
//! laser, which is carried only for want of anything better, leaves the inventory.

use crate::weapon::WeaponType;
use vstd::prelude::*;

verus! {

/// The stock of ammunition after `amt` was added to `current`, which holds no more than
/// `max`.
pub open spec fn topped_up(current: u8, amt: u8, max: u8) -> int {
    if current + amt <= max {
        current + amt
    } else {
        max as int
    }
}

/// Adds `amt` to a stock of ammunition, up to the most that can be carried.
pub fn top_up(current: u8, amt: u8, max: u8) -> (stock: u8)
    requires
        current + amt <= u8::MAX,
    ensures
        stock == topped_up(current, amt, max),
{
    let sum = current + amt;
    if sum <= max {
        sum
    } else {
        max
    }
}

/// `n` is the place of the first backup laser among `types`.
pub open spec fn is_first_backup(types: Seq<WeaponType>, n: int) -> bool {
    &&& 0 <= n < types.len()
    &&& types[n] == WeaponType::BackupLaser
    &&& forall|i: int| 0 <= i < n ==> types[i] != WeaponType::BackupLaser
}

/// Some weapon other than the backup laser can be fired with the ammunition at hand.
pub open spec fn has_better(types: Seq<WeaponType>, fireable: Seq<bool>) -> bool {
    exists|i: int|
        0 <= i < types.len() && #[trigger] fireable[i] && types[i] != WeaponType::BackupLaser
}

/// Which weapon is to leave the inventory now that ammunition was taken up: the first
/// backup laser, if there is one and any other weapon can be fired. `types` holds the
/// types of the weapons carried, in their order, and `fireable` says of each whether the
/// ammunition at hand suffices for a shot. Where the result is the first place, the weapon
/// in hand is gone and another is to be selected.
pub fn backup_to_drop(types: &Vec<WeaponType>, fireable: &Vec<bool>) -> (drop: Option<usize>)
    requires
        types@.len() == fireable@.len(),
    ensures
        match drop {
            Some(n) => is_first_backup(types@, n as int) && has_better(types@, fireable@),
            None => !has_better(types@, fireable@) || forall|i: int|
                0 <= i < types@.len() ==> types@[i] != WeaponType::BackupLaser,
        },
{
    let mut n: usize = 0;
    while n < types.len() && types[n] != WeaponType::BackupLaser
        invariant
            n <= types@.len(),
            forall|i: int| 0 <= i < n ==> types@[i] != WeaponType::BackupLaser,
        decreases types@.len() - n,
    {
        n = n + 1;
    }
    if n == types.len() {
        return None;
    }
    let mut i: usize = 0;
    while i < types.len()
        invariant
            i <= types@.len(),
            types@.len() == fireable@.len(),
            is_first_backup(types@, n as int),
            forall|j: int|
                0 <= j < i ==> !(#[trigger] fireable@[j] && types@[j] != WeaponType::BackupLaser),
        decreases types@.len() - i,
    {
        if fireable[i] && types[i] != WeaponType::BackupLaser {
            return Some(n);
        }
        i = i + 1;
    }
    None
}

} // verus!
