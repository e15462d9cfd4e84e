//! The player's weapons: what each is called, and when and what each fires.
//!
//! A weapon is a small state machine over the fire key. Its state is a cooldown and, for
//! the burst laser, the shots of the burst so far; most weapons have neither.

use crate::actor::fits;
use crate::command::Command;
use crate::input::KeyState;
use crate::rect::IntRect;
use vstd::prelude::*;

verus! {

#[derive(Copy, Clone, PartialEq, Eq, Hash, Debug, Structural)]
pub enum WeaponType {
    BackupLaser,
    BurstLaser,
    AutoLaser,
    DoubleLaser,
    Shotgun,
    SuperShotgun,
    ReverseShotgun,
}

/// The speed of a projectile, in units per tick, and the recoil of the shot.
pub const SHOT_SPEED: i32 = 10;

/// The ticks that the auto-laser rests after a shot.
pub const AUTO_DELAY: u8 = 3;

/// The ticks that the burst laser rests after a shot.
pub const BURST_DELAY: u8 = 2;

/// The shots in one burst.
pub const BURST_SHOTS: u8 = 3;

/// The extents of a projectile.
pub const SHOT_WIDTH: i32 = 8;

pub const SHOT_HEIGHT: i32 = 5;

pub fn weapon_name(typ: WeaponType) -> (name: &'static str)
    ensures
        name@ == (match typ {
            WeaponType::BackupLaser => "backup laser"@,
            WeaponType::AutoLaser => "auto-laser"@,
            WeaponType::BurstLaser => "burst laser"@,
            WeaponType::DoubleLaser => "double laser"@,
            WeaponType::Shotgun => "shotgun"@,
            WeaponType::SuperShotgun => "super shotgun"@,
            WeaponType::ReverseShotgun => "reverse shotgun"@,
        }),
{
    match typ {
        WeaponType::BackupLaser => "backup laser",
        WeaponType::AutoLaser => "auto-laser",
        WeaponType::BurstLaser => "burst laser",
        WeaponType::DoubleLaser => "double laser",
        WeaponType::Shotgun => "shotgun",
        WeaponType::SuperShotgun => "super shotgun",
        WeaponType::ReverseShotgun => "reverse shotgun",
    }
}

/// The name with its article, as in "picked up ...". The backup laser is never picked up
/// and has no such name.
pub fn weapon_name_indef(typ: WeaponType) -> (name: &'static str)
    requires
        typ != WeaponType::BackupLaser,
    ensures
        name@ == (match typ {
            WeaponType::AutoLaser => "an auto-laser"@,
            WeaponType::BurstLaser => "a burst laser"@,
            WeaponType::DoubleLaser => "a double laser"@,
            WeaponType::Shotgun => "a shotgun"@,
            WeaponType::SuperShotgun => "a super shotgun"@,
            _ => "the reverse shotgun"@,
        }),
{
    match typ {
        WeaponType::AutoLaser => "an auto-laser",
        WeaponType::BurstLaser => "a burst laser",
        WeaponType::DoubleLaser => "a double laser",
        WeaponType::Shotgun => "a shotgun",
        WeaponType::SuperShotgun => "a super shotgun",
        _ => "the reverse shotgun",
    }
}

/// The name with its article; `None` for the backup laser, which has none.
pub fn checked_weapon_name_indef(typ: WeaponType) -> (name: Option<&'static str>)
    ensures
        name is None <==> typ == WeaponType::BackupLaser,
        name matches Some(text) ==> text@ == (match typ {
            WeaponType::AutoLaser => "an auto-laser"@,
            WeaponType::BurstLaser => "a burst laser"@,
            WeaponType::DoubleLaser => "a double laser"@,
            WeaponType::Shotgun => "a shotgun"@,
            WeaponType::SuperShotgun => "a super shotgun"@,
            _ => "the reverse shotgun"@,
        }),
{
    match typ {
        WeaponType::BackupLaser => None,
        _ => Some(weapon_name_indef(typ)),
    }
}

/// The frame of the weapon sheet that shows the weapon.
pub fn weapon_sprite_frame(typ: WeaponType) -> (frame: usize)
    ensures
        frame == (match typ {
            WeaponType::BackupLaser => 0usize,
            WeaponType::AutoLaser => 2usize,
            WeaponType::BurstLaser => 1usize,
            WeaponType::DoubleLaser => 7usize,
            WeaponType::Shotgun => 3usize,
            WeaponType::SuperShotgun => 4usize,
            WeaponType::ReverseShotgun => 5usize,
        }),
{
    match typ {
        WeaponType::BackupLaser => 0,
        WeaponType::AutoLaser => 2,
        WeaponType::BurstLaser => 1,
        WeaponType::DoubleLaser => 7,
        WeaponType::Shotgun => 3,
        WeaponType::SuperShotgun => 4,
        WeaponType::ReverseShotgun => 5,
    }
}

/// How far below the hand the weapon is drawn, in whole units.
pub fn weapon_v_offset(typ: WeaponType) -> (offset: i32)
    ensures
        offset == (match typ {
            WeaponType::BackupLaser => 4i32,
            WeaponType::AutoLaser => 3i32,
            WeaponType::BurstLaser => 3i32,
            WeaponType::DoubleLaser => 2i32,
            WeaponType::Shotgun => 4i32,
            WeaponType::SuperShotgun => 3i32,
            WeaponType::ReverseShotgun => 1i32,
        }),
{
    match typ {
        WeaponType::BackupLaser => 4,
        WeaponType::AutoLaser => 3,
        WeaponType::BurstLaser => 3,
        WeaponType::DoubleLaser => 2,
        WeaponType::Shotgun => 4,
        WeaponType::SuperShotgun => 3,
        WeaponType::ReverseShotgun => 1,
    }
}

/// The direction in which a weapon of type `typ` shoots when the player faces `facing`: the
/// reverse shotgun shoots backwards.
pub open spec fn aim(typ: WeaponType, facing: i8) -> int {
    if typ == WeaponType::ReverseShotgun {
        -(facing as int)
    } else {
        facing as int
    }
}

/// The x of the projectiles of a shot: three units into the player, nine out along the aim.
pub open spec fn muzzle_x(typ: WeaponType, player: IntRect, facing: i8) -> int {
    player.x + 3 + aim(typ, facing) * 9
}

/// A projectile of a shot from `typ`, `drop` units below the top of the player.
pub open spec fn shot(typ: WeaponType, player: IntRect, facing: i8, drop: int) -> Command {
    Command::Projectile {
        rect: IntRect {
            x: muzzle_x(typ, player, facing) as i32,
            y: (player.y + drop) as i32,
            w: SHOT_WIDTH,
            h: SHOT_HEIGHT,
        },
        vx: (aim(typ, facing) * SHOT_SPEED) as i32,
    }
}

/// The projectiles of one shot: two for the double laser, one above the other, else one.
pub open spec fn volley(typ: WeaponType, player: IntRect, facing: i8) -> Seq<Command> {
    if typ == WeaponType::DoubleLaser {
        seq![shot(typ, player, facing, 8), shot(typ, player, facing, 14)]
    } else {
        seq![shot(typ, player, facing, 11)]
    }
}

/// What a shot adds to the horizontal velocity of the player: a push against the aim.
pub open spec fn recoil(typ: WeaponType, facing: i8) -> int {
    -aim(typ, facing) * SHOT_SPEED
}

/// The cooldown that is left once this tick has passed.
pub open spec fn cooled(delay: u8) -> int {
    if delay > 0 {
        delay - 1
    } else {
        0
    }
}

/// Whether a weapon of type `typ` with cooldown `delay` and `shots` fired in its burst
/// fires on `key`. The lasers that repeat fire while the key is down and the cooldown is
/// over, the burst laser only until its burst is full; every other weapon fires once for
/// each press.
pub open spec fn fires(typ: WeaponType, delay: u8, shots: u8, key: KeyState) -> bool {
    match typ {
        WeaponType::AutoLaser => key != KeyState::NotPressed && cooled(delay) == 0,
        WeaponType::BurstLaser => key != KeyState::NotPressed && cooled(delay) == 0 && shots
            < BURST_SHOTS,
        _ => key == KeyState::Pressed,
    }
}

/// The cooldown after the tick.
pub open spec fn next_delay(typ: WeaponType, delay: u8, shots: u8, key: KeyState) -> int {
    match typ {
        WeaponType::AutoLaser => if fires(typ, delay, shots, key) {
            AUTO_DELAY as int
        } else {
            cooled(delay)
        },
        WeaponType::BurstLaser => if fires(typ, delay, shots, key) {
            BURST_DELAY as int
        } else {
            cooled(delay)
        },
        _ => delay as int,
    }
}

/// The shots of the burst after the tick: one more after a shot, none once the key is up.
pub open spec fn next_shots(typ: WeaponType, delay: u8, shots: u8, key: KeyState) -> int {
    match typ {
        WeaponType::BurstLaser => if fires(typ, delay, shots, key) {
            shots + 1
        } else if key == KeyState::NotPressed {
            0
        } else {
            shots as int
        },
        _ => shots as int,
    }
}

/// How far below the top of the player the lowest projectile of a shot starts.
pub open spec fn lowest_drop(typ: WeaponType) -> int {
    if typ == WeaponType::DoubleLaser {
        14
    } else {
        11
    }
}

/// The corners of the projectiles of a shot from `typ`, and the hand from which they are
/// placed, fit the machine integers.
pub open spec fn in_reach(typ: WeaponType, player: IntRect, facing: i8) -> bool {
    &&& fits(player.x + 3)
    &&& fits(muzzle_x(typ, player, facing))
    &&& fits(player.y + lowest_drop(typ))
}

/// Whether a shot of a weapon of type `typ` from `player_rect` can be placed.
pub fn can_place_shot(typ: WeaponType, player_rect: &IntRect, facing: i8) -> (ok: bool)
    ensures
        ok == in_reach(typ, *player_rect, facing),
{
    let toward: i64 = match typ {
        WeaponType::ReverseShotgun => -(facing as i64),
        _ => facing as i64,
    };
    let drop: i64 = match typ {
        WeaponType::DoubleLaser => 14,
        _ => 11,
    };
    let hand: i64 = player_rect.x as i64 + 3;
    let out: i64 = hand + toward * 9;
    let low: i64 = player_rect.y as i64 + drop;
    hand <= i32::MAX as i64 && i32::MIN as i64 <= out && out <= i32::MAX as i64 && low
        <= i32::MAX as i64
}

/// A weapon in the player's hands.
pub trait Weapon {
    /// The type of the weapon.
    spec fn kind(&self) -> WeaponType;

    /// The ticks until the weapon can fire again.
    spec fn delay_left(&self) -> u8;

    /// The shots fired in the burst under way.
    spec fn shots_fired(&self) -> u8;

    fn get_type(&self) -> (typ: WeaponType)
        ensures
            typ == self.kind(),
    ;

    /// One tick with the fire key in `key_state`. Where the weapon fires, its projectiles
    /// are appended to `buffer` and the result is the recoil, to be added to the horizontal
    /// velocity of the player; where it does not, the result is `None`.
    fn update(&mut self, buffer: &mut Vec<Command>, player_rect: &IntRect, facing: i8, key_state: KeyState) -> (kick:
        Option<i32>)
        requires
            fires(old(self).kind(), old(self).delay_left(), old(self).shots_fired(), key_state)
                ==> in_reach(old(self).kind(), *player_rect, facing),
        ensures
            final(self).kind() == old(self).kind(),
            final(self).delay_left() == next_delay(
                old(self).kind(),
                old(self).delay_left(),
                old(self).shots_fired(),
                key_state,
            ),
            final(self).shots_fired() == next_shots(
                old(self).kind(),
                old(self).delay_left(),
                old(self).shots_fired(),
                key_state,
            ),
            fires(old(self).kind(), old(self).delay_left(), old(self).shots_fired(), key_state) ==> {
                &&& kick == Some(recoil(old(self).kind(), facing) as i32)
                &&& final(buffer)@ == old(buffer)@ + volley(old(self).kind(), *player_rect, facing)
            },
            !fires(old(self).kind(), old(self).delay_left(), old(self).shots_fired(), key_state) ==> {
                &&& kick is None
                &&& final(buffer)@ == old(buffer)@
            },
    ;
}

/// Appends the projectiles of one shot of a weapon of type `typ` and returns the recoil.
fn fire(typ: WeaponType, buffer: &mut Vec<Command>, player_rect: &IntRect, facing: i8) -> (kick: i32)
    requires
        in_reach(typ, *player_rect, facing),
    ensures
        kick == recoil(typ, facing),
        final(buffer)@ == old(buffer)@ + volley(typ, *player_rect, facing),
{
    let toward: i32 = match typ {
        WeaponType::ReverseShotgun => -(facing as i32),
        _ => facing as i32,
    };
    let new_x = player_rect.x + 3 + toward * 9;
    let ghost before = buffer@;
    match typ {
        WeaponType::DoubleLaser => {
            let rect = IntRect::new(new_x, player_rect.y + 8, SHOT_WIDTH, SHOT_HEIGHT);
            buffer.push(Command::Projectile { rect, vx: toward * SHOT_SPEED });
            let rect = IntRect::new(new_x, player_rect.y + 14, SHOT_WIDTH, SHOT_HEIGHT);
            buffer.push(Command::Projectile { rect, vx: toward * SHOT_SPEED });
        },
        _ => {
            let rect = IntRect::new(new_x, player_rect.y + 11, SHOT_WIDTH, SHOT_HEIGHT);
            buffer.push(Command::Projectile { rect, vx: toward * SHOT_SPEED });
        },
    }
    assert(buffer@ =~= before + volley(typ, *player_rect, facing));
    -toward * SHOT_SPEED
}

pub struct BackupLaser {}

impl BackupLaser {
    pub fn new() -> (w: BackupLaser) {
        Self {  }
    }
}

impl Weapon for BackupLaser {
    open spec fn kind(&self) -> WeaponType {
        WeaponType::BackupLaser
    }

    open spec fn delay_left(&self) -> u8 {
        0
    }

    open spec fn shots_fired(&self) -> u8 {
        0
    }

    fn get_type(&self) -> (typ: WeaponType) {
        WeaponType::BackupLaser
    }

    fn update(&mut self, buffer: &mut Vec<Command>, player_rect: &IntRect, facing: i8, key_state: KeyState) -> (kick:
        Option<i32>) {
        if key_state == KeyState::Pressed {
            return Some(fire(WeaponType::BackupLaser, buffer, player_rect, facing));
        }
        None
    }
}

pub struct Shotgun {}

impl Shotgun {
    pub fn new() -> (w: Shotgun) {
        Self {  }
    }
}

impl Weapon for Shotgun {
    open spec fn kind(&self) -> WeaponType {
        WeaponType::Shotgun
    }

    open spec fn delay_left(&self) -> u8 {
        0
    }

    open spec fn shots_fired(&self) -> u8 {
        0
    }

    fn get_type(&self) -> (typ: WeaponType) {
        WeaponType::Shotgun
    }

    fn update(&mut self, buffer: &mut Vec<Command>, player_rect: &IntRect, facing: i8, key_state: KeyState) -> (kick:
        Option<i32>) {
        if key_state == KeyState::Pressed {
            return Some(fire(WeaponType::Shotgun, buffer, player_rect, facing));
        }
        None
    }
}

pub struct SuperShotgun {}

impl SuperShotgun {
    pub fn new() -> (w: SuperShotgun) {
        Self {  }
    }
}

impl Weapon for SuperShotgun {
    open spec fn kind(&self) -> WeaponType {
        WeaponType::SuperShotgun
    }

    open spec fn delay_left(&self) -> u8 {
        0
    }

    open spec fn shots_fired(&self) -> u8 {
        0
    }

    fn get_type(&self) -> (typ: WeaponType) {
        WeaponType::SuperShotgun
    }

    fn update(&mut self, buffer: &mut Vec<Command>, player_rect: &IntRect, facing: i8, key_state: KeyState) -> (kick:
        Option<i32>) {
        if key_state == KeyState::Pressed {
            return Some(fire(WeaponType::SuperShotgun, buffer, player_rect, facing));
        }
        None
    }
}

pub struct ReverseShotgun {}

impl ReverseShotgun {
    pub fn new() -> (w: ReverseShotgun) {
        Self {  }
    }
}

impl Weapon for ReverseShotgun {
    open spec fn kind(&self) -> WeaponType {
        WeaponType::ReverseShotgun
    }

    open spec fn delay_left(&self) -> u8 {
        0
    }

    open spec fn shots_fired(&self) -> u8 {
        0
    }

    fn get_type(&self) -> (typ: WeaponType) {
        WeaponType::ReverseShotgun
    }

    fn update(&mut self, buffer: &mut Vec<Command>, player_rect: &IntRect, facing: i8, key_state: KeyState) -> (kick:
        Option<i32>) {
        if key_state == KeyState::Pressed {
            return Some(fire(WeaponType::ReverseShotgun, buffer, player_rect, facing));
        }
        None
    }
}

pub struct AutoLaser {
    delay: u8,
}

impl AutoLaser {
    pub fn new() -> (w: AutoLaser)
        ensures
            w.delay_left() == 0,
    {
        Self { delay: 0 }
    }
}

impl Weapon for AutoLaser {
    open spec fn kind(&self) -> WeaponType {
        WeaponType::AutoLaser
    }

    closed spec fn delay_left(&self) -> u8 {
        self.delay
    }

    open spec fn shots_fired(&self) -> u8 {
        0
    }

    fn get_type(&self) -> (typ: WeaponType) {
        WeaponType::AutoLaser
    }

    fn update(&mut self, buffer: &mut Vec<Command>, player_rect: &IntRect, facing: i8, key_state: KeyState) -> (kick:
        Option<i32>) {
        if self.delay > 0 {
            self.delay = self.delay - 1;
        }
        if key_state != KeyState::NotPressed && self.delay == 0 {
            let kick = fire(WeaponType::AutoLaser, buffer, player_rect, facing);
            self.delay = AUTO_DELAY;
            return Some(kick);
        }
        None
    }
}

pub struct BurstLaser {
    delay: u8,
    shots: u8,
}

impl BurstLaser {
    pub fn new() -> (w: BurstLaser)
        ensures
            w.delay_left() == 0,
            w.shots_fired() == 0,
    {
        Self { delay: 0, shots: 0 }
    }
}

impl Weapon for BurstLaser {
    open spec fn kind(&self) -> WeaponType {
        WeaponType::BurstLaser
    }

    closed spec fn delay_left(&self) -> u8 {
        self.delay
    }

    closed spec fn shots_fired(&self) -> u8 {
        self.shots
    }

    fn get_type(&self) -> (typ: WeaponType) {
        WeaponType::BurstLaser
    }

    fn update(&mut self, buffer: &mut Vec<Command>, player_rect: &IntRect, facing: i8, key_state: KeyState) -> (kick:
        Option<i32>) {
        if self.delay > 0 {
            self.delay = self.delay - 1;
        }
        if key_state != KeyState::NotPressed && self.delay == 0 && self.shots < BURST_SHOTS {
            let kick = fire(WeaponType::BurstLaser, buffer, player_rect, facing);
            self.delay = BURST_DELAY;
            self.shots = self.shots + 1;
            return Some(kick);
        }
        if key_state == KeyState::NotPressed {
            self.shots = 0;
        }
        None
    }
}

pub struct DoubleLaser {}

impl DoubleLaser {
    pub fn new() -> (w: DoubleLaser) {
        Self {  }
    }
}

impl Weapon for DoubleLaser {
    open spec fn kind(&self) -> WeaponType {
        WeaponType::DoubleLaser
    }

    open spec fn delay_left(&self) -> u8 {
        0
    }

    open spec fn shots_fired(&self) -> u8 {
        0
    }

    fn get_type(&self) -> (typ: WeaponType) {
        WeaponType::DoubleLaser
    }

    fn update(&mut self, buffer: &mut Vec<Command>, player_rect: &IntRect, facing: i8, key_state: KeyState) -> (kick:
        Option<i32>) {
        if key_state == KeyState::Pressed {
            return Some(fire(WeaponType::DoubleLaser, buffer, player_rect, facing));
        }
        None
    }
}

/// Any one of the weapons: what the player's inventory holds.
pub enum AnyWeapon {
    BackupLaser(BackupLaser),
    BurstLaser(BurstLaser),
    AutoLaser(AutoLaser),
    DoubleLaser(DoubleLaser),
    Shotgun(Shotgun),
    SuperShotgun(SuperShotgun),
    ReverseShotgun(ReverseShotgun),
}

impl Weapon for AnyWeapon {
    open spec fn kind(&self) -> WeaponType {
        match self {
            AnyWeapon::BackupLaser(w) => w.kind(),
            AnyWeapon::BurstLaser(w) => w.kind(),
            AnyWeapon::AutoLaser(w) => w.kind(),
            AnyWeapon::DoubleLaser(w) => w.kind(),
            AnyWeapon::Shotgun(w) => w.kind(),
            AnyWeapon::SuperShotgun(w) => w.kind(),
            AnyWeapon::ReverseShotgun(w) => w.kind(),
        }
    }

    open spec fn delay_left(&self) -> u8 {
        match self {
            AnyWeapon::BurstLaser(w) => w.delay_left(),
            AnyWeapon::AutoLaser(w) => w.delay_left(),
            _ => 0,
        }
    }

    open spec fn shots_fired(&self) -> u8 {
        match self {
            AnyWeapon::BurstLaser(w) => w.shots_fired(),
            _ => 0,
        }
    }

    fn get_type(&self) -> (typ: WeaponType) {
        match self {
            AnyWeapon::BackupLaser(w) => w.get_type(),
            AnyWeapon::BurstLaser(w) => w.get_type(),
            AnyWeapon::AutoLaser(w) => w.get_type(),
            AnyWeapon::DoubleLaser(w) => w.get_type(),
            AnyWeapon::Shotgun(w) => w.get_type(),
            AnyWeapon::SuperShotgun(w) => w.get_type(),
            AnyWeapon::ReverseShotgun(w) => w.get_type(),
        }
    }

    fn update(&mut self, buffer: &mut Vec<Command>, player_rect: &IntRect, facing: i8, key_state: KeyState) -> (kick:
        Option<i32>) {
        match self {
            AnyWeapon::BackupLaser(w) => w.update(buffer, player_rect, facing, key_state),
            AnyWeapon::BurstLaser(w) => w.update(buffer, player_rect, facing, key_state),
            AnyWeapon::AutoLaser(w) => w.update(buffer, player_rect, facing, key_state),
            AnyWeapon::DoubleLaser(w) => w.update(buffer, player_rect, facing, key_state),
            AnyWeapon::Shotgun(w) => w.update(buffer, player_rect, facing, key_state),
            AnyWeapon::SuperShotgun(w) => w.update(buffer, player_rect, facing, key_state),
            AnyWeapon::ReverseShotgun(w) => w.update(buffer, player_rect, facing, key_state),
        }
    }
}

/// A new weapon of the given type, ready to fire.
pub fn new_weapon(typ: WeaponType) -> (w: AnyWeapon)
    ensures
        w.kind() == typ,
        w.delay_left() == 0,
        w.shots_fired() == 0,
{
    match typ {
        WeaponType::BackupLaser => AnyWeapon::BackupLaser(BackupLaser::new()),
        WeaponType::AutoLaser => AnyWeapon::AutoLaser(AutoLaser::new()),
        WeaponType::BurstLaser => AnyWeapon::BurstLaser(BurstLaser::new()),
        WeaponType::DoubleLaser => AnyWeapon::DoubleLaser(DoubleLaser::new()),
        WeaponType::Shotgun => AnyWeapon::Shotgun(Shotgun::new()),
        WeaponType::SuperShotgun => AnyWeapon::SuperShotgun(SuperShotgun::new()),
        WeaponType::ReverseShotgun => AnyWeapon::ReverseShotgun(ReverseShotgun::new()),
    }
}

} // verus!
