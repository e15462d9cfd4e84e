//! Enemies: their kinds with the constants that tune them, the hit points and the
//! contact-damage marker they carry, and the state machine that steers them.

use crate::rect::IntRect;
use crate::rng::roll;
use vstd::prelude::*;

verus! {

/// The horizontal speed at which an enemy walks, in units per tick.
pub const ENEMY_SPEED: i32 = 5;

/// The same speed to the left.
pub const ENEMY_BACK: i32 = -5;

/// Out of a hundred ticks, how many re-roll the direction.
pub const REROLL_CHANCE: u32 = 10;

/// Out of a hundred re-rolls, how many steer towards the player.
pub const STEER_CHANCE: u32 = 70;

/// The vertical velocity with which a dog jumps; upwards is negative.
pub const DOG_JUMP: i32 = -6;

/// The vertical velocity with which a jumpy dog jumps.
pub const JUMPY_DOG_JUMP: i32 = -8;

/// The width of every enemy.
pub const ENEMY_WIDTH: i32 = 24;

/// The hit points with which an enemy starts.
pub const ENEMY_HP: u16 = 3;

#[derive(PartialEq, Eq, Copy, Clone, Debug, Structural)]
pub enum EnemyKind {
    Dog,
    JumpyDog,
    SpiderParrot,
}

impl EnemyKind {
    /// Out of a hundred grounded ticks, how many start a jump.
    pub open spec fn jump_chance(self) -> u32 {
        match self {
            EnemyKind::Dog => 45,
            EnemyKind::JumpyDog => 20,
            EnemyKind::SpiderParrot => 0,
        }
    }

    /// The vertical velocity with which a jump starts; upwards is negative.
    pub open spec fn jump_speed(self) -> i32 {
        match self {
            EnemyKind::Dog => DOG_JUMP,
            EnemyKind::JumpyDog => JUMPY_DOG_JUMP,
            EnemyKind::SpiderParrot => 0,
        }
    }

    /// The height of an enemy of this kind.
    pub open spec fn body_height(self) -> i32 {
        match self {
            EnemyKind::SpiderParrot => 24,
            _ => 16,
        }
    }

    /// The chance of a jump on a grounded tick, in percent. The dog makes many small jumps,
    /// the spider parrot none.
    pub fn jump_prob(&self) -> (p: u32)
        ensures
            p == self.jump_chance(),
            p <= 100,
    {
        match self {
            EnemyKind::Dog => 45,
            EnemyKind::JumpyDog => 20,
            EnemyKind::SpiderParrot => 0,
        }
    }

    /// The vertical velocity that a jump sets.
    pub fn jump_vel(&self) -> (v: i32)
        ensures
            v == self.jump_speed(),
    {
        match self {
            EnemyKind::Dog => DOG_JUMP,
            EnemyKind::JumpyDog => JUMPY_DOG_JUMP,
            EnemyKind::SpiderParrot => 0,
        }
    }

    /// The height of the rectangle of an enemy of this kind.
    pub fn height(&self) -> (h: i32)
        ensures
            h == self.body_height(),
    {
        match self {
            EnemyKind::SpiderParrot => 24,
            _ => 16,
        }
    }

    /// The notice that reports the destruction of an enemy of this kind.
    pub fn kill_message(&self) -> (text: &'static str)
        ensures
            text@ == (match self {
                EnemyKind::Dog | EnemyKind::JumpyDog => "Destroyed a hound."@,
                EnemyKind::SpiderParrot => "Destroyed a scuttler."@,
            }),
    {
        match self {
            EnemyKind::Dog | EnemyKind::JumpyDog => "Destroyed a hound.",
            EnemyKind::SpiderParrot => "Destroyed a scuttler.",
        }
    }
}

/// A pool of hit points. An entity with none left can no longer be hit.
#[derive(PartialEq, Eq, Copy, Clone, Debug, Structural)]
pub struct EnemyHittable {
    pub hp: u16,
}

impl EnemyHittable {
    pub fn new(hp: u16) -> (h: EnemyHittable)
        ensures
            h.hp == hp,
    {
        Self { hp }
    }
}

/// Marks an entity that hurts the player on touch.
#[derive(PartialEq, Eq, Copy, Clone, Debug, Structural)]
pub struct EnemyContactDamage {}

impl EnemyContactDamage {
    pub fn new() -> (d: EnemyContactDamage)
        ensures
            d == (EnemyContactDamage {  }),
    {
        Self {  }
    }
}

/// The steering state of one enemy.
#[derive(PartialEq, Eq, Copy, Clone, Debug, Structural)]
pub struct Enemy {
    pub kind: EnemyKind,
    /// The horizontal push per tick: `-ENEMY_SPEED`, zero or `ENEMY_SPEED`.
    pub dir: i32,
    /// The y at which the jump under way began; `None` when no jump is under way.
    pub jump_y: Option<i32>,
}

/// The random draws that one tick of one enemy may consume.
#[derive(PartialEq, Eq, Copy, Clone, Debug, Structural)]
pub struct Rolls {
    /// Decides, out of a hundred, whether the direction is re-rolled.
    pub reroll: u32,
    /// Decides, out of a hundred, whether a re-roll steers towards the player.
    pub steer: u32,
    /// The side of a re-roll that does not steer: zero is left, one is right.
    pub side: u32,
    /// Decides, out of a hundred, whether a grounded enemy jumps.
    pub jump: u32,
}

impl Rolls {
    /// Each draw lies within its range.
    pub open spec fn valid(self) -> bool {
        self.reroll < 100 && self.steer < 100 && self.side < 2 && self.jump < 100
    }
}

/// What one tick asks of the body of the enemy.
#[derive(PartialEq, Eq, Copy, Clone, Debug, Structural)]
pub struct EnemyAction {
    /// To be added to the horizontal velocity.
    pub push: i32,
    /// The vertical velocity to set, where a jump starts.
    pub jump: Option<i32>,
}

/// The direction taken by a re-roll: towards the player where the draw says so and the
/// player is there, a player straight above or below counting as to the right; else the
/// side drawn.
pub open spec fn rerolled_dir(rect: IntRect, player_x: Option<i64>, rolls: Rolls) -> i32 {
    if player_x is Some && rolls.steer < STEER_CHANCE {
        if player_x->0 >= rect.center_x() {
            ENEMY_SPEED
        } else {
            ENEMY_BACK
        }
    } else if rolls.side >= 1 {
        ENEMY_SPEED
    } else {
        ENEMY_BACK
    }
}

/// The direction after the re-roll stage. The re-roll is only open to an enemy that is
/// grounded or in a jump.
pub open spec fn steered_dir(e: Enemy, grounded: bool, rect: IntRect, player_x: Option<i64>, rolls: Rolls) -> i32 {
    if (grounded || e.jump_y is Some) && rolls.reroll < REROLL_CHANCE {
        rerolled_dir(rect, player_x, rolls)
    } else {
        e.dir
    }
}

/// An airborne enemy has lost its ground: it is in no jump, or it is above the y at which
/// its jump began.
pub open spec fn ground_lost(e: Enemy, rect: IntRect) -> bool {
    match e.jump_y {
        None => true,
        Some(y0) => rect.y < y0,
    }
}

/// One tick of the state machine: the new state and what it asks of the body.
pub open spec fn stepped(e: Enemy, grounded: bool, rect: IntRect, player_x: Option<i64>, rolls: Rolls) -> (
    Enemy,
    EnemyAction,
) {
    let dir = steered_dir(e, grounded, rect, player_x, rolls);
    if grounded {
        if rolls.jump < e.kind.jump_chance() {
            (
                Enemy { kind: e.kind, dir, jump_y: Some(rect.y) },
                EnemyAction { push: dir, jump: Some(e.kind.jump_speed()) },
            )
        } else {
            (Enemy { kind: e.kind, dir, jump_y: None }, EnemyAction { push: dir, jump: None })
        }
    } else if ground_lost(e, rect) {
        (Enemy { kind: e.kind, dir: 0, jump_y: e.jump_y }, EnemyAction { push: 0, jump: None })
    } else {
        (Enemy { kind: e.kind, dir, jump_y: e.jump_y }, EnemyAction { push: dir, jump: None })
    }
}

impl Enemy {
    /// An enemy at rest: no direction, no jump under way.
    pub fn new(kind: EnemyKind) -> (e: Enemy)
        ensures
            e == (Enemy { kind, dir: 0, jump_y: None }),
    {
        Self { kind, dir: 0, jump_y: None }
    }

    /// One tick of the state machine with the draws given: re-rolls the direction, decides
    /// on a jump where the enemy is grounded, and stops the drift of an airborne enemy that
    /// has lost its ground.
    pub fn step(&mut self, grounded: bool, rect: &IntRect, player_x: Option<i64>, rolls: &Rolls) -> (action:
        EnemyAction)
        ensures
            (*final(self), action) == stepped(*old(self), grounded, *rect, player_x, *rolls),
    {
        if (grounded || self.jump_y.is_some()) && rolls.reroll < REROLL_CHANCE {
            let towards_player = match player_x {
                Some(px) => rolls.steer < STEER_CHANCE,
                None => false,
            };
            if towards_player {
                let px = player_x.unwrap();
                if px >= rect.center_x_wide() {
                    self.dir = ENEMY_SPEED;
                } else {
                    self.dir = ENEMY_BACK;
                }
            } else if rolls.side >= 1 {
                self.dir = ENEMY_SPEED;
            } else {
                self.dir = ENEMY_BACK;
            }
        }
        let mut jump: Option<i32> = None;
        if grounded {
            if rolls.jump < self.kind.jump_prob() {
                jump = Some(self.kind.jump_vel());
                self.jump_y = Some(rect.y);
            } else {
                self.jump_y = None;
            }
        } else {
            let lost = match self.jump_y {
                None => true,
                Some(y0) => rect.y < y0,
            };
            if lost {
                self.dir = 0;
            }
        }
        EnemyAction { push: self.dir, jump }
    }

    /// One tick of the state machine, with the draws taken from the random source as the
    /// tick comes to need them: the first only where a re-roll is open, the steering only for
    /// a re-roll with a player there, the side only for a re-roll that does not steer, the
    /// jump only on the ground.
    pub fn update(&mut self, grounded: bool, rect: &IntRect, player_x: Option<i64>) -> (action:
        EnemyAction)
        ensures
            exists|rolls: Rolls|
                rolls.valid() && (*final(self), action) == #[trigger] stepped(
                    *old(self),
                    grounded,
                    *rect,
                    player_x,
                    rolls,
                ),
            final(self).kind == old(self).kind,
            action.push == final(self).dir,
            !grounded ==> action.jump is None && final(self).jump_y == old(self).jump_y,
            !grounded && ground_lost(*old(self), *rect) ==> final(self).dir == 0,
            old(self).kind == EnemyKind::SpiderParrot ==> action.jump is None,
    {
        let open = grounded || self.jump_y.is_some();
        let reroll: u32 = if open {
            roll(100)
        } else {
            0
        };
        let rerolls = open && reroll < REROLL_CHANCE;
        let steer: u32 = if rerolls && player_x.is_some() {
            roll(100)
        } else {
            0
        };
        let steers = rerolls && player_x.is_some() && steer < STEER_CHANCE;
        let side: u32 = if rerolls && !steers {
            roll(2)
        } else {
            0
        };
        let jump: u32 = if grounded {
            roll(100)
        } else {
            0
        };
        let rolls = Rolls { reroll, steer, side, jump };
        self.step(grounded, rect, player_x, &rolls)
    }
}

/// The entities that a call of `add_enemy` asks to be spawned together.
#[derive(PartialEq, Eq, Copy, Clone, Debug, Structural)]
pub struct EnemySpawn {
    pub rect: IntRect,
    pub enemy: Enemy,
    pub hittable: EnemyHittable,
    pub damage: EnemyContactDamage,
}

/// The components of a new enemy of `kind` that stands with the middle of its feet at
/// `(x, y)`: its rectangle, its steering state at rest, full hit points and the
/// contact-damage marker.
pub fn add_enemy(kind: EnemyKind, x: i32, y: i32) -> (spawn: EnemySpawn)
    requires
        i32::MIN <= x - ENEMY_WIDTH / 2,
        i32::MIN <= y - kind.body_height(),
    ensures
        spawn.rect == (IntRect {
            x: (x - ENEMY_WIDTH / 2) as i32,
            y: (y - kind.body_height()) as i32,
            w: ENEMY_WIDTH,
            h: kind.body_height(),
        }),
        spawn.enemy == (Enemy { kind, dir: 0, jump_y: None }),
        spawn.hittable.hp == ENEMY_HP,
{
    let h = kind.height();
    let rect = IntRect::new(x - ENEMY_WIDTH / 2, y - h, ENEMY_WIDTH, h);
    EnemySpawn {
        rect,
        enemy: Enemy::new(kind),
        hittable: EnemyHittable::new(ENEMY_HP),
        damage: EnemyContactDamage::new(),
    }
}

/// How many of the first `n` rectangles overlap `player`.
pub open spec fn touching(damagers: Seq<IntRect>, player: IntRect, n: int) -> nat
    decreases n,
{
    if n <= 0 {
        0
    } else {
        touching(damagers, player, n - 1) + if damagers[n - 1].overlaps(player) {
            1nat
        } else {
            0nat
        }
    }
}

/// The contact-damage pass: how many of the damaging rectangles overlap the player's, each
/// of which hurts the player once.
pub fn contact_hits(damagers: &Vec<IntRect>, player: &IntRect) -> (hits: usize)
    ensures
        hits == touching(damagers@, *player, damagers@.len() as int),
{
    let mut hits: usize = 0;
    let mut i: usize = 0;
    while i < damagers.len()
        invariant
            i <= damagers.len(),
            hits == touching(damagers@, *player, i as int),
            hits <= i,
        decreases damagers.len() - i,
    {
        if damagers[i].intersects(player) {
            hits = hits + 1;
        }
        i = i + 1;
    }
    hits
}

/// An airborne enemy that is above the y at which its jump began stops drifting, whatever
/// was drawn: its direction is zero after the tick, and it pushes nothing.
pub proof fn lemma_ground_loss_stops_drift(e: Enemy, rect: IntRect, player_x: Option<i64>, rolls: Rolls)
    requires
        e.jump_y is Some,
        rect.y < e.jump_y->0,
    ensures
        stepped(e, false, rect, player_x, rolls).0.dir == 0,
        stepped(e, false, rect, player_x, rolls).1.push == 0,
        stepped(e, false, rect, player_x, rolls).1.jump is None,
{
}

/// An airborne enemy in no jump stops drifting as well.
pub proof fn lemma_fall_stops_drift(e: Enemy, rect: IntRect, player_x: Option<i64>, rolls: Rolls)
    requires
        e.jump_y is None,
    ensures
        stepped(e, false, rect, player_x, rolls).0.dir == 0,
        stepped(e, false, rect, player_x, rolls).1.push == 0,
{
}

/// The spider parrot never jumps.
pub proof fn lemma_spider_parrot_never_jumps(e: Enemy, grounded: bool, rect: IntRect, player_x: Option<i64>, rolls: Rolls)
    requires
        e.kind == EnemyKind::SpiderParrot,
    ensures
        stepped(e, grounded, rect, player_x, rolls).1.jump is None,
{
}

/// The direction is always a walk to the left, none, or a walk to the right.
pub proof fn lemma_dir_is_a_walk(e: Enemy, grounded: bool, rect: IntRect, player_x: Option<i64>, rolls: Rolls)
    requires
        e.dir == ENEMY_BACK || e.dir == 0 || e.dir == ENEMY_SPEED,
    ensures
        ({
            let d = stepped(e, grounded, rect, player_x, rolls).0.dir;
            d == ENEMY_BACK || d == 0 || d == ENEMY_SPEED
        }),
{
}

} // verus!
