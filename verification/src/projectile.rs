//! Projectiles end on the first thing they hit. The caller accumulates the sub-unit
//! position and rounds it; what the rounded rectangle has hit, and where the effects go,
//! is decided here.

use crate::actor::{coordinate, Axis};
use crate::command::Command;
use crate::enemy::{EnemyHittable, EnemyKind};
use crate::rect::IntRect;
use crate::terrain::Terrain;
use crate::tiles::{any_collides, TileBody};
use vstd::prelude::*;

verus! {

/// How far below the top of the projectile its impact flash is centred.
pub const FLASH_DROP: i64 = 2;

/// How far `to` lies from `from`.
pub open spec fn distance(from: int, to: int) -> int {
    if to >= from {
        to - from
    } else {
        from - to
    }
}

/// The coordinate reached after `j` unit steps from `from` towards `to`.
pub open spec fn toward(from: int, to: int, j: int) -> int {
    if to >= from {
        from + j
    } else {
        from - j
    }
}

/// The rectangle `r` with its coordinate along `axis` set to `c`.
pub open spec fn placed(r: IntRect, axis: Axis, c: int) -> IntRect
    recommends
        i32::MIN <= c <= i32::MAX,
{
    match axis {
        Axis::Horizontal => IntRect { x: c as i32, y: r.y, w: r.w, h: r.h },
        Axis::Vertical => IntRect { x: r.x, y: c as i32, w: r.w, h: r.h },
    }
}

/// Walking `r` along `axis` towards coordinate `target`, one unit at a time: the first
/// coordinate after step `j` at which the rectangle is free of the tile grids, if the walk
/// finds one before it ends at `target`.
pub open spec fn first_free_toward(bodies: Seq<TileBody>, r: IntRect, axis: Axis, target: int, j: int) -> Option<
    int,
>
    decreases distance(coordinate(r, axis), target) - j,
{
    if j < 0 || j >= distance(coordinate(r, axis), target) {
        None
    } else {
        let c = toward(coordinate(r, axis), target, j + 1);
        if !any_collides(bodies, placed(r, axis, c)) {
            Some(c)
        } else {
            first_free_toward(bodies, r, axis, target, j + 1)
        }
    }
}

/// The axis along which the projectile came further; the horizontal where it came equally
/// far along both.
pub open spec fn dominant_axis(rect: IntRect, ox: int, oy: int) -> Axis {
    if distance(rect.x as int, ox) >= distance(rect.y as int, oy) {
        Axis::Horizontal
    } else {
        Axis::Vertical
    }
}

/// The other axis.
pub open spec fn across(axis: Axis) -> Axis {
    match axis {
        Axis::Horizontal => Axis::Vertical,
        Axis::Vertical => Axis::Horizontal,
    }
}

/// Of the prior position `(ox, oy)`, the coordinate along `axis`.
pub open spec fn origin_coord(axis: Axis, ox: int, oy: int) -> int {
    match axis {
        Axis::Horizontal => ox,
        Axis::Vertical => oy,
    }
}

/// Where a projectile that collided at `rect`, having come from `(ox, oy)`, last was free:
/// the first free position on the walk back from `rect`, along the dominant axis until it is
/// level with the prior position and then along the other; the end of that walk where no
/// position on it is free.
pub open spec fn contact_rect(bodies: Seq<TileBody>, rect: IntRect, ox: int, oy: int) -> IntRect {
    let first = dominant_axis(rect, ox, oy);
    let second = across(first);
    match first_free_toward(bodies, rect, first, origin_coord(first, ox, oy), 0) {
        Some(c) => placed(rect, first, c),
        None => {
            let level = placed(rect, first, origin_coord(first, ox, oy));
            match first_free_toward(bodies, level, second, origin_coord(second, ox, oy), 0) {
                Some(c) => placed(level, second, c),
                None => placed(level, second, origin_coord(second, ox, oy)),
            }
        },
    }
}

/// What `first_free_toward` finds is free, lies on the walk, and comes after positions that
/// all collide; where it finds nothing, every position on the walk collides.
pub proof fn lemma_first_free_is_first(bodies: Seq<TileBody>, r: IntRect, axis: Axis, target: int, j: int)
    requires
        0 <= j <= distance(coordinate(r, axis), target),
    ensures
        match first_free_toward(bodies, r, axis, target, j) {
            Some(c) => exists|n: int|
                j < n <= distance(coordinate(r, axis), target) && c == toward(coordinate(r, axis), target, n)
                    && !any_collides(bodies, placed(r, axis, c)) && forall|i: int|
                    j < i < n ==> any_collides(
                        bodies,
                        #[trigger] placed(r, axis, toward(coordinate(r, axis), target, i)),
                    ),
            None => forall|i: int|
                j < i <= distance(coordinate(r, axis), target) ==> any_collides(
                    bodies,
                    #[trigger] placed(r, axis, toward(coordinate(r, axis), target, i)),
                ),
        },
    decreases distance(coordinate(r, axis), target) - j,
{
    let from = coordinate(r, axis);
    if j < distance(from, target) {
        let c = toward(from, target, j + 1);
        if !any_collides(bodies, placed(r, axis, c)) {
            assert(j < j + 1 <= distance(from, target) && c == toward(from, target, j + 1));
        } else {
            lemma_first_free_is_first(bodies, r, axis, target, j + 1);
            match first_free_toward(bodies, r, axis, target, j + 1) {
                Some(found) => {
                    let n = choose|n: int|
                        j + 1 < n <= distance(from, target) && found == toward(from, target, n)
                            && !any_collides(bodies, placed(r, axis, found)) && forall|i: int|
                            j + 1 < i < n ==> any_collides(
                                bodies,
                                #[trigger] placed(r, axis, toward(from, target, i)),
                            );
                    assert forall|i: int| j < i < n implies any_collides(
                        bodies,
                        #[trigger] placed(r, axis, toward(from, target, i)),
                    ) by {
                        if i == j + 1 {
                        }
                    }
                    assert(j < n <= distance(from, target) && found == toward(from, target, n));
                },
                None => {
                    assert forall|i: int| j < i <= distance(from, target) implies any_collides(
                        bodies,
                        #[trigger] placed(r, axis, toward(from, target, i)),
                    ) by {
                        if i == j + 1 {
                        }
                    }
                },
            }
        }
    }
}

/// The contact found for a collision is free of the tile grids, unless the walk back found
/// no free position and ended at the prior position.
pub proof fn lemma_contact_is_free_or_prior(bodies: Seq<TileBody>, rect: IntRect, ox: i32, oy: i32)
    ensures
        ({
            let contact = contact_rect(bodies, rect, ox as int, oy as int);
            !any_collides(bodies, contact) || (contact.x == ox && contact.y == oy)
        }),
{
    let first = dominant_axis(rect, ox as int, oy as int);
    let second = across(first);
    let to_first = origin_coord(first, ox as int, oy as int);
    let to_second = origin_coord(second, ox as int, oy as int);
    lemma_first_free_is_first(bodies, rect, first, to_first, 0);
    if first_free_toward(bodies, rect, first, to_first, 0) is None {
        let level = placed(rect, first, to_first);
        lemma_first_free_is_first(bodies, level, second, to_second, 0);
    }
}

/// The rectangle with one coordinate replaced.
fn place(rect: &IntRect, axis: Axis, c: i32) -> (moved: IntRect)
    ensures
        moved == placed(*rect, axis, c as int),
{
    match axis {
        Axis::Horizontal => IntRect { x: c, y: rect.y, w: rect.w, h: rect.h },
        Axis::Vertical => IntRect { x: rect.x, y: c, w: rect.w, h: rect.h },
    }
}

/// Walks `start` along `axis` towards `target` one unit at a time and returns the first
/// coordinate at which it is free of the tile grids, if there is one on the way.
pub fn walk_back(terrain: &Terrain, start: &IntRect, axis: Axis, target: i32) -> (found: Option<i32>)
    ensures
        match found {
            Some(c) => first_free_toward(terrain@, *start, axis, target as int, 0) == Some(c as int),
            None => first_free_toward(terrain@, *start, axis, target as int, 0) is None,
        },
{
    let from: i32 = match axis {
        Axis::Horizontal => start.x,
        Axis::Vertical => start.y,
    };
    let forward = target >= from;
    let mut c: i32 = from;
    let ghost mut j: int = 0;
    while c != target
        invariant
            from == coordinate(*start, axis),
            forward == (target >= from),
            0 <= j <= distance(from as int, target as int),
            c == toward(from as int, target as int, j),
            first_free_toward(terrain@, *start, axis, target as int, 0) == first_free_toward(
                terrain@,
                *start,
                axis,
                target as int,
                j,
            ),
        decreases distance(from as int, target as int) - j,
    {
        if forward {
            c = c + 1;
        } else {
            c = c - 1;
        }
        let probe = place(start, axis, c);
        if !terrain.collide_any(&probe) {
            return Some(c);
        }
        proof {
            j = j + 1;
        }
    }
    None
}

/// Where to centre the effect of a collision at `rect`, of a projectile that came from
/// `(ox, oy)`: the position at which it last was free, found by walking back towards
/// `(ox, oy)`, first along the axis along which it came further.
pub fn find_collision_pos(terrain: &Terrain, ox: i32, oy: i32, rect: &IntRect) -> (pos: (i32, i32))
    ensures
        pos.0 == contact_rect(terrain@, *rect, ox as int, oy as int).x,
        pos.1 == contact_rect(terrain@, *rect, ox as int, oy as int).y,
{
    let far_x: i64 = if ox >= rect.x {
        ox as i64 - rect.x as i64
    } else {
        rect.x as i64 - ox as i64
    };
    let far_y: i64 = if oy >= rect.y {
        oy as i64 - rect.y as i64
    } else {
        rect.y as i64 - oy as i64
    };
    if far_x >= far_y {
        match walk_back(terrain, rect, Axis::Horizontal, ox) {
            Some(x) => (x, rect.y),
            None => {
                let level = place(rect, Axis::Horizontal, ox);
                match walk_back(terrain, &level, Axis::Vertical, oy) {
                    Some(y) => (ox, y),
                    None => (ox, oy),
                }
            },
        }
    } else {
        match walk_back(terrain, rect, Axis::Vertical, oy) {
            Some(y) => (rect.x, y),
            None => {
                let level = place(rect, Axis::Vertical, oy);
                match walk_back(terrain, &level, Axis::Horizontal, ox) {
                    Some(x) => (x, oy),
                    None => (ox, oy),
                }
            },
        }
    }
}

/// An entity that a projectile can hit: its identifier, its kind, the hit points it has left
/// and where it is.
#[derive(Clone, Copy, Debug, PartialEq, Eq, Structural)]
pub struct Target {
    pub entity: u64,
    pub kind: EnemyKind,
    pub hittable: EnemyHittable,
    pub rect: IntRect,
}

impl Target {
    /// A projectile at `rect` hits this target: it has hit points left and overlaps.
    pub open spec fn hit_by(self, rect: IntRect) -> bool {
        self.hittable.hp > 0 && rect.overlaps(self.rect)
    }

    /// The target with one hit point less.
    pub open spec fn damaged(self) -> Target
        recommends
            self.hittable.hp > 0,
    {
        Target {
            entity: self.entity,
            kind: self.kind,
            hittable: EnemyHittable { hp: (self.hittable.hp - 1) as u16 },
            rect: self.rect,
        }
    }
}

/// `i` is the first of `targets` that a projectile at `rect` hits.
pub open spec fn is_first_hit(targets: Seq<Target>, rect: IntRect, i: int) -> bool {
    &&& 0 <= i < targets.len()
    &&& targets[i].hit_by(rect)
    &&& forall|j: int| 0 <= j < i ==> !(#[trigger] targets[j]).hit_by(rect)
}

/// A projectile at `rect` hits none of `targets`.
pub open spec fn hits_none(targets: Seq<Target>, rect: IntRect) -> bool {
    forall|j: int| 0 <= j < targets.len() ==> !(#[trigger] targets[j]).hit_by(rect)
}

/// A hit changes one target only: every other target is as it was, none is added or
/// removed, and the one that was hit has lost exactly one hit point.
pub proof fn lemma_hit_damages_one(targets: Seq<Target>, rect: IntRect, i: int)
    requires
        is_first_hit(targets, rect, i),
    ensures
        ({
            let after = targets.update(i, targets[i].damaged());
            &&& after.len() == targets.len()
            &&& after[i].hittable.hp == targets[i].hittable.hp - 1
            &&& forall|j: int| 0 <= j < targets.len() && j != i ==> after[j] == targets[j]
        }),
{
}

/// A target without hit points is never hit, so none is destroyed twice.
pub proof fn lemma_spent_target_is_never_hit(targets: Seq<Target>, rect: IntRect, i: int)
    requires
        is_first_hit(targets, rect, i),
    ensures
        targets[i].hittable.hp > 0,
        targets[i].damaged().hittable.hp == 0 ==> !targets[i].damaged().hit_by(rect),
{
}

/// Damages the first target that the projectile at `rect` hits, and no other: one hit point
/// is taken from it. Returns its place among the targets.
pub fn strike(targets: &mut Vec<Target>, rect: &IntRect) -> (hit: Option<usize>)
    ensures
        match hit {
            Some(i) => is_first_hit(old(targets)@, *rect, i as int) && final(targets)@ == old(
                targets,
            )@.update(i as int, old(targets)@[i as int].damaged()),
            None => hits_none(old(targets)@, *rect) && final(targets)@ == old(targets)@,
        },
{
    let mut i: usize = 0;
    while i < targets.len()
        invariant
            i <= targets.len(),
            targets@ == old(targets)@,
            forall|j: int| 0 <= j < i ==> !(#[trigger] targets@[j]).hit_by(*rect),
        decreases targets.len() - i,
    {
        let t = targets[i];
        if t.hittable.hp > 0 && rect.intersects(&t.rect) {
            let hurt = Target {
                entity: t.entity,
                kind: t.kind,
                hittable: EnemyHittable::new(t.hittable.hp - 1),
                rect: t.rect,
            };
            targets.set(i, hurt);
            return Some(i);
        }
        i = i + 1;
    }
    None
}

/// Where the impact flash of a projectile with its corner at `x` is centred horizontally:
/// at its leading edge, which is its far side when it moves to the right.
pub open spec fn flash_x(x: int, w: int, rightward: bool) -> int {
    if rightward {
        x + w
    } else {
        x
    }
}

/// What one tick did to a projectile.
#[derive(Clone, Copy, Debug, PartialEq, Eq, Structural)]
pub struct Impact {
    /// The rectangle at which the projectile last was free, where it has run into a tile
    /// grid.
    pub wall: Option<IntRect>,
    /// The place among the targets of the one that was hit.
    pub struck: Option<usize>,
    /// The kind of the target, where the hit took its last hit point: one kill to count and
    /// to report.
    pub killed: Option<EnemyKind>,
}

impl Impact {
    /// The projectile is gone after this tick.
    pub open spec fn spent(self) -> bool {
        self.wall is Some || self.struck is Some
    }

    /// Whether the projectile is gone after this tick.
    pub fn is_spent(&self) -> (b: bool)
        ensures
            b == self.spent(),
    {
        self.wall.is_some() || self.struck.is_some()
    }

    /// By how much the kill counter grows.
    pub fn kills(&self) -> (n: u32)
        ensures
            n == if self.killed is Some {
                1u32
            } else {
                0u32
            },
    {
        if self.killed.is_some() {
            1
        } else {
            0
        }
    }
}

/// The commands for a projectile `entity` that has run into a tile grid and last was free
/// at `contact`: it goes, and a flash shows at its leading edge.
pub open spec fn wall_commands(entity: u64, contact: IntRect, rightward: bool) -> Seq<Command> {
    seq![
        Command::Despawn(entity),
        Command::Flash {
            x: flash_x(contact.x as int, contact.w as int, rightward) as i64,
            y: (contact.y + FLASH_DROP) as i64,
        },
    ]
}

/// The commands for a projectile `entity` at `rect` that has hit `victim`, given as it was
/// before the hit: the projectile goes and a flash shows at its leading edge; a victim that
/// had one hit point left goes too, and an explosion shows at its centre.
pub open spec fn strike_commands(entity: u64, rect: IntRect, rightward: bool, victim: Target) -> Seq<
    Command,
> {
    let gone = seq![
        Command::Despawn(entity),
        Command::Flash {
            x: flash_x(rect.x as int, rect.w as int, rightward) as i64,
            y: (rect.y + FLASH_DROP) as i64,
        },
    ];
    if victim.hittable.hp == 1 {
        gone + seq![
            Command::Despawn(victim.entity),
            Command::Explosion { x: victim.rect.center_x() as i64, y: victim.rect.center_y() as i64 },
        ]
    } else {
        gone
    }
}

/// One tick of the projectile `entity`, which came from `(ox, oy)` and now is at `rect`.
///
/// Where `rect` collides with a tile grid the projectile goes, and a flash shows where it
/// last was free. Apart from that, the first target with hit points left that `rect`
/// overlaps is hit, and only that one: the projectile goes, a flash shows, the target loses a
/// hit point, and with its last one it goes too, in an explosion. The commands are appended
/// to `buffer` in this order.
pub fn update(
    terrain: &Terrain,
    targets: &mut Vec<Target>,
    buffer: &mut Vec<Command>,
    entity: u64,
    ox: i32,
    oy: i32,
    rect: &IntRect,
    rightward: bool,
) -> (impact: Impact)
    ensures
        impact.wall == if any_collides(terrain@, *rect) {
            Some(contact_rect(terrain@, *rect, ox as int, oy as int))
        } else {
            None::<IntRect>
        },
        match impact.struck {
            Some(i) => is_first_hit(old(targets)@, *rect, i as int) && final(targets)@ == old(
                targets,
            )@.update(i as int, old(targets)@[i as int].damaged()) && impact.killed == (if old(
                targets,
            )@[i as int].hittable.hp == 1 {
                Some(old(targets)@[i as int].kind)
            } else {
                None::<EnemyKind>
            }),
            None => hits_none(old(targets)@, *rect) && final(targets)@ == old(targets)@
                && impact.killed is None,
        },
        final(buffer)@ == old(buffer)@ + (match impact.wall {
            Some(contact) => wall_commands(entity, contact, rightward),
            None => Seq::<Command>::empty(),
        }) + (match impact.struck {
            Some(i) => strike_commands(entity, *rect, rightward, old(targets)@[i as int]),
            None => Seq::<Command>::empty(),
        }),
{
    let ghost before = buffer@;
    let mut wall: Option<IntRect> = None;
    if terrain.collide_any(rect) {
        let (x, y) = find_collision_pos(terrain, ox, oy, rect);
        let sx: i64 = if rightward {
            x as i64 + rect.w as i64
        } else {
            x as i64
        };
        buffer.push(Command::Despawn(entity));
        buffer.push(Command::Flash { x: sx, y: y as i64 + FLASH_DROP });
        let contact = IntRect { x, y, w: rect.w, h: rect.h };
        wall = Some(contact);
        assert(buffer@ =~= before + wall_commands(entity, contact, rightward));
    } else {
        assert(buffer@ =~= before + Seq::<Command>::empty());
    }
    let ghost mid = buffer@;
    let ghost victims = targets@;
    let struck = strike(targets, rect);
    let mut killed: Option<EnemyKind> = None;
    match struck {
        Some(i) => {
            let victim = targets[i];
            let sx: i64 = if rightward {
                rect.x as i64 + rect.w as i64
            } else {
                rect.x as i64
            };
            buffer.push(Command::Despawn(entity));
            buffer.push(Command::Flash { x: sx, y: rect.y as i64 + FLASH_DROP });
            if victim.hittable.hp == 0 {
                buffer.push(Command::Despawn(victim.entity));
                buffer.push(
                    Command::Explosion { x: victim.rect.center_x_wide(), y: victim.rect.center_y_wide() },
                );
                killed = Some(victim.kind);
            }
            assert(buffer@ =~= mid + strike_commands(entity, *rect, rightward, victims[i as int]));
        },
        None => {
            assert(buffer@ =~= mid + Seq::<Command>::empty());
        },
    }
    Impact { wall, struck, killed }
}

} // verus!
