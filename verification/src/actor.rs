//! Collision resolution for moving bodies: each axis is swept on its own, first the
//! horizontal and then the vertical, against every tile grid.
//!
//! The caller integrates velocity and rounds it to whole units; what happens to the rounded
//! displacement is decided here.

use crate::rect::IntRect;
use crate::terrain::Terrain;
use crate::tiles::{any_collides, TileBody};
use vstd::prelude::*;

verus! {

/// One of the two axes along which a body is swept.
#[derive(Clone, Copy, Debug, PartialEq, Eq, Structural)]
pub enum Axis {
    Horizontal,
    Vertical,
}

/// `v` fits the machine integer that holds a coordinate.
pub open spec fn fits(v: int) -> bool {
    i32::MIN <= v <= i32::MAX
}

/// The rectangle `r` displaced by `k` along `axis`.
pub open spec fn along(r: IntRect, axis: Axis, k: int) -> IntRect {
    match axis {
        Axis::Horizontal => r.moved(k, 0),
        Axis::Vertical => r.moved(0, k),
    }
}

/// The coordinate of `r` that a sweep along `axis` changes.
pub open spec fn coordinate(r: IntRect, axis: Axis) -> int {
    match axis {
        Axis::Horizontal => r.x as int,
        Axis::Vertical => r.y as int,
    }
}

/// The displacement of magnitude `m`, forward or backward.
pub open spec fn signed(forward: bool, m: int) -> int {
    if forward {
        m
    } else {
        -m
    }
}

/// No tile grid collides with `r` displaced by `k` along `axis`.
pub open spec fn free_at(bodies: Seq<TileBody>, r: IntRect, axis: Axis, k: int) -> bool {
    !any_collides(bodies, along(r, axis, k))
}

/// The displacement found by walking back from magnitude `m` towards zero, one unit at a
/// time, to the first that is free; zero where none is free.
pub open spec fn backed_off(bodies: Seq<TileBody>, r: IntRect, axis: Axis, forward: bool, m: nat) -> int
    decreases m,
{
    if m == 0 {
        0
    } else if free_at(bodies, r, axis, signed(forward, m as int)) {
        signed(forward, m as int)
    } else {
        backed_off(bodies, r, axis, forward, (m - 1) as nat)
    }
}

/// The displacement taken when `d` is asked for: `d` itself where the displaced rectangle is
/// free, else the largest shorter displacement in the same direction that is free, else none.
pub open spec fn resolved_step(bodies: Seq<TileBody>, r: IntRect, axis: Axis, d: int) -> int {
    if d >= 0 {
        backed_off(bodies, r, axis, true, d as nat)
    } else {
        backed_off(bodies, r, axis, false, (-d) as nat)
    }
}

/// What one frame of movement did to a body.
#[derive(Clone, Copy, Debug, PartialEq, Eq, Structural)]
pub struct Motion {
    /// Where the body is now.
    pub rect: IntRect,
    /// The horizontal displacement was cut short.
    pub blocked_x: bool,
    /// The vertical displacement was cut short.
    pub blocked_y: bool,
    /// Solid ground lies immediately below the body where it is now.
    pub grounded: bool,
}

impl Motion {
    /// The horizontal velocity is to be zeroed.
    pub open spec fn stops_x(self) -> bool {
        self.blocked_x
    }

    /// The vertical velocity is to be zeroed: the body was blocked, or stands on the ground.
    pub open spec fn stops_y(self) -> bool {
        self.blocked_y || self.grounded
    }

    /// Whether the horizontal velocity is to be zeroed.
    pub fn zero_vx(&self) -> (z: bool)
        ensures
            z == self.stops_x(),
    {
        self.blocked_x
    }

    /// Whether the vertical velocity is to be zeroed.
    pub fn zero_vy(&self) -> (z: bool)
        ensures
            z == self.stops_y(),
    {
        self.blocked_y || self.grounded
    }
}

/// One frame of movement by `(dx, dy)`: the horizontal sweep, then the vertical sweep from
/// where the first ended, then the probe one unit below where the body came to rest.
pub open spec fn resolved_motion(bodies: Seq<TileBody>, r: IntRect, dx: int, dy: int) -> Motion {
    let kx = resolved_step(bodies, r, Axis::Horizontal, dx);
    let mid = along(r, Axis::Horizontal, kx);
    let ky = resolved_step(bodies, mid, Axis::Vertical, dy);
    let end = along(mid, Axis::Vertical, ky);
    Motion {
        rect: end,
        blocked_x: kx != dx,
        blocked_y: ky != dy,
        grounded: !free_at(bodies, end, Axis::Vertical, 1),
    }
}

/// What walking back finds lies between zero and where the walk began.
pub proof fn lemma_backed_off_within(bodies: Seq<TileBody>, r: IntRect, axis: Axis, forward: bool, m: nat)
    ensures
        ({
            let k = backed_off(bodies, r, axis, forward, m);
            exists|n: int| 0 <= n <= m && k == signed(forward, n)
        }),
    decreases m,
{
    let k = backed_off(bodies, r, axis, forward, m);
    if m == 0 {
        assert(k == signed(forward, 0));
    } else if free_at(bodies, r, axis, signed(forward, m as int)) {
        assert(k == signed(forward, m as int));
    } else {
        lemma_backed_off_within(bodies, r, axis, forward, (m - 1) as nat);
        let n = choose|n: int|
            0 <= n <= m - 1 && backed_off(bodies, r, axis, forward, (m - 1) as nat) == signed(
                forward,
                n,
            );
        assert(0 <= n <= m && k == signed(forward, n));
    }
}

/// Walking back stops at the largest free displacement: every longer one up to the start
/// collides, and the one found is free unless it is zero.
pub proof fn lemma_backed_off_largest_free(
    bodies: Seq<TileBody>,
    r: IntRect,
    axis: Axis,
    forward: bool,
    m: nat,
    n: int,
)
    requires
        backed_off(bodies, r, axis, forward, m) == signed(forward, n),
        0 <= n <= m,
    ensures
        n != 0 ==> free_at(bodies, r, axis, signed(forward, n)),
        forall|j: int| n < j <= m ==> !#[trigger] free_at(bodies, r, axis, signed(forward, j)),
    decreases m,
{
    if m == 0 {
    } else if free_at(bodies, r, axis, signed(forward, m as int)) {
    } else {
        lemma_backed_off_within(bodies, r, axis, forward, (m - 1) as nat);
        lemma_backed_off_largest_free(bodies, r, axis, forward, (m - 1) as nat, n);
    }
}

/// A sweep that starts from a free position ends on a free position.
pub proof fn lemma_step_stays_free(bodies: Seq<TileBody>, r: IntRect, axis: Axis, d: int)
    requires
        !any_collides(bodies, r),
    ensures
        free_at(bodies, r, axis, resolved_step(bodies, r, axis, d)),
{
    let forward = d >= 0;
    let m: nat = if d >= 0 {
        d as nat
    } else {
        (-d) as nat
    };
    lemma_backed_off_within(bodies, r, axis, forward, m);
    let n = choose|n: int| 0 <= n <= m && backed_off(bodies, r, axis, forward, m) == signed(forward, n);
    lemma_backed_off_largest_free(bodies, r, axis, forward, m, n);
    if n == 0 {
        assert(along(r, axis, 0) == r);
    }
}

/// The rectangle displaced by `k` along `axis`.
pub fn shifted(rect: &IntRect, axis: Axis, k: i32) -> (moved: IntRect)
    requires
        fits(coordinate(*rect, axis) + k),
    ensures
        moved == along(*rect, axis, k as int),
{
    match axis {
        Axis::Horizontal => IntRect { x: rect.x + k, y: rect.y, w: rect.w, h: rect.h },
        Axis::Vertical => IntRect { x: rect.x, y: rect.y + k, w: rect.w, h: rect.h },
    }
}

/// Sweeps `rect` by `d` along `axis` and returns the displacement taken: `d` where the
/// displaced rectangle is free, else the largest shorter one that is, found by walking back
/// one unit at a time; zero where every one collides.
pub fn sweep(terrain: &Terrain, rect: &IntRect, axis: Axis, d: i32) -> (step: i32)
    requires
        fits(coordinate(*rect, axis) + d),
    ensures
        step == resolved_step(terrain@, *rect, axis, d as int),
        d >= 0 ==> 0 <= step <= d,
        d < 0 ==> d <= step <= 0,
        !any_collides(terrain@, *rect) ==> free_at(terrain@, *rect, axis, step as int),
{
    proof {
        if !any_collides(terrain@, *rect) {
            lemma_step_stays_free(terrain@, *rect, axis, d as int);
        }
    }
    let forward = d >= 0;
    let mut k: i32 = d;
    while k != 0
        invariant
            forward == (d >= 0),
            forward ==> 0 <= k <= d,
            !forward ==> d <= k <= 0,
            fits(coordinate(*rect, axis) + d),
            resolved_step(terrain@, *rect, axis, d as int) == backed_off(
                terrain@,
                *rect,
                axis,
                forward,
                signed(forward, k as int) as nat,
            ),
        decreases signed(forward, k as int),
    {
        let probe = shifted(rect, axis, k);
        if !terrain.collide_any(&probe) {
            return k;
        }
        if forward {
            k = k - 1;
        } else {
            k = k + 1;
        }
    }
    0
}

/// Moves a body by the rounded displacement `(dx, dy)`: resolves the horizontal axis, then
/// the vertical, then probes one unit below for ground.
pub fn resolve_motion(terrain: &Terrain, rect: &IntRect, dx: i32, dy: i32) -> (motion: Motion)
    requires
        fits(rect.x + dx),
        fits(rect.y + dy),
        fits(rect.y + dy + 1),
        fits(rect.y + 1),
    ensures
        motion == resolved_motion(terrain@, *rect, dx as int, dy as int),
        !any_collides(terrain@, *rect) ==> !any_collides(terrain@, motion.rect),
{
    let kx = sweep(terrain, rect, Axis::Horizontal, dx);
    let mid = shifted(rect, Axis::Horizontal, kx);
    let ky = sweep(terrain, &mid, Axis::Vertical, dy);
    let end = shifted(&mid, Axis::Vertical, ky);
    let below = shifted(&end, Axis::Vertical, 1);
    let grounded = terrain.collide_any(&below);
    proof {
        if !any_collides(terrain@, *rect) {
            lemma_step_stays_free(terrain@, *rect, Axis::Horizontal, dx as int);
            lemma_step_stays_free(terrain@, mid, Axis::Vertical, dy as int);
        }
    }
    Motion { rect: end, blocked_x: kx != dx, blocked_y: ky != dy, grounded }
}

/// One frame of movement that starts from a free position ends on a free position.
pub proof fn lemma_motion_stays_free(bodies: Seq<TileBody>, r: IntRect, dx: int, dy: int)
    requires
        !any_collides(bodies, r),
    ensures
        !any_collides(bodies, resolved_motion(bodies, r, dx, dy).rect),
{
    lemma_step_stays_free(bodies, r, Axis::Horizontal, dx);
    let mid = along(r, Axis::Horizontal, resolved_step(bodies, r, Axis::Horizontal, dx));
    lemma_step_stays_free(bodies, mid, Axis::Vertical, dy);
}

/// Where a body is after the frames of movement `moves`, each a displacement `(dx, dy)`,
/// taken in turn from `r`.
pub open spec fn after_moves(bodies: Seq<TileBody>, r: IntRect, moves: Seq<(int, int)>) -> IntRect
    decreases moves.len(),
{
    if moves.len() == 0 {
        r
    } else {
        resolved_motion(
            bodies,
            after_moves(bodies, r, moves.drop_last()),
            moves.last().0,
            moves.last().1,
        ).rect
    }
}

/// A body that starts free of the tile grids is free of them after any sequence of frames,
/// whatever the displacements asked for.
pub proof fn lemma_moves_never_penetrate(bodies: Seq<TileBody>, r: IntRect, moves: Seq<(int, int)>)
    requires
        !any_collides(bodies, r),
    ensures
        !any_collides(bodies, after_moves(bodies, r, moves)),
    decreases moves.len(),
{
    if moves.len() > 0 {
        lemma_moves_never_penetrate(bodies, r, moves.drop_last());
        lemma_motion_stays_free(
            bodies,
            after_moves(bodies, r, moves.drop_last()),
            moves.last().0,
            moves.last().1,
        );
    }
}

/// A body that rests on solid ground, and is asked to move down by no more than the ground
/// is deep, stays where it is, is grounded, and has its vertical velocity zeroed.
pub proof fn lemma_resting_body_is_grounded(bodies: Seq<TileBody>, r: IntRect, dy: int)
    requires
        !any_collides(bodies, r),
        0 <= dy,
        !free_at(bodies, r, Axis::Vertical, 1),
        forall|j: int| 1 <= j <= dy ==> !#[trigger] free_at(bodies, r, Axis::Vertical, j),
    ensures
        resolved_motion(bodies, r, 0, dy).rect == r,
        resolved_motion(bodies, r, 0, dy).grounded,
        resolved_motion(bodies, r, 0, dy).stops_y(),
        !resolved_motion(bodies, r, 0, dy).blocked_x,
{
    assert(along(r, Axis::Horizontal, 0) == r);
    lemma_blocked_walk_ends_at_zero(bodies, r, Axis::Vertical, true, dy as nat);
    assert(along(r, Axis::Vertical, 0) == r);
}

/// Walking back over displacements that all collide ends at zero.
pub proof fn lemma_blocked_walk_ends_at_zero(bodies: Seq<TileBody>, r: IntRect, axis: Axis, forward: bool, m: nat)
    requires
        forall|j: int| 1 <= j <= m ==> !#[trigger] free_at(bodies, r, axis, signed(forward, j)),
    ensures
        backed_off(bodies, r, axis, forward, m) == 0,
    decreases m,
{
    if m > 0 {
        assert(!free_at(bodies, r, axis, signed(forward, m as int)));
        lemma_blocked_walk_ends_at_zero(bodies, r, axis, forward, (m - 1) as nat);
    }
}

} // verus!
