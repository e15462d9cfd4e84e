//! Integer axis-aligned rectangles.
//!
//! A rectangle is the half-open box `[x, x + w) x [y, y + h)` of world units.
//! All comparisons are made over the mathematical integers, so no rectangle,
//! however large, makes a test overflow.

use vstd::prelude::*;

verus! {

/// An axis-aligned rectangle in integer world units: a plain value, copied freely.
#[derive(Clone, Copy, Debug, PartialEq, Eq, Structural)]
pub struct IntRect {
    pub x: i32,
    pub y: i32,
    pub w: i32,
    pub h: i32,
}

/// `a / b` rounded towards negative infinity, for a positive divisor.
pub open spec fn floor_div(a: int, b: int) -> int
    recommends
        b > 0,
{
    a / b
}

/// Division rounding towards negative infinity, where the machine's `/` rounds towards zero.
pub fn floor_div_i64(a: i64, b: i64) -> (q: i64)
    requires
        b > 0,
        a > i64::MIN,
    ensures
        q == floor_div(a as int, b as int),
        q * b <= a < (q + 1) * b,
{
    let q: i64 = if a >= 0 {
        a / b
    } else {
        let n: i64 = -a - 1;
        let t: i64 = n / b;
        proof {
            // n = t * b + r with 0 <= r < b, so a = (-t - 1) * b + (b - 1 - r).
            vstd::arithmetic::div_mod::lemma_fundamental_div_mod(n as int, b as int);
            vstd::arithmetic::div_mod::lemma_mod_bound(n as int, b as int);
            let r = (n as int) % (b as int);
            assert(b * t == t * b) by (nonlinear_arith);
            assert((-t - 1) * b == -(t * b) - b) by (nonlinear_arith);
            assert(a == (-t - 1) * b + (b - 1 - r));
            vstd::arithmetic::div_mod::lemma_fundamental_div_mod_converse(
                a as int,
                b as int,
                -t - 1,
                b - 1 - r,
            );
            assert(t <= n) by (nonlinear_arith)
                requires
                    n >= 0,
                    b >= 1,
                    t * b <= n,
                    t >= 0,
            ;
        }
        -t - 1
    };
    proof {
        vstd::arithmetic::div_mod::lemma_fundamental_div_mod(a as int, b as int);
        vstd::arithmetic::div_mod::lemma_mod_bound(a as int, b as int);
        assert(b * q == q * b) by (nonlinear_arith);
        assert((q + 1) * b == q * b + b) by (nonlinear_arith);
    }
    q
}

/// For a positive divisor, `floor_div(a, b)` is at most `c` exactly when `a` lies below
/// `(c + 1) * b`, and at least `c` exactly when `a` does not lie below `c * b`.
pub proof fn lemma_floor_div_bounds(a: int, b: int, c: int)
    requires
        b > 0,
    ensures
        floor_div(a, b) <= c <==> a < (c + 1) * b,
        floor_div(a, b) >= c <==> a >= c * b,
{
    let q = a / b;
    vstd::arithmetic::div_mod::lemma_fundamental_div_mod(a, b);
    vstd::arithmetic::div_mod::lemma_mod_bound(a, b);
    assert(b * q == q * b) by (nonlinear_arith);
    assert((q + 1) * b == q * b + b) by (nonlinear_arith);
    if q <= c {
        assert((q + 1) * b <= (c + 1) * b) by (nonlinear_arith)
            requires
                q <= c,
                b > 0,
        ;
    } else {
        assert(q * b >= (c + 1) * b) by (nonlinear_arith)
            requires
                q >= c + 1,
                b > 0,
        ;
    }
    if q >= c {
        assert(q * b >= c * b) by (nonlinear_arith)
            requires
                q >= c,
                b > 0,
        ;
    } else {
        assert((q + 1) * b <= c * b) by (nonlinear_arith)
            requires
                q + 1 <= c,
                b > 0,
        ;
    }
}

impl IntRect {
    /// The rectangle with top-left corner `(x, y)`, `w` units wide and `h` units high.
    pub fn new(x: i32, y: i32, w: i32, h: i32) -> (r: IntRect)
        ensures
            r == (IntRect { x, y, w, h }),
    {
        IntRect { x, y, w, h }
    }

    /// The same rectangle, unless it is degenerate: one without a positive width and height
    /// is turned down.
    pub fn checked_new(x: i32, y: i32, w: i32, h: i32) -> (r: Option<IntRect>)
        ensures
            r == if w > 0 && h > 0 {
                Some(IntRect { x, y, w, h })
            } else {
                None::<IntRect>
            },
    {
        if w > 0 && h > 0 {
            Some(IntRect { x, y, w, h })
        } else {
            None
        }
    }

    /// One past the rightmost column.
    pub open spec fn right(self) -> int {
        self.x + self.w
    }

    /// One past the bottom row.
    pub open spec fn bottom(self) -> int {
        self.y + self.h
    }

    /// Both extents are positive, so the rectangle covers at least one unit cell.
    pub open spec fn has_area(self) -> bool {
        self.w > 0 && self.h > 0
    }

    /// The unit cell at `(px, py)` lies inside the rectangle.
    pub open spec fn covers(self, px: int, py: int) -> bool {
        self.x <= px < self.right() && self.y <= py < self.bottom()
    }

    /// The rectangle overlaps the box with corner `(bx, by)` and extents `bw`, `bh`: the
    /// projections overlap on both axes, and edges that only touch do not count.
    pub open spec fn overlaps_box(self, bx: int, by: int, bw: int, bh: int) -> bool {
        &&& self.x < bx + bw
        &&& self.right() > bx
        &&& self.y < by + bh
        &&& self.bottom() > by
    }

    /// The two rectangles overlap, strictly.
    pub open spec fn overlaps(self, other: IntRect) -> bool {
        self.overlaps_box(other.x as int, other.y as int, other.w as int, other.h as int)
    }

    /// The horizontal centre, `x + floor(w / 2)`.
    pub open spec fn center_x(self) -> int {
        self.x + floor_div(self.w as int, 2)
    }

    /// The vertical centre, `y + floor(h / 2)`.
    pub open spec fn center_y(self) -> int {
        self.y + floor_div(self.h as int, 2)
    }

    /// The rectangle moved by `(dx, dy)`, extents unchanged.
    pub open spec fn moved(self, dx: int, dy: int) -> IntRect
        recommends
            i32::MIN <= self.x + dx <= i32::MAX,
            i32::MIN <= self.y + dy <= i32::MAX,
    {
        IntRect { x: (self.x + dx) as i32, y: (self.y + dy) as i32, w: self.w, h: self.h }
    }

    /// Whether the two rectangles overlap, strictly: touching edges do not intersect.
    pub fn intersects(&self, other: &IntRect) -> (b: bool)
        ensures
            b == self.overlaps(*other),
    {
        let ax: i64 = self.x as i64;
        let ay: i64 = self.y as i64;
        let bx: i64 = other.x as i64;
        let by: i64 = other.y as i64;
        ax < bx + other.w as i64 && ax + self.w as i64 > bx && ay < by + other.h as i64 && ay
            + self.h as i64 > by
    }

    /// The horizontal centre as a wide integer, free of overflow for every rectangle.
    pub fn center_x_wide(&self) -> (c: i64)
        ensures
            c == self.center_x(),
    {
        self.x as i64 + floor_div_i64(self.w as i64, 2)
    }

    /// The vertical centre as a wide integer, free of overflow for every rectangle.
    pub fn center_y_wide(&self) -> (c: i64)
        ensures
            c == self.center_y(),
    {
        self.y as i64 + floor_div_i64(self.h as i64, 2)
    }

    /// The component-wise integer centre `(x + floor(w / 2), y + floor(h / 2))`.
    pub fn center_int(&self) -> (c: (i32, i32))
        requires
            i32::MIN <= self.center_x() <= i32::MAX,
            i32::MIN <= self.center_y() <= i32::MAX,
        ensures
            c.0 == self.center_x(),
            c.1 == self.center_y(),
    {
        let cx: i64 = self.center_x_wide();
        let cy: i64 = self.center_y_wide();
        (cx as i32, cy as i32)
    }

    /// The centre, or `None` where a coordinate of it does not fit the machine integer.
    pub fn checked_center_int(&self) -> (c: Option<(i32, i32)>)
        ensures
            c is Some <==> (i32::MIN <= self.center_x() <= i32::MAX && i32::MIN <= self.center_y()
                <= i32::MAX),
            c matches Some(p) ==> p.0 == self.center_x() && p.1 == self.center_y(),
    {
        let cx: i64 = self.center_x_wide();
        let cy: i64 = self.center_y_wide();
        if cx < i32::MIN as i64 || cx > i32::MAX as i64 || cy < i32::MIN as i64 || cy
            > i32::MAX as i64 {
            None
        } else {
            Some((cx as i32, cy as i32))
        }
    }
}

/// Intersection is symmetric.
pub proof fn lemma_overlaps_symmetric(a: IntRect, b: IntRect)
    ensures
        a.overlaps(b) == b.overlaps(a),
{
}

/// Rectangles that share only an edge do not intersect.
pub proof fn lemma_touching_edges_do_not_overlap(a: IntRect, b: IntRect)
    requires
        a.right() == b.x || b.right() == a.x || a.bottom() == b.y || b.bottom() == a.y,
    ensures
        !a.overlaps(b),
{
}

/// For rectangles with area, intersecting means sharing at least one unit cell.
pub proof fn lemma_overlaps_iff_shared_cell(a: IntRect, b: IntRect)
    requires
        a.has_area(),
        b.has_area(),
    ensures
        a.overlaps(b) <==> exists|px: int, py: int| a.covers(px, py) && b.covers(px, py),
{
    if a.overlaps(b) {
        let px: int = if a.x >= b.x {
            a.x as int
        } else {
            b.x as int
        };
        let py: int = if a.y >= b.y {
            a.y as int
        } else {
            b.y as int
        };
        assert(a.covers(px, py) && b.covers(px, py));
    }
}

/// A rectangle intersects itself exactly when it has area.
pub proof fn lemma_overlaps_self(a: IntRect)
    ensures
        a.overlaps(a) <==> a.has_area(),
{
}

} // verus!
