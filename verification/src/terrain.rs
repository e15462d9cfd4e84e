//! All the tile grids of a level together with a broad-phase index of them, so that a
//! collision query looks only at the grids near the rectangle.

use crate::index::{bucket_of, entered, members, reaches, SpatialIndex};
use crate::rect::IntRect;
use crate::tiles::{
    any_collides, collide_any, lemma_cell_within_extents, lemma_grid_fits, TileBody, TileGrid,
};
use vstd::prelude::*;

verus! {

/// The grid at place `i` is entered in the bucket map under its place, in every bucket that
/// its bounds reach.
pub open spec fn is_indexed(m: Map<(int, int), Set<u64>>, g: TileGrid, i: int) -> bool {
    &&& g.bounded()
    &&& forall|kx: int, ky: int|
        reaches(g.bounds(), kx, ky) ==> #[trigger] members(m, (kx, ky)).contains(i as u64)
}

/// The tile grids of a level, indexed by the buckets they reach. A grid too large for its
/// bounds to be held in a rectangle is kept beside the index and looked at by every query.
pub struct Terrain {
    bodies: Vec<TileBody>,
    index: SpatialIndex,
    loose: Vec<usize>,
}

impl View for Terrain {
    type V = Seq<TileBody>;

    /// The grids, in the order in which they were given.
    closed spec fn view(&self) -> Seq<TileBody> {
        self.bodies@
    }
}

impl Terrain {
    #[verifier::type_invariant]
    spec fn inv(self) -> bool {
        forall|i: int|
            0 <= i < self.bodies@.len() ==> (#[trigger] self.bodies@[i])@.wf() && (is_indexed(
                self.index@,
                self.bodies@[i]@,
                i,
            ) || self.loose@.contains(i as usize))
    }

    /// Takes the grids of a level and indexes them.
    pub fn new(bodies: Vec<TileBody>) -> (terrain: Terrain)
        ensures
            terrain@ == bodies@,
    {
        let mut index = SpatialIndex::new();
        let mut loose: Vec<usize> = Vec::new();
        let mut i: usize = 0;
        while i < bodies.len()
            invariant
                i <= bodies.len(),
                forall|j: int|
                    0 <= j < i ==> (#[trigger] bodies@[j])@.wf() && (is_indexed(index@, bodies@[j]@, j)
                        || loose@.contains(j as usize)),
            decreases bodies.len() - i,
        {
            let ghost before = index@;
            let ghost kept = loose@;
            match bodies[i].bounds() {
                Some(bounds) => {
                    index.insert_at(i as u64, &bounds);
                    proof {
                        assert forall|k: (int, int)|
                            members(before, k).subset_of(#[trigger] members(index@, k)) by {
                            assert(k == (k.0, k.1));
                        }
                        assert forall|j: int| 0 <= j < i && is_indexed(before, bodies@[j]@, j) implies is_indexed(
                            index@,
                            bodies@[j]@,
                            j,
                        ) by {
                            assert forall|kx: int, ky: int|
                                reaches(bodies@[j]@.bounds(), kx, ky) implies #[trigger] members(
                                index@,
                                (kx, ky),
                            ).contains(j as u64) by {
                                assert(members(before, (kx, ky)).contains(j as u64));
                            }
                        }
                        assert(is_indexed(index@, bodies@[i as int]@, i as int));
                    }
                },
                None => {
                    loose.push(i);
                    proof {
                        assert(loose@[kept.len() as int] == i);
                        assert forall|v: usize| kept.contains(v) implies #[trigger] loose@.contains(v) by {
                            let at = choose|at: int| 0 <= at < kept.len() && kept[at] == v;
                            assert(loose@[at] == v);
                        }
                    }
                },
            }
            i = i + 1;
        }
        Terrain { bodies, index, loose }
    }

    /// The grids of the level.
    pub fn bodies(&self) -> (bodies: &Vec<TileBody>)
        ensures
            bodies@ == self@,
    {
        &self.bodies
    }

    /// Whether `rect` collides with any tile grid of the level. Only the grids found in the
    /// buckets that `rect` reaches are looked at, and those kept beside the index; for a
    /// rectangle without area, which reaches no bucket it lies on the border of, all are.
    pub fn collide_any(&self, rect: &IntRect) -> (hit: bool)
        ensures
            hit == any_collides(self@, *rect),
    {
        proof {
            use_type_invariant(self);
        }
        if rect.w <= 0 || rect.h <= 0 {
            return collide_any(&self.bodies, rect);
        }
        let count = self.bodies.len();
        let mut n: usize = 0;
        while n < self.loose.len()
            invariant
                n <= self.loose@.len(),
                forall|j: int|
                    0 <= j < n && self.loose@[j] < self.bodies@.len() ==> !(
                    #[trigger] self.bodies@[self.loose@[j] as int])@.collides(*rect),
            decreases self.loose@.len() - n,
        {
            let at = self.loose[n];
            if at < self.bodies.len() && self.bodies[at].collide(rect) {
                return true;
            }
            n = n + 1;
        }
        let found = self.index.query(rect);
        let mut c: usize = 0;
        while c < found.len()
            invariant
                c <= found@.len(),
                forall|j: int|
                    0 <= j < c && found@[j] < self.bodies@.len() ==> !(
                    #[trigger] self.bodies@[found@[j] as int])@.collides(*rect),
            decreases found@.len() - c,
        {
            let id = found[c];
            if id < self.bodies.len() as u64 && self.bodies[id as usize].collide(rect) {
                return true;
            }
            c = c + 1;
        }
        proof {
            assert forall|i: int| 0 <= i < self.bodies@.len() implies !(#[trigger] self.bodies@[i])@.collides(
                *rect,
            ) by {
                let g = self.bodies@[i]@;
                assert(i < count);
                lemma_grid_fits(self.bodies@[i]);
                if g.collides(*rect) {
                    if self.loose@.contains(i as usize) {
                        let j = choose|j: int| 0 <= j < self.loose@.len() && self.loose@[j] == i as usize;
                        assert(!self.bodies@[self.loose@[j] as int]@.collides(*rect));
                    } else {
                        assert(is_indexed(self.index@, g, i));
                        let cell = choose|cell: int|
                            0 <= cell < g.solid.len() && g.solid[cell] && #[trigger] g.cell_overlaps(
                                cell,
                                *rect,
                            );
                        lemma_shared_bucket(g, cell, *rect);
                        let (kx, ky) = choose|kx: int, ky: int|
                            reaches(*rect, kx, ky) && reaches(g.bounds(), kx, ky);
                        assert(members(self.index@, (kx, ky)).contains(i as u64));
                        assert(self.index.bucket(kx, ky).contains(i as u64));
                        assert(found@.contains(i as u64));
                        let j = choose|j: int| 0 <= j < found@.len() && found@[j] == i as u64;
                        assert(!self.bodies@[found@[j] as int]@.collides(*rect));
                    }
                }
            }
        }
        false
    }
}

/// A rectangle with area that overlaps a cell of a grid reaches a bucket that the bounds
/// of the grid reach too: the one that holds a unit cell they share.
pub proof fn lemma_shared_bucket(g: TileGrid, cell: int, r: IntRect)
    requires
        g.wf(),
        g.bounded(),
        i32::MIN <= g.x <= i32::MAX,
        i32::MIN <= g.y <= i32::MAX,
        0 <= cell < g.solid.len(),
        g.cell_overlaps(cell, r),
        r.has_area(),
    ensures
        exists|kx: int, ky: int| reaches(r, kx, ky) && reaches(g.bounds(), kx, ky),
{
    lemma_cell_within_extents(g, cell);
    let px = if r.x >= g.cell_x(cell) {
        r.x as int
    } else {
        g.cell_x(cell)
    };
    let py = if r.y >= g.cell_y(cell) {
        r.y as int
    } else {
        g.cell_y(cell)
    };
    assert(0 <= g.extent_x() && 0 <= g.extent_y());
    assert(reaches(r, bucket_of(px), bucket_of(py)));
    assert(reaches(g.bounds(), bucket_of(px), bucket_of(py)));
}

} // verus!
