//! The broad-phase index: a uniform grid of buckets, each holding the identifiers of the
//! entities whose rectangle reaches into it.

use crate::bucket::{
    bucket_contains, bucket_elements, bucket_insert, bucket_items, bucket_len, bucket_new, Bucket,
};
use crate::rect::{floor_div, floor_div_i64, lemma_floor_div_bounds, IntRect};
use std::collections::HashMap;
use vstd::std_specs::iter::IteratorSpec;
use vstd::prelude::*;

verus! {

/// The side of one bucket, in world units.
pub const BUCKET_SIZE: i32 = 128;

/// The column (or row) of the bucket that holds world coordinate `v`.
pub open spec fn bucket_of(v: int) -> int {
    floor_div(v, BUCKET_SIZE as int)
}

/// Bucket `(kx, ky)` lies within the span of buckets that `r` reaches:
/// columns `bucket_of(x) ..= bucket_of(x + w - 1)`, rows likewise.
pub open spec fn reaches(r: IntRect, kx: int, ky: int) -> bool {
    &&& bucket_of(r.x as int) <= kx <= bucket_of(r.x + r.w - 1)
    &&& bucket_of(r.y as int) <= ky <= bucket_of(r.y + r.h - 1)
}

/// How many buckets `r` reaches.
pub open spec fn reach_count(r: IntRect) -> int {
    let nx = bucket_of(r.x + r.w - 1) - bucket_of(r.x as int) + 1;
    let ny = bucket_of(r.y + r.h - 1) - bucket_of(r.y as int) + 1;
    if nx > 0 && ny > 0 {
        nx * ny
    } else {
        0
    }
}

/// What a bucket map holds at `k`: nothing where it has no such bucket.
pub open spec fn members(m: Map<(int, int), Set<u64>>, k: (int, int)) -> Set<u64> {
    if m.contains_key(k) {
        m[k]
    } else {
        Set::empty()
    }
}

/// The bucket map after `entity` was entered with rectangle `r`: every bucket that `r`
/// reaches exists and holds `entity`, and nothing else has changed.
pub open spec fn entered(m: Map<(int, int), Set<u64>>, entity: u64, r: IntRect) -> Map<
    (int, int),
    Set<u64>,
> {
    Map::new(
        |k: (int, int)| m.contains_key(k) || reaches(r, k.0, k.1),
        |k: (int, int)|
            if reaches(r, k.0, k.1) {
                members(m, k).insert(entity)
            } else {
                m[k]
            },
    )
}

/// How many buckets of the map hold exactly `n` identifiers.
pub open spec fn population(m: Map<(int, int), Set<u64>>, n: nat) -> nat {
    m.dom().filter(|k: (int, int)| m[k].len() == n).len()
}

/// The lines of a report come in the order of their first parts, none of which comes twice.
pub open spec fn ascending(report: Seq<(usize, usize)>) -> bool {
    forall|i: int, j: int| 0 <= i < j < report.len() ==> report[i].0 < report[j].0
}

/// The span of buckets that `rect` reaches, as `(min_kx, max_kx, min_ky, max_ky)`.
/// The span is empty where a maximum lies below its minimum, as for a rectangle without area
/// that lies on a bucket border.
pub fn get_bounds(rect: &IntRect) -> (b: (i32, i32, i32, i32))
    ensures
        b.0 == bucket_of(rect.x as int),
        b.1 == bucket_of(rect.x + rect.w - 1),
        b.2 == bucket_of(rect.y as int),
        b.3 == bucket_of(rect.y + rect.h - 1),
{
    let size: i64 = BUCKET_SIZE as i64;
    let min_kx: i64 = floor_div_i64(rect.x as i64, size);
    let max_kx: i64 = floor_div_i64(rect.x as i64 + rect.w as i64 - 1, size);
    let min_ky: i64 = floor_div_i64(rect.y as i64, size);
    let max_ky: i64 = floor_div_i64(rect.y as i64 + rect.h as i64 - 1, size);
    (min_kx as i32, max_kx as i32, min_ky as i32, max_ky as i32)
}

/// The key under which bucket `(kx, ky)` is stored: the two coordinates packed into one
/// integer, columns in the high half.
spec fn key_of(kx: int, ky: int) -> int {
    kx * 0x1_0000_0000 + (ky + 0x8000_0000)
}

spec fn is_coord(k: int) -> bool {
    i32::MIN <= k <= i32::MAX
}

fn pack(kx: i32, ky: i32) -> (key: i64)
    ensures
        key == key_of(kx as int, ky as int),
{
    kx as i64 * 0x1_0000_0000 + (ky as i64 + 0x8000_0000)
}

proof fn lemma_key_injective(ax: int, ay: int, bx: int, by: int)
    requires
        is_coord(ax),
        is_coord(ay),
        is_coord(bx),
        is_coord(by),
        key_of(ax, ay) == key_of(bx, by),
    ensures
        ax == bx,
        ay == by,
{
}

/// A uniform-grid broad-phase index from bucket coordinates to sets of entity identifiers.
pub struct SpatialIndex {
    buckets: HashMap<i64, Bucket>,
}

impl View for SpatialIndex {
    type V = Map<(int, int), Set<u64>>;

    /// The buckets that exist, each with the set of identifiers in it.
    closed spec fn view(&self) -> Map<(int, int), Set<u64>> {
        view_of(self.buckets@)
    }
}

impl SpatialIndex {
    /// No bucket is empty, and none stores an identifier twice.
    #[verifier::type_invariant]
    spec fn inv(self) -> bool {
        all_sound(self.buckets@)
    }

    /// The identifiers in bucket `(kx, ky)`; none where the bucket does not exist.
    pub open spec fn bucket(&self, kx: int, ky: int) -> Set<u64> {
        members(self@, (kx, ky))
    }

    /// An index without buckets.
    pub fn new() -> (index: SpatialIndex)
        ensures
            index@ == Map::<(int, int), Set<u64>>::empty(),
    {
        let index = SpatialIndex { buckets: HashMap::new() };
        assert(index@ =~= Map::<(int, int), Set<u64>>::empty());
        index
    }

    /// Enters `entity` into every bucket that `rect` reaches, creating the buckets that do
    /// not exist yet, and returns how many buckets those are. Entering an identifier into a
    /// bucket that holds it already changes nothing there.
    pub fn insert_at(&mut self, entity: u64, rect: &IntRect) -> (n: u64)
        ensures
            final(self)@ == entered(old(self)@, entity, *rect),
            n == reach_count(*rect),
    {
        broadcast use vstd::std_specs::hash::group_hash_axioms;

        proof {
            use_type_invariant(&*self);
        }
        let (min_kx, max_kx, min_ky, max_ky) = get_bounds(rect);
        // The map leaves the index while it grows: a bucket is empty for a moment after it
        // was created.
        let mut buckets: HashMap<i64, Bucket> = HashMap::new();
        core::mem::swap(&mut self.buckets, &mut buckets);
        let ghost start = view_of(buckets@);
        assert(start == old(self)@);
        let mut n: u64 = 0;
        let mut kx: i64 = min_kx as i64;
        while kx <= max_kx as i64
            invariant
                min_kx == bucket_of(rect.x as int),
                max_kx == bucket_of(rect.x + rect.w - 1),
                min_ky == bucket_of(rect.y as int),
                max_ky == bucket_of(rect.y + rect.h - 1),
                min_kx <= kx <= max_kx + 1 || (kx == min_kx && max_kx < min_kx),
                all_sound(buckets@),
                view_of(buckets@) == entered_up_to(start, entity, *rect, kx as int, min_ky as int),
                n == (kx - min_kx) * rows(*rect),
            decreases max_kx - kx + 1,
        {
            let mut ky: i64 = min_ky as i64;
            while ky <= max_ky as i64
                invariant
                    min_kx == bucket_of(rect.x as int),
                    max_kx == bucket_of(rect.x + rect.w - 1),
                    min_ky == bucket_of(rect.y as int),
                    max_ky == bucket_of(rect.y + rect.h - 1),
                    min_kx <= kx <= max_kx,
                    min_ky <= ky <= max_ky + 1 || (ky == min_ky && max_ky < min_ky),
                    all_sound(buckets@),
                    view_of(buckets@) == entered_up_to(start, entity, *rect, kx as int, ky as int),
                    n == (kx - min_kx) * rows(*rect) + (ky - min_ky),
                decreases max_ky - ky + 1,
            {
                let key = pack(kx as i32, ky as i32);
                let ghost before = buckets@;
                let slot = buckets.entry(key).or_insert(bucket_new());
                let added = bucket_insert(slot, entity);
                proof {
                    let after = buckets@;
                    let grown = after[key];
                    assert(after == before.insert(key, grown));
                    let was = if before.contains_key(key) {
                        bucket_elements(before[key])
                    } else {
                        Seq::<u64>::empty()
                    };
                    assert(bucket_elements(grown) == if was.contains(entity) {
                        was
                    } else {
                        was.push(entity)
                    });
                    if !was.contains(entity) {
                        lemma_push_keeps_distinct(was, entity);
                    }
                    assert(bucket_elements(grown).to_set() =~= was.to_set().insert(entity)) by {
                        was.lemma_push_to_set_commute(entity);
                    }
                    assert(Seq::<u64>::empty().to_set() =~= Set::<u64>::empty());
                    let here = (kx as int, ky as int);
                    let target = entered_up_to(start, entity, *rect, kx as int, ky + 1);
                    assert(reaches(*rect, kx as int, ky as int));
                    lemma_rows_bound(*rect);
                    let prior = entered_up_to(start, entity, *rect, kx as int, ky as int);
                    assert(view_of(before) == prior);
                    assert forall|k: (int, int)|
                        #![trigger view_of(after).dom().contains(k)]
                        #![trigger target.dom().contains(k)]
                        view_of(after).dom().contains(k) == target.dom().contains(k) && (
                        target.dom().contains(k) ==> view_of(after)[k] == target[k]) by {
                        assert(k == (k.0, k.1));
                        assert(prior.contains_key(k) == view_of(before).contains_key(k));
                        if is_coord(k.0) && is_coord(k.1) {
                            if k == here {
                                assert(!reached_before(*rect, k, kx as int, ky as int));
                                assert(key_of(k.0, k.1) as i64 == key);
                                assert(prior.contains_key(k) == start.contains_key(k));
                                assert(view_of(before).contains_key(k) == before.contains_key(key));
                                if before.contains_key(key) {
                                    assert(view_of(before)[k] == was.to_set());
                                    assert(prior[k] == start[k]);
                                }
                                assert(was.to_set() == members(start, k));
                            } else {
                                if key_of(k.0, k.1) as i64 == key {
                                    lemma_key_injective(k.0, k.1, kx as int, ky as int);
                                }
                                assert(view_of(before).contains_key(k) == view_of(
                                    after,
                                ).contains_key(k));
                                assert(reached_before(*rect, k, kx as int, ky + 1)
                                    == reached_before(*rect, k, kx as int, ky as int));
                                if target.contains_key(k) {
                                    assert(view_of(after)[k] == view_of(before)[k]);
                                    assert(prior[k] == target[k]);
                                }
                            }
                        } else {
                            assert(!view_of(before).contains_key(k));
                            assert(!reaches(*rect, k.0, k.1));
                        }
                    }
                    assert(view_of(after) =~= target);
                    assert((kx - min_kx) * rows(*rect) <= 0x800_0000 * 0x800_0000)
                        by (nonlinear_arith)
                        requires
                            0 <= kx - min_kx <= 0x800_0000,
                            0 <= rows(*rect) <= 0x800_0000,
                    ;
                }
                n = n + 1;
                ky = ky + 1;
            }
            proof {
                assert(view_of(buckets@) =~= entered_up_to(
                    start,
                    entity,
                    *rect,
                    kx + 1,
                    min_ky as int,
                ));
                assert((kx + 1 - min_kx) * rows(*rect) == (kx - min_kx) * rows(*rect) + rows(*rect))
                    by (nonlinear_arith);
            }
            kx = kx + 1;
        }
        proof {
            assert(view_of(buckets@) =~= entered(start, entity, *rect));
            if max_kx >= min_kx {
                assert(n == reach_count(*rect));
            } else {
                assert(n == 0 * rows(*rect));
            }
        }
        core::mem::swap(&mut self.buckets, &mut buckets);
        n
    }

    /// A histogram of the buckets by population: one line `(entries, buckets)` for each
    /// number of entries that some bucket has, with the number of buckets that have it, in
    /// the order of the entries.
    pub fn debug(&self) -> (report: Vec<(usize, usize)>)
        ensures
            ascending(report@),
            forall|i: int|
                0 <= i < report@.len() ==> (#[trigger] report@[i]).1 > 0 && report@[i].1 == population(
                    self@,
                    report@[i].0 as nat,
                ),
            forall|n: usize|
                population(self@, n as nat) > 0 ==> exists|i: int|
                    0 <= i < report@.len() && (#[trigger] report@[i]).0 == n,
    {
        broadcast use vstd::std_specs::hash::group_hash_axioms;

        proof {
            use_type_invariant(self);
        }
        let ghost stored = self.buckets@;
        let mut sizes: Vec<usize> = Vec::new();
        let ghost mut keys: Seq<i64> = Seq::empty();
        let ghost every = vstd::std_specs::hash::spec_keys_iter(&self.buckets).remaining();
        for key in it: self.buckets.keys()
            invariant
                stored == self.buckets@,
                it.seq() == every,
                every.unref().to_set() == stored.dom(),
                every.no_duplicates(),
                keys.len() == it.index(),
                sizes@.len() == keys.len(),
                forall|i: int|
                    0 <= i < keys.len() ==> keys[i] == *every[i] && sizes@[i] == bucket_elements(
                        stored[#[trigger] keys[i]],
                    ).len(),
        {
            proof {
                assert(every.unref()[it.index()] == *key);
                assert(every.unref().to_set().contains(*key));
            }
            match self.buckets.get(key) {
                Some(held) => {
                    sizes.push(bucket_len(held));
                },
                None => {
                    assert(false);
                },
            }
            proof {
                keys = keys.push(*key);
            }
        }
        proof {
            assert(keys =~= every.unref());
            assert(keys.no_duplicates()) by {
                assert forall|i: int, j: int| 0 <= i < keys.len() && 0 <= j < keys.len() && i != j implies keys[i]
                    != keys[j] by {
                    assert(every[i] != every[j]);
                }
            }
        }
        let report = tally(&sizes);
        proof {
            assert forall|n: usize| occurrences(sizes@, n) == population(self@, n as nat) by {
                lemma_occurrences_of_sizes(stored, keys, sizes@, n);
                lemma_population_of_view(stored, n as nat);
            }
        }
        report
    }

    /// The identifiers in the buckets that `rect` reaches: the candidates for anything that
    /// overlaps `rect`. An identifier that is in several of the buckets comes as often.
    pub fn query(&self, rect: &IntRect) -> (found: Vec<u64>)
        ensures
            forall|id: u64|
                found@.contains(id) <==> exists|kx: int, ky: int|
                    reaches(*rect, kx, ky) && #[trigger] self.bucket(kx, ky).contains(id),
    {
        broadcast use vstd::std_specs::hash::group_hash_axioms;

        let (min_kx, max_kx, min_ky, max_ky) = get_bounds(rect);
        let mut found: Vec<u64> = Vec::new();
        let mut kx: i64 = min_kx as i64;
        while kx <= max_kx as i64
            invariant
                min_kx == bucket_of(rect.x as int),
                max_kx == bucket_of(rect.x + rect.w - 1),
                min_ky == bucket_of(rect.y as int),
                max_ky == bucket_of(rect.y + rect.h - 1),
                min_kx <= kx <= max_kx + 1 || (kx == min_kx && max_kx < min_kx),
                forall|id: u64|
                    found@.contains(id) <==> exists|ax: int, ay: int|
                        reached_before(*rect, (ax, ay), kx as int, min_ky as int)
                            && #[trigger] self.bucket(ax, ay).contains(id),
            decreases max_kx - kx + 1,
        {
            let mut ky: i64 = min_ky as i64;
            while ky <= max_ky as i64
                invariant
                    min_kx == bucket_of(rect.x as int),
                    max_kx == bucket_of(rect.x + rect.w - 1),
                    min_ky == bucket_of(rect.y as int),
                    max_ky == bucket_of(rect.y + rect.h - 1),
                    min_kx <= kx <= max_kx,
                    min_ky <= ky <= max_ky + 1 || (ky == min_ky && max_ky < min_ky),
                    forall|id: u64|
                        found@.contains(id) <==> exists|ax: int, ay: int|
                            reached_before(*rect, (ax, ay), kx as int, ky as int)
                                && #[trigger] self.bucket(ax, ay).contains(id),
                decreases max_ky - ky + 1,
            {
                let key = pack(kx as i32, ky as i32);
                let ghost before = found@;
                match self.buckets.get(&key) {
                    Some(stored) => {
                        let mut items = bucket_items(stored);
                        let ghost added = items@;
                        found.append(&mut items);
                        proof {
                            assert(self.bucket(kx as int, ky as int) == added.to_set());
                            assert forall|id: u64| found@.contains(id) == (before.contains(id)
                                || added.contains(id)) by {
                                lemma_contains_of_concat(before, added, id);
                            }
                        }
                    },
                    None => {
                        assert(self.bucket(kx as int, ky as int) == Set::<u64>::empty());
                    },
                }
                proof {
                    let here = self.bucket(kx as int, ky as int);
                    assert(reached_before(*rect, (kx as int, ky as int), kx as int, ky + 1));
                    assert forall|id: u64| found@.contains(id) implies exists|ax: int, ay: int|
                        reached_before(*rect, (ax, ay), kx as int, ky + 1)
                            && #[trigger] self.bucket(ax, ay).contains(id) by {
                        if before.contains(id) {
                            let (ax, ay) = choose|ax: int, ay: int|
                                reached_before(*rect, (ax, ay), kx as int, ky as int)
                                    && #[trigger] self.bucket(ax, ay).contains(id);
                            assert(reached_before(*rect, (ax, ay), kx as int, ky + 1)
                                && self.bucket(ax, ay).contains(id));
                        } else {
                            assert(here.contains(id));
                            assert(reached_before(*rect, (kx as int, ky as int), kx as int, ky + 1)
                                && self.bucket(kx as int, ky as int).contains(id));
                        }
                    }
                    assert forall|id: u64|
                        (exists|ax: int, ay: int|
                            reached_before(*rect, (ax, ay), kx as int, ky + 1)
                                && #[trigger] self.bucket(ax, ay).contains(id)) implies found@.contains(
                        id,
                    ) by {
                        let (ax, ay) = choose|ax: int, ay: int|
                            reached_before(*rect, (ax, ay), kx as int, ky + 1)
                                && #[trigger] self.bucket(ax, ay).contains(id);
                        if ax == kx && ay == ky {
                            assert(here.contains(id));
                        } else {
                            assert(reached_before(*rect, (ax, ay), kx as int, ky as int)
                                && self.bucket(ax, ay).contains(id));
                            assert(before.contains(id));
                        }
                    }
                }
                ky = ky + 1;
            }
            proof {
                assert forall|id: u64|
                    found@.contains(id) <==> exists|ax: int, ay: int|
                        reached_before(*rect, (ax, ay), kx + 1, min_ky as int)
                            && #[trigger] self.bucket(ax, ay).contains(id) by {
                    if found@.contains(id) {
                        let (ax, ay) = choose|ax: int, ay: int|
                            reached_before(*rect, (ax, ay), kx as int, ky as int)
                                && #[trigger] self.bucket(ax, ay).contains(id);
                        assert(reached_before(*rect, (ax, ay), kx + 1, min_ky as int)
                            && self.bucket(ax, ay).contains(id));
                    }
                    if exists|ax: int, ay: int|
                        reached_before(*rect, (ax, ay), kx + 1, min_ky as int)
                            && #[trigger] self.bucket(ax, ay).contains(id) {
                        let (ax, ay) = choose|ax: int, ay: int|
                            reached_before(*rect, (ax, ay), kx + 1, min_ky as int)
                                && #[trigger] self.bucket(ax, ay).contains(id);
                        assert(reached_before(*rect, (ax, ay), kx as int, ky as int)
                            && self.bucket(ax, ay).contains(id));
                    }
                }
            }
            kx = kx + 1;
        }
        proof {
            assert forall|id: u64|
                found@.contains(id) <==> exists|ax: int, ay: int|
                    reaches(*rect, ax, ay) && #[trigger] self.bucket(ax, ay).contains(id) by {
                if found@.contains(id) {
                    let (ax, ay) = choose|ax: int, ay: int|
                        reached_before(*rect, (ax, ay), kx as int, min_ky as int)
                            && #[trigger] self.bucket(ax, ay).contains(id);
                    assert(reaches(*rect, ax, ay) && self.bucket(ax, ay).contains(id));
                }
                if exists|ax: int, ay: int|
                    reaches(*rect, ax, ay) && #[trigger] self.bucket(ax, ay).contains(id) {
                    let (ax, ay) = choose|ax: int, ay: int|
                        reaches(*rect, ax, ay) && #[trigger] self.bucket(ax, ay).contains(id);
                    assert(reached_before(*rect, (ax, ay), kx as int, min_ky as int)
                        && self.bucket(ax, ay).contains(id));
                }
            }
        }
        found
    }

    /// Whether bucket `(kx, ky)` holds `entity`.
    pub fn contains(&self, kx: i32, ky: i32, entity: u64) -> (found: bool)
        ensures
            found == self.bucket(kx as int, ky as int).contains(entity),
    {
        broadcast use vstd::std_specs::hash::group_hash_axioms;

        let key = pack(kx, ky);
        match self.buckets.get(&key) {
            Some(stored) => bucket_contains(stored, entity),
            None => false,
        }
    }

    /// How many identifiers bucket `(kx, ky)` holds.
    pub fn bucket_len(&self, kx: i32, ky: i32) -> (n: usize)
        ensures
            n == self.bucket(kx as int, ky as int).len(),
    {
        broadcast use vstd::std_specs::hash::group_hash_axioms;

        proof {
            use_type_invariant(self);
        }
        let key = pack(kx, ky);
        match self.buckets.get(&key) {
            Some(stored) => {
                proof {
                    bucket_elements(*stored).unique_seq_to_set();
                }
                bucket_len(stored)
            },
            None => 0,
        }
    }
}

/// The square of world units that bucket `(kx, ky)` covers is the one with its corner at
/// `(kx * BUCKET_SIZE, ky * BUCKET_SIZE)`: a rectangle reaches exactly the buckets whose
/// square it overlaps.
pub proof fn lemma_reaches_iff_overlaps(r: IntRect, kx: int, ky: int)
    ensures
        reaches(r, kx, ky) <==> r.overlaps_box(
            kx * BUCKET_SIZE,
            ky * BUCKET_SIZE,
            BUCKET_SIZE as int,
            BUCKET_SIZE as int,
        ),
{
    lemma_floor_div_bounds(r.x as int, BUCKET_SIZE as int, kx);
    lemma_floor_div_bounds(r.x + r.w - 1, BUCKET_SIZE as int, kx);
    lemma_floor_div_bounds(r.y as int, BUCKET_SIZE as int, ky);
    lemma_floor_div_bounds(r.y + r.h - 1, BUCKET_SIZE as int, ky);
}

/// Entering `entity` with `r` puts it into every bucket whose square `r` overlaps, leaves it
/// out of every other bucket that did not hold it before, and moves no other identifier.
pub proof fn lemma_entered_coverage(m: Map<(int, int), Set<u64>>, entity: u64, r: IntRect, kx: int, ky: int)
    ensures
        r.overlaps_box(kx * BUCKET_SIZE, ky * BUCKET_SIZE, BUCKET_SIZE as int, BUCKET_SIZE as int)
            ==> members(entered(m, entity, r), (kx, ky)).contains(entity),
        !r.overlaps_box(kx * BUCKET_SIZE, ky * BUCKET_SIZE, BUCKET_SIZE as int, BUCKET_SIZE as int)
            ==> members(entered(m, entity, r), (kx, ky)) == members(m, (kx, ky)),
        forall|other: u64|
            other != entity ==> members(entered(m, entity, r), (kx, ky)).contains(other) == members(
                m,
                (kx, ky),
            ).contains(other),
{
    lemma_reaches_iff_overlaps(r, kx, ky);
}

/// The bucket map built by entering `entries` one after another into an empty index.
pub open spec fn built(entries: Seq<(u64, IntRect)>) -> Map<(int, int), Set<u64>>
    decreases entries.len(),
{
    if entries.len() == 0 {
        Map::empty()
    } else {
        entered(built(entries.drop_last()), entries.last().0, entries.last().1)
    }
}

/// No identifier is entered twice.
pub open spec fn distinct_entities(entries: Seq<(u64, IntRect)>) -> bool {
    forall|i: int, j: int|
        0 <= i < j < entries.len() ==> (#[trigger] entries[i]).0 != (#[trigger] entries[j]).0
}

/// In an index built from entries with distinct identifiers, a bucket holds the identifier
/// of an entry exactly when the rectangle of the entry overlaps the square of the bucket.
pub proof fn lemma_built_coverage(entries: Seq<(u64, IntRect)>, i: int, kx: int, ky: int)
    requires
        distinct_entities(entries),
        0 <= i < entries.len(),
    ensures
        members(built(entries), (kx, ky)).contains(entries[i].0) <==> entries[i].1.overlaps_box(
            kx * BUCKET_SIZE,
            ky * BUCKET_SIZE,
            BUCKET_SIZE as int,
            BUCKET_SIZE as int,
        ),
    decreases entries.len(),
{
    let rest = entries.drop_last();
    let last = entries.last();
    lemma_entered_coverage(built(rest), last.0, last.1, kx, ky);
    if i == entries.len() - 1 {
        lemma_built_holds_only_entered(rest, last.0, kx, ky);
    } else {
        assert(distinct_entities(rest)) by {
            assert forall|a: int, b: int| 0 <= a < b < rest.len() implies (#[trigger] rest[a]).0 != (
            #[trigger] rest[b]).0 by {
                assert(rest[a] == entries[a] && rest[b] == entries[b]);
            }
        }
        assert(rest[i] == entries[i]);
        assert(entries[i].0 != entries[entries.len() - 1].0);
        lemma_built_coverage(rest, i, kx, ky);
    }
}

/// An index holds no identifier that was not entered.
pub proof fn lemma_built_holds_only_entered(entries: Seq<(u64, IntRect)>, entity: u64, kx: int, ky: int)
    requires
        forall|i: int| 0 <= i < entries.len() ==> (#[trigger] entries[i]).0 != entity,
    ensures
        !members(built(entries), (kx, ky)).contains(entity),
    decreases entries.len(),
{
    if entries.len() > 0 {
        let rest = entries.drop_last();
        let last = entries.last();
        assert forall|i: int| 0 <= i < rest.len() implies (#[trigger] rest[i]).0 != entity by {
            assert(rest[i] == entries[i]);
        }
        lemma_built_holds_only_entered(rest, entity, kx, ky);
        lemma_entered_coverage(built(rest), last.0, last.1, kx, ky);
        assert(last == entries[entries.len() - 1]);
    }
}

/// How often `n` occurs in `sizes`.
spec fn occurrences(sizes: Seq<usize>, n: usize) -> nat
    decreases sizes.len(),
{
    if sizes.len() == 0 {
        0
    } else {
        occurrences(sizes.drop_last(), n) + if sizes.last() == n {
            1nat
        } else {
            0nat
        }
    }
}

proof fn lemma_occurrences_bound(sizes: Seq<usize>, n: usize)
    ensures
        occurrences(sizes, n) <= sizes.len(),
    decreases sizes.len(),
{
    if sizes.len() > 0 {
        lemma_occurrences_bound(sizes.drop_last(), n);
    }
}

/// Counts how often each number occurs in `sizes`: one line for each number that occurs,
/// in ascending order.
fn tally(sizes: &Vec<usize>) -> (report: Vec<(usize, usize)>)
    ensures
        ascending(report@),
        forall|i: int|
            0 <= i < report@.len() ==> (#[trigger] report@[i]).1 > 0 && report@[i].1 == occurrences(
                sizes@,
                report@[i].0,
            ),
        forall|n: usize|
            occurrences(sizes@, n) > 0 ==> exists|i: int|
                0 <= i < report@.len() && (#[trigger] report@[i]).0 == n,
{
    let mut report: Vec<(usize, usize)> = Vec::new();
    let mut i: usize = 0;
    while i < sizes.len()
        invariant
            i <= sizes.len(),
            ascending(report@),
            forall|j: int|
                0 <= j < report@.len() ==> (#[trigger] report@[j]).1 > 0 && report@[j].1 == occurrences(
                    sizes@.take(i as int),
                    report@[j].0,
                ),
            forall|n: usize|
                occurrences(sizes@.take(i as int), n) > 0 ==> exists|j: int|
                    0 <= j < report@.len() && (#[trigger] report@[j]).0 == n,
        decreases sizes.len() - i,
    {
        let size = sizes[i];
        let ghost seen = sizes@.take(i as int);
        let ghost next = sizes@.take(i + 1);
        let ghost was = report@;
        proof {
            assert(next.drop_last() =~= seen);
            assert(next.last() == size);
        }
        let mut p: usize = 0;
        while p < report.len() && report[p].0 < size
            invariant
                p <= report.len(),
                report@ == was,
                forall|j: int| 0 <= j < p ==> (#[trigger] report@[j]).0 < size,
            decreases report.len() - p,
        {
            p = p + 1;
        }
        if p < report.len() && report[p].0 == size {
            let count = report[p].1;
            proof {
                lemma_occurrences_bound(seen, size);
            }
            report.set(p, (size, count + 1));
            proof {
                assert forall|n: usize| occurrences(next, n) > 0 implies exists|j: int|
                    0 <= j < report@.len() && (#[trigger] report@[j]).0 == n by {
                    if n == size {
                        assert(report@[p as int].0 == n);
                    } else {
                        assert(occurrences(next, n) == occurrences(next.drop_last(), n));
                        assert(occurrences(seen, n) > 0);
                        let j = choose|j: int| 0 <= j < was.len() && (#[trigger] was[j]).0 == n;
                        assert(report@[j].0 == n);
                    }
                }
            }
        } else {
            report.insert(p, (size, 1));
            proof {
                assert(occurrences(seen, size) == 0) by {
                    if occurrences(seen, size) > 0 {
                        let j = choose|j: int| 0 <= j < was.len() && (#[trigger] was[j]).0 == size;
                        if j < p {
                        } else {
                            assert(was[p as int].0 <= was[j].0);
                        }
                    }
                }
                assert forall|a: int, b: int| 0 <= a < b < report@.len() implies report@[a].0
                    < report@[b].0 by {
                    if a < p && b > p {
                        assert(was[a].0 < size);
                        assert(was[b - 1].0 >= was[p as int].0);
                    } else if a == p {
                        assert(was[b - 1].0 >= was[p as int].0);
                    } else if b == p {
                    } else if b < p {
                    } else {
                        assert(was[a - 1].0 < was[b - 1].0);
                    }
                }
                assert forall|j: int| 0 <= j < report@.len() implies (#[trigger] report@[j]).1 > 0
                    && report@[j].1 == occurrences(next, report@[j].0) by {
                    if j < p {
                        assert(report@[j] == was[j]);
                    } else if j > p {
                        assert(report@[j] == was[j - 1]);
                        assert(was[j - 1].0 >= was[p as int].0);
                    }
                }
                assert forall|n: usize| occurrences(next, n) > 0 implies exists|j: int|
                    0 <= j < report@.len() && (#[trigger] report@[j]).0 == n by {
                    if n == size {
                        assert(report@[p as int].0 == n);
                    } else {
                        assert(occurrences(next, n) == occurrences(next.drop_last(), n));
                        assert(occurrences(seen, n) > 0);
                        let j = choose|j: int| 0 <= j < was.len() && (#[trigger] was[j]).0 == n;
                        if j < p {
                            assert(report@[j].0 == n);
                        } else {
                            assert(report@[j + 1] == was[j]);
                        }
                    }
                }
            }
        }
        i = i + 1;
    }
    proof {
        assert(sizes@.take(i as int) =~= sizes@);
    }
    report
}

/// The keys of the stored buckets that hold exactly `n` identifiers.
spec fn keys_of_size(stored: Map<i64, Bucket>, n: nat) -> Set<i64> {
    stored.dom().filter(|key: i64| bucket_elements(stored[key]).len() == n)
}

/// Among the sizes of the buckets under `keys`, `n` occurs as often as there are keys
/// among them whose bucket has that size.
proof fn lemma_occurrences_of_sizes(stored: Map<i64, Bucket>, keys: Seq<i64>, sizes: Seq<usize>, n: usize)
    requires
        keys.no_duplicates(),
        sizes.len() == keys.len(),
        forall|i: int| 0 <= i < keys.len() ==> sizes[i] == bucket_elements(stored[#[trigger] keys[i]]).len(),
    ensures
        keys.to_set().filter(|key: i64| bucket_elements(stored[key]).len() == n).finite(),
        occurrences(sizes, n) == keys.to_set().filter(
            |key: i64| bucket_elements(stored[key]).len() == n,
        ).len(),
    decreases keys.len(),
{
    broadcast use vstd::set::group_set_axioms;

    let pick = |key: i64| bucket_elements(stored[key]).len() == n;
    vstd::seq_lib::seq_to_set_is_finite(keys);
    keys.to_set().lemma_len_filter(pick);
    if keys.len() == 0 {
        assert(keys.to_set().filter(pick) =~= Set::<i64>::empty());
    } else {
        let rest = keys.drop_last();
        let last = keys.last();
        assert(sizes.drop_last().len() == rest.len());
        assert forall|i: int| 0 <= i < rest.len() implies sizes.drop_last()[i] == bucket_elements(
            stored[#[trigger] rest[i]],
        ).len() by {
            assert(rest[i] == keys[i]);
        }
        lemma_occurrences_of_sizes(stored, rest, sizes.drop_last(), n);
        vstd::seq_lib::seq_to_set_is_finite(rest);
        rest.to_set().lemma_len_filter(pick);
        assert(!rest.to_set().contains(last)) by {
            if rest.contains(last) {
                let i = choose|i: int| 0 <= i < rest.len() && rest[i] == last;
                assert(keys[i] == keys[keys.len() - 1]);
            }
        }
        assert(keys.to_set() =~= rest.to_set().insert(last)) by {
            assert(keys =~= rest.push(last));
            rest.lemma_push_to_set_commute(last);
        }
        assert(sizes.last() == bucket_elements(stored[keys[keys.len() - 1]]).len());
        if pick(last) {
            assert(keys.to_set().filter(pick) =~= rest.to_set().filter(pick).insert(last));
        } else {
            assert(keys.to_set().filter(pick) =~= rest.to_set().filter(pick));
        }
    }
}

/// The coordinates of the bucket that is stored under `key`.
spec fn coords_of(key: i64) -> (int, int) {
    (floor_div(key as int, 0x1_0000_0000), key as int % 0x1_0000_0000 - 0x8000_0000)
}

proof fn lemma_coords_of_key(key: i64)
    ensures
        is_coord(coords_of(key).0),
        is_coord(coords_of(key).1),
        key_of(coords_of(key).0, coords_of(key).1) == key,
{
}

proof fn lemma_key_of_coords(kx: int, ky: int)
    requires
        is_coord(kx),
        is_coord(ky),
    ensures
        coords_of(key_of(kx, ky) as i64) == (kx, ky),
{
    lemma_coords_of_key(key_of(kx, ky) as i64);
    lemma_key_injective(
        coords_of(key_of(kx, ky) as i64).0,
        coords_of(key_of(kx, ky) as i64).1,
        kx,
        ky,
    );
}

/// As many buckets of the view hold `n` identifiers as there are stored buckets of that
/// size.
proof fn lemma_population_of_view(stored: Map<i64, Bucket>, n: nat)
    requires
        all_sound(stored),
        stored.dom().finite(),
    ensures
        population(view_of(stored), n) == keys_of_size(stored, n).len(),
{
    broadcast use vstd::set::group_set_axioms;

    let view = view_of(stored);
    let x = keys_of_size(stored, n);
    let y = view.dom().filter(|k: (int, int)| view[k].len() == n);
    let f = |key: i64| coords_of(key);
    stored.dom().lemma_len_filter(|key: i64| bucket_elements(stored[key]).len() == n);
    assert(vstd::relations::injective_on(f, x)) by {
        assert forall|a: i64, b: i64| x.contains(a) && x.contains(b) && #[trigger] f(a) == #[trigger] f(
            b,
        ) implies a == b by {
            lemma_coords_of_key(a);
            lemma_coords_of_key(b);
        }
    }
    assert forall|k: (int, int)| x.map(f).contains(k) == y.contains(k) by {
        if x.map(f).contains(k) {
            let key = choose|key: i64| x.contains(key) && k == f(key);
            lemma_coords_of_key(key);
            assert(k == (k.0, k.1));
            bucket_elements(stored[key]).unique_seq_to_set();
            assert(view.dom().contains(k));
            assert(y.contains(k));
        }
        if y.contains(k) {
            assert(k == (k.0, k.1));
            let key = key_of(k.0, k.1) as i64;
            lemma_key_of_coords(k.0, k.1);
            bucket_elements(stored[key]).unique_seq_to_set();
            assert(x.contains(key) && k == f(key));
            assert(x.map(f).contains(k));
        }
    }
    assert(x.map(f) =~= y);
    vstd::set_lib::lemma_map_size(x, y, f);
}

/// The buckets that exist in the stored map, each with the set of identifiers in it.
spec fn view_of(stored: Map<i64, Bucket>) -> Map<(int, int), Set<u64>> {
    Map::new(
        |k: (int, int)| is_coord(k.0) && is_coord(k.1) && stored.contains_key(key_of(k.0, k.1) as i64),
        |k: (int, int)| bucket_elements(stored[key_of(k.0, k.1) as i64]).to_set(),
    )
}

/// No stored bucket is empty, and none stores an identifier twice.
spec fn all_sound(stored: Map<i64, Bucket>) -> bool {
    forall|key: i64| #[trigger]
        stored.contains_key(key) ==> {
            &&& bucket_elements(stored[key]).len() > 0
            &&& bucket_elements(stored[key]).no_duplicates()
        }
}

proof fn lemma_rows_bound(r: IntRect)
    ensures
        0 <= rows(r) <= 0x800_0000,
        -0x400_0000 <= bucket_of(r.x as int) <= 0x400_0000,
        -0x400_0000 <= bucket_of(r.x + r.w - 1) <= 0x400_0000,
        -0x400_0000 <= bucket_of(r.y as int) <= 0x400_0000,
        -0x400_0000 <= bucket_of(r.y + r.h - 1) <= 0x400_0000,
{
}

/// Rows of buckets in the span of `r`.
spec fn rows(r: IntRect) -> int {
    let ny = bucket_of(r.y + r.h - 1) - bucket_of(r.y as int) + 1;
    if ny > 0 {
        ny
    } else {
        0
    }
}

/// Bucket `k` is reached by `r` and comes before `(kx, ky)` in column-major order.
spec fn reached_before(r: IntRect, k: (int, int), kx: int, ky: int) -> bool {
    reaches(r, k.0, k.1) && (k.0 < kx || (k.0 == kx && k.1 < ky))
}

/// The bucket map while `entity` is being entered: done for the buckets before `(kx, ky)`.
spec fn entered_up_to(m: Map<(int, int), Set<u64>>, entity: u64, r: IntRect, kx: int, ky: int) -> Map<
    (int, int),
    Set<u64>,
> {
    Map::new(
        |k: (int, int)| m.contains_key(k) || reached_before(r, k, kx, ky),
        |k: (int, int)|
            if reached_before(r, k, kx, ky) {
                members(m, k).insert(entity)
            } else {
                m[k]
            },
    )
}

proof fn lemma_contains_of_concat(a: Seq<u64>, b: Seq<u64>, v: u64)
    ensures
        (a + b).contains(v) == (a.contains(v) || b.contains(v)),
{
    if a.contains(v) {
        let i = choose|i: int| 0 <= i < a.len() && a[i] == v;
        assert((a + b)[i] == v);
    }
    if b.contains(v) {
        let i = choose|i: int| 0 <= i < b.len() && b[i] == v;
        assert((a + b)[a.len() + i] == v);
    }
    if (a + b).contains(v) {
        let i = choose|i: int| 0 <= i < (a + b).len() && (a + b)[i] == v;
        if i < a.len() {
            assert(a[i] == v);
        } else {
            assert(b[i - a.len()] == v);
        }
    }
}

proof fn lemma_push_keeps_distinct(s: Seq<u64>, v: u64)
    requires
        s.no_duplicates(),
        !s.contains(v),
    ensures
        s.push(v).no_duplicates(),
{
}

} // verus!
