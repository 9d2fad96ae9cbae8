use vstd::prelude::*;

verus! {

use crate::point::{Point, UNIT_HALF, lemma_unit_cube_norm_sq};

/// Relies on rand::random: draws a value from the thread-local generator.
/// The result depends on the generator's state, so nothing is promised of
/// it; every caller must cope with every possible value.
pub assume_specification<T>[ rand::random::<T> ]() -> (r: T)
    where
        rand::distributions::Standard: rand::distributions::Distribution<T>,
;

/// Draws one fixed-point coordinate from `[-UNIT_HALF, UNIT_HALF]`, the
/// range standing for `[-0.5, 0.5]`.
fn rnd() -> (c: i64)
    ensures
        -UNIT_HALF <= c <= UNIT_HALF,
{
    let raw: u64 = rand::random();
    let span: u64 = 1_000_001;
    let m: u64 = raw % span;
    (m as i64) - UNIT_HALF
}

/// Rejection sampling never makes more than this many draws for one
/// requested point; a pathologically small radius therefore cannot hang
/// the generator.
pub const ATTEMPTS_PER_POINT: usize = 10_000;

/// The generator's acceptance rule: the point lies strictly inside the
/// sphere of squared radius `radius_sq`.
pub open spec fn accepted(p: Point, radius_sq: i64) -> bool {
    p.norm_sq() < radius_sq
}

/// The members of `s` that the acceptance rule keeps, in order.
pub open spec fn accepted_of(s: Seq<Point>, radius_sq: i64) -> Seq<Point> {
    s.filter(|p: Point| p.norm_sq() < radius_sq)
}

/// Generates `n` random points of the cube `[-0.5, 0.5]^3`, keeping only
/// candidates with squared norm strictly below `radius_sq` (rejection
/// sampling). Returns `None` when the attempt budget runs out before `n`
/// candidates are accepted, which cannot happen once the sphere of squared
/// radius `radius_sq` covers the whole sampling cube.
pub fn generate_vertices(n: usize, radius_sq: i64) -> (r: Option<Vec<Point>>)
    requires
        n <= 255,
    ensures
        (match r {
            Some(v) => {
                &&& v@.len() == n
                &&& forall|k: int|
                    0 <= k < v@.len() ==> (#[trigger] v@[k]).in_unit_cube() && v@[k].norm_sq()
                        < radius_sq
            },
            None => true,
        }),
        radius_sq > 3 * UNIT_HALF * UNIT_HALF ==> r is Some,
{
    let max_attempts: usize = ATTEMPTS_PER_POINT * n;
    let mut attempts: usize = 0;
    let mut pts: Vec<Point> = Vec::new();
    while pts.len() < n && attempts < max_attempts
        invariant
            max_attempts == ATTEMPTS_PER_POINT * n,
            n <= 255,
            pts@.len() <= n,
            attempts <= max_attempts,
            forall|k: int|
                0 <= k < pts@.len() ==> (#[trigger] pts@[k]).in_unit_cube() && pts@[k].norm_sq()
                    < radius_sq,
            radius_sq > 3 * UNIT_HALF * UNIT_HALF ==> pts@.len() == attempts,
        decreases max_attempts - attempts,
    {
        attempts = attempts + 1;
        let p = Point { x: rnd(), y: rnd(), z: rnd() };
        if p.squared_norm() < radius_sq {
            pts.push(p);
        } else {
            proof {
                lemma_unit_cube_norm_sq(p);
            }
        }
    }
    if pts.len() == n {
        Some(pts)
    } else {
        None
    }
}

/// Keeps the first `n` members of `candidates` that the acceptance rule
/// keeps, or returns `None` when fewer than `n` qualify. This is the
/// generator's rule applied to a candidate stream the caller supplies, so
/// a caller with a seeded source of randomness gets a reproducible cloud.
pub fn select_within(candidates: &Vec<Point>, n: usize, radius_sq: i64) -> (r: Option<Vec<Point>>)
    requires
        forall|k: int| 0 <= k < candidates@.len() ==> (#[trigger] candidates@[k]).in_bounds(),
    ensures
        (match r {
            Some(v) => {
                &&& v@.len() == n
                &&& exists|m: int|
                    0 <= m <= candidates@.len() && v@ == accepted_of(
                        #[trigger] candidates@.take(m),
                        radius_sq,
                    )
            },
            None => accepted_of(candidates@, radius_sq).len() < n,
        }),
        r is Some <==> accepted_of(candidates@, radius_sq).len() >= n,
{
    let mut pts: Vec<Point> = Vec::new();
    let mut i: usize = 0;
    while i < candidates.len() && pts.len() < n
        invariant
            i <= candidates@.len(),
            pts@.len() <= n,
            pts@ == accepted_of(candidates@.take(i as int), radius_sq),
            forall|k: int| 0 <= k < candidates@.len() ==> (#[trigger] candidates@[k]).in_bounds(),
        decreases candidates@.len() - i,
    {
        let p = candidates[i];
        proof {
            lemma_accepted_take_step(candidates@, radius_sq, i as int);
        }
        if p.squared_norm() < radius_sq {
            pts.push(p);
        }
        i = i + 1;
    }
    proof {
        if i == candidates@.len() {
            assert(candidates@.take(i as int) =~= candidates@);
        } else {
            lemma_accepted_take_le(candidates@, radius_sq, i as int);
        }
    }
    if pts.len() == n {
        Some(pts)
    } else {
        None
    }
}

/// Accepting one more candidate either appends it (when the rule keeps it)
/// or leaves the accepted sequence as it was.
proof fn lemma_accepted_take_step(s: Seq<Point>, radius_sq: i64, i: int)
    requires
        0 <= i < s.len(),
    ensures
        accepted_of(s.take(i + 1), radius_sq) == if accepted(s[i], radius_sq) {
            accepted_of(s.take(i), radius_sq).push(s[i])
        } else {
            accepted_of(s.take(i), radius_sq)
        },
{
    reveal(Seq::filter);
    assert(s.take(i + 1).drop_last() =~= s.take(i));
    assert(s.take(i + 1).last() == s[i]);
}

/// A prefix never holds more accepted members than the whole sequence.
proof fn lemma_accepted_take_le(s: Seq<Point>, radius_sq: i64, i: int)
    requires
        0 <= i <= s.len(),
    ensures
        accepted_of(s.take(i), radius_sq).len() <= accepted_of(s, radius_sq).len(),
    decreases s.len() - i,
{
    if i == s.len() {
        assert(s.take(i) =~= s);
    } else {
        lemma_accepted_take_step(s, radius_sq, i);
        lemma_accepted_take_le(s, radius_sq, i + 1);
    }
}

} // verus!
