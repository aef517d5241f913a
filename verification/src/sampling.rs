//! Rejection sampling of points uniformly distributed over the closed unit
//! disk, five of which make up one trial.

use vstd::prelude::*;
use rand::Rng;
use crate::geometry::Point;

verus! {

/// One coordinate unit is 1/SCALE of the disk's radius.
pub const SCALE: i32 = 1_000_000;

/// `p` lies inside or on the unit circle; the bound is SCALE * SCALE written
/// as a literal.
pub open spec fn in_disk(p: (int, int)) -> bool {
    p.0 * p.0 + p.1 * p.1 <= 1_000_000_000_000
}

#[verifier::external_type_specification]
#[verifier::external_body]
pub struct ExThreadRng(rand::rngs::ThreadRng);

/// Relies on rand::Rng::gen_range on an inclusive integer range: the sampled
/// value lies between the bounds; the call panics only on an empty range,
/// which the precondition rules out.
#[verifier::external_body]
fn gen_range_i32(rng: &mut rand::rngs::ThreadRng, lo: i32, hi: i32) -> (r: i32)
    requires
        lo <= hi,
    ensures
        lo <= r <= hi,
{
    rng.gen_range(lo..=hi)
}

/// Relies on rand::thread_rng: a handle to the thread-local random generator.
#[verifier::external_body]
pub fn new_rng() -> rand::rngs::ThreadRng {
    rand::thread_rng()
}

/// An ordered collection of exactly five points, all inside or on the unit
/// circle.
pub struct Trial {
    pub points: Vec<Point>,
}

impl Trial {
    pub open spec fn wf(self) -> bool {
        self.points@.len() == 5
        && forall|j: int| 0 <= j < self.points@.len() ==> in_disk(self.points@[j]@)
    }
}

/// Draws coordinates uniformly from the enclosing square and keeps the first
/// draw that falls within the disk. Each draw is accepted with chance pi/4,
/// so the explicit attempt bound, which termination checking asks for, is
/// never exhausted in practice; the fallback is the disk's center.
pub fn sample_point(rng: &mut rand::rngs::ThreadRng) -> (p: Point)
    ensures
        in_disk(p@),
{
    let mut fuel: u64 = 0xffff_ffff_ffff_ffff;
    while fuel > 0
        decreases fuel,
    {
        let x = gen_range_i32(rng, -SCALE, SCALE);
        let y = gen_range_i32(rng, -SCALE, SCALE);
        proof {
            assert(0 <= (x as int) * (x as int) <= 1_000_000_000_000) by (nonlinear_arith)
                requires
                    -1_000_000 <= x as int <= 1_000_000,
            ;
            assert(0 <= (y as int) * (y as int) <= 1_000_000_000_000) by (nonlinear_arith)
                requires
                    -1_000_000 <= y as int <= 1_000_000,
            ;
        }
        let xx = (x as i64) * (x as i64);
        let yy = (y as i64) * (y as i64);
        if xx + yy <= 1_000_000_000_000i64 {
            return Point { x, y };
        }
        fuel -= 1;
    }
    Point { x: 0, y: 0 }
}

/// Collects five accepted points into one trial.
pub fn sample_trial(rng: &mut rand::rngs::ThreadRng) -> (t: Trial)
    ensures
        t.wf(),
{
    let mut points: Vec<Point> = Vec::new();
    while points.len() < 5
        invariant
            points@.len() <= 5,
            forall|j: int| 0 <= j < points@.len() ==> in_disk(points@[j]@),
        decreases 5 - points@.len(),
    {
        let p = sample_point(rng);
        points.push(p);
    }
    Trial { points }
}

} // verus!
