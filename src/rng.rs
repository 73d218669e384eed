//! Random draws for the parts of a frame that are left to chance: where an
//! enemy appears, and how a spread shot scatters.
use vstd::prelude::*;
use crate::geom::{Point, POS_SCALE, WIDTH, HEIGHT};
use crate::player::{SPREAD_COUNT, SPREAD_RADIUS, offsets_ok};

verus! {

/// Relies on `rand::Rng::gen_range` on `rand::thread_rng()`: a value drawn
/// from the inclusive range `lo..=hi`, which panics only when the range is
/// empty.
#[verifier::external_body]
fn random_in(lo: i64, hi: i64) -> (r: i64)
    requires
        lo <= hi,
    ensures
        lo <= r <= hi,
{
    rand::Rng::gen_range(&mut rand::thread_rng(), lo..=hi)
}

/// A random point of the play-field, which is centered on the origin; its
/// right and top edges are left out.
pub fn random_field_point() -> (p: Point)
    ensures
        -WIDTH * POS_SCALE / 2 <= p.x < WIDTH * POS_SCALE / 2,
        -HEIGHT * POS_SCALE / 2 <= p.y < HEIGHT * POS_SCALE / 2,
        p.in_range(),
{
    let x = random_in(-WIDTH * POS_SCALE / 2, WIDTH * POS_SCALE / 2 - 1);
    let y = random_in(-HEIGHT * POS_SCALE / 2, HEIGHT * POS_SCALE / 2 - 1);
    Point { x, y }
}

/// Aim offsets for one spread shot, each drawn on each axis from
/// `-SPREAD_RADIUS..=SPREAD_RADIUS`.
pub fn random_spread_offsets() -> (offsets: Vec<Point>)
    ensures
        offsets_ok(offsets@),
{
    let mut offsets: Vec<Point> = Vec::new();
    let mut i: usize = 0;
    while i < SPREAD_COUNT
        invariant
            i <= SPREAD_COUNT,
            offsets.len() == i,
            forall|j: int|
                0 <= j < offsets.len() ==> -SPREAD_RADIUS <= #[trigger] offsets@[j].x <= SPREAD_RADIUS
                    && -SPREAD_RADIUS <= offsets@[j].y <= SPREAD_RADIUS,
        decreases SPREAD_COUNT - i,
    {
        let x = random_in(-SPREAD_RADIUS, SPREAD_RADIUS);
        let y = random_in(-SPREAD_RADIUS, SPREAD_RADIUS);
        offsets.push(Point { x, y });
        i = i + 1;
    }
    offsets
}

} // verus!
