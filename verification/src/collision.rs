//! Axis-aligned collision detection.
//!
//! An entity's real box is its footprint scaled by its per-axis scale
//! factor.  Because scale factors carry the fixed-point unit, every
//! edge here is expressed in units one `FP_ONE`-th of a coordinate
//! unit, which keeps the comparison exact integer arithmetic.

use vstd::prelude::*;
use vstd::arithmetic::mul::{lemma_mul_nonnegative, lemma_mul_upper_bound};
use crate::FP_ONE;
use crate::POS_SLACK;
use crate::entities::Entity;
use crate::entities::entity_in_bounds;

verus! {

/// Left edge of the entity's real box, scaled by `FP_ONE`.
pub open spec fn left_edge(e: Entity) -> int {
    (FP_ONE as int) * e.x
}

/// Right edge of the entity's real box, scaled by `FP_ONE`.
pub open spec fn right_edge(e: Entity) -> int {
    (FP_ONE as int) * e.x + e.width * e.scale.0
}

/// Top edge of the entity's real box, scaled by `FP_ONE`.
pub open spec fn top_edge(e: Entity) -> int {
    (FP_ONE as int) * e.y
}

/// Bottom edge of the entity's real box, scaled by `FP_ONE`.
pub open spec fn bottom_edge(e: Entity) -> int {
    (FP_ONE as int) * e.y + e.height * e.scale.1
}

/// Two spans meet when either span's endpoint falls within the other
/// span, endpoints included: touching edges count.
pub open spec fn spans_meet(a_lo: int, a_hi: int, b_lo: int, b_hi: int) -> bool {
    ||| b_lo <= a_lo <= b_hi
    ||| b_lo <= a_hi <= b_hi
    ||| a_lo <= b_lo <= a_hi
    ||| a_lo <= b_hi <= a_hi
}

/// The overlap test: the boxes' horizontal spans meet and their
/// vertical spans meet.
pub open spec fn boxes_overlap(a: Entity, b: Entity) -> bool {
    &&& spans_meet(left_edge(a), right_edge(a), left_edge(b), right_edge(b))
    &&& spans_meet(top_edge(a), bottom_edge(a), top_edge(b), bottom_edge(b))
}

/// Collision is order-independent: testing the pair either way
/// around gives the same answer.
pub proof fn lemma_overlap_symmetric(a: Entity, b: Entity)
    ensures
        boxes_overlap(a, b) == boxes_overlap(b, a),
{
}

/// The scaled footprint extents of an in-bounds entity are
/// nonnegative and small enough for edge arithmetic.
pub proof fn lemma_extent_bounds(e: Entity)
    requires
        0 <= e.width <= crate::SIZE_LIMIT,
        0 <= e.height <= crate::SIZE_LIMIT,
        0 <= e.scale.0 <= crate::SIZE_LIMIT,
        0 <= e.scale.1 <= crate::SIZE_LIMIT,
    ensures
        0 <= e.width * e.scale.0 <= 1_000_000_000_000,
        0 <= e.height * e.scale.1 <= 1_000_000_000_000,
{
    lemma_mul_nonnegative(e.width as int, e.scale.0 as int);
    lemma_mul_upper_bound(e.width as int, 1_000_000, e.scale.0 as int, 1_000_000);
    lemma_mul_nonnegative(e.height as int, e.scale.1 as int);
    lemma_mul_upper_bound(e.height as int, 1_000_000, e.scale.1 as int, 1_000_000);
}

/// Pure overlap query on two entities.
pub fn overlaps(a: &Entity, b: &Entity) -> (r: bool)
    requires
        entity_in_bounds(*a, POS_SLACK as int),
        entity_in_bounds(*b, POS_SLACK as int),
    ensures
        r == boxes_overlap(*a, *b),
{
    proof {
        lemma_extent_bounds(*a);
        lemma_extent_bounds(*b);
    }
    let a_x_lo: i64 = FP_ONE * a.x;
    let a_x_hi: i64 = FP_ONE * a.x + a.width * a.scale.0;
    let a_y_lo: i64 = FP_ONE * a.y;
    let a_y_hi: i64 = FP_ONE * a.y + a.height * a.scale.1;
    let b_x_lo: i64 = FP_ONE * b.x;
    let b_x_hi: i64 = FP_ONE * b.x + b.width * b.scale.0;
    let b_y_lo: i64 = FP_ONE * b.y;
    let b_y_hi: i64 = FP_ONE * b.y + b.height * b.scale.1;

    let x_meet = (b_x_lo <= a_x_lo && a_x_lo <= b_x_hi) || (b_x_lo <= a_x_hi && a_x_hi <= b_x_hi)
        || (a_x_lo <= b_x_lo && b_x_lo <= a_x_hi) || (a_x_lo <= b_x_hi && b_x_hi <= a_x_hi);
    let y_meet = (b_y_lo <= a_y_lo && a_y_lo <= b_y_hi) || (b_y_lo <= a_y_hi && a_y_hi <= b_y_hi)
        || (a_y_lo <= b_y_lo && b_y_lo <= a_y_hi) || (a_y_lo <= b_y_hi && b_y_hi <= a_y_hi);
    x_meet && y_meet
}

/// The side-effecting collision test: on overlap both entities'
/// `collided` flags are set (idempotently) and `true` is returned;
/// without overlap both entities are left untouched.
pub fn test_and_mark(a: &mut Entity, b: &mut Entity) -> (r: bool)
    requires
        entity_in_bounds(*old(a), POS_SLACK as int),
        entity_in_bounds(*old(b), POS_SLACK as int),
    ensures
        r == boxes_overlap(*old(a), *old(b)),
        *final(a) == (Entity { collided: old(a).collided || r, ..*old(a) }),
        *final(b) == (Entity { collided: old(b).collided || r, ..*old(b) }),
{
    let hit = overlaps(a, b);
    if hit {
        a.collided = true;
        b.collided = true;
    }
    hit
}

} // verus!
