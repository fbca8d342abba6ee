//! A circle drawn with four cubic curves.
//!
//! The curve starts at the rightmost point of the circle and passes, one
//! quarter at a time, through the point with the least y, the leftmost point
//! and the point with the greatest y, back to where it started. With y
//! growing downwards these are the top, the left and the bottom. Each quarter
//! has its two control points on the tangents at its ends, at 0.5522847498
//! of the radius from them. The path is not closed by an operation of its
//! own: the last curve ends on the starting point.
use vstd::prelude::*;
use crate::path::{at, endpoint, ops_view, PathOp, Point};

verus! {

/// The distance of a control point from the end of its quarter, for a radius
/// of ten thousand million.
pub const KAPPA: i128 = 5_522_847_498;

/// The radius for which `KAPPA` is stated.
pub const KAPPA_RADIUS: i128 = 10_000_000_000;

/// Why no circle was drawn.
#[derive(Clone, Copy, PartialEq, Eq, Debug)]
pub enum CircleError {
    /// The radius is zero or negative.
    InvalidRadius,
}

/// The distance of the control points from the ends of their quarter, cut
/// off to whole millionths.
pub open spec fn control_offset(radius: int) -> int {
    radius * KAPPA / (KAPPA_RADIUS as int)
}

/// The operations that draw the circle of radius `r` about `(cx, cy)`.
pub open spec fn circle(r: int, cx: int, cy: int) -> Seq<PathOp<int>> {
    let k = control_offset(r);
    seq![
        PathOp::MoveTo(at(cx + r, cy)),
        PathOp::CubicTo(at(cx + r, cy - k), at(cx + k, cy - r), at(cx, cy - r)),
        PathOp::CubicTo(at(cx - k, cy - r), at(cx - r, cy - k), at(cx - r, cy)),
        PathOp::CubicTo(at(cx - r, cy + k), at(cx - k, cy + r), at(cx, cy + r)),
        PathOp::CubicTo(at(cx + k, cy + r), at(cx + r, cy + k), at(cx + r, cy)),
    ]
}

/// Whatever the radius and the centre, the circle is a move to its rightmost
/// point and four cubic curves, of which the last ends on that point again.
pub proof fn lemma_circle_returns_to_its_start(r: int, cx: int, cy: int)
    ensures
        circle(r, cx, cy).len() == 5,
        circle(r, cx, cy)[0] == PathOp::MoveTo(at(cx + r, cy)),
        forall|i: int| 1 <= i < 5 ==> (#[trigger] circle(r, cx, cy)[i]) is CubicTo,
        endpoint(circle(r, cx, cy)[4]) == Some(at(cx + r, cy)),
{
}

/// Draws the circle of the given radius about `(x, y)`, all three in
/// millionths.
///
/// Fails with `InvalidRadius` where the radius is not positive.
pub fn build_circle(radius: i64, x: i64, y: i64) -> (r: Result<Vec<PathOp<i128>>, CircleError>)
    ensures
        radius <= 0 <==> r is Err,
        r matches Ok(ops) ==> ops_view(ops@) == circle(radius as int, x as int, y as int),
{
    if radius <= 0 {
        return Err(CircleError::InvalidRadius);
    }
    let r = radius as i128;
    let cx = x as i128;
    let cy = y as i128;
    assert(0 <= r * KAPPA <= 0x8000_0000_0000_0000 * KAPPA) by (nonlinear_arith)
        requires
            0 <= r <= 0x8000_0000_0000_0000,
    ;
    let k = r * KAPPA / KAPPA_RADIUS;
    assert(0 <= k <= r) by (nonlinear_arith)
        requires
            0 <= r,
            k == r * KAPPA / (KAPPA_RADIUS as int),
    ;
    let mut ops: Vec<PathOp<i128>> = Vec::new();
    ops.push(PathOp::MoveTo(Point { x: cx + r, y: cy }));
    ops.push(
        PathOp::CubicTo(
            Point { x: cx + r, y: cy - k },
            Point { x: cx + k, y: cy - r },
            Point { x: cx, y: cy - r },
        ),
    );
    ops.push(
        PathOp::CubicTo(
            Point { x: cx - k, y: cy - r },
            Point { x: cx - r, y: cy - k },
            Point { x: cx - r, y: cy },
        ),
    );
    ops.push(
        PathOp::CubicTo(
            Point { x: cx - r, y: cy + k },
            Point { x: cx - k, y: cy + r },
            Point { x: cx, y: cy + r },
        ),
    );
    ops.push(
        PathOp::CubicTo(
            Point { x: cx + k, y: cy + r },
            Point { x: cx + r, y: cy + k },
            Point { x: cx + r, y: cy },
        ),
    );
    assert(ops_view(ops@) =~= circle(radius as int, x as int, y as int));
    Ok(ops)
}

} // verus!
