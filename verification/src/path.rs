//! Points and drawing operations in fixed-point coordinates.
//!
//! A coordinate is a whole number of millionths of a user unit, so `1_500_000`
//! stands for 1.5. The same two types serve executable code, with `i128`
//! coordinates, and specifications, with unbounded `int` coordinates; the view
//! of the one is the other.
use vstd::prelude::*;

verus! {

/// How many coordinate steps make up one user unit.
pub const SCALE: i64 = 1_000_000;

/// A position in the plane.
#[derive(Clone, Copy, PartialEq, Eq, Debug)]
pub struct Point<T> {
    pub x: T,
    pub y: T,
}

/// One primitive drawing operation, with absolute coordinates.
#[derive(Clone, Copy, PartialEq, Eq, Debug)]
pub enum PathOp<T> {
    /// Start a new subpath at the point.
    MoveTo(Point<T>),
    /// Straight line from the current point to the point.
    LineTo(Point<T>),
    /// Quadratic curve: control point, then end point.
    QuadTo(Point<T>, Point<T>),
    /// Cubic curve: first and second control point, then end point.
    CubicTo(Point<T>, Point<T>, Point<T>),
    /// Close the current subpath.
    Close,
}

impl View for Point<i128> {
    type V = Point<int>;

    open spec fn view(&self) -> Point<int> {
        Point { x: self.x as int, y: self.y as int }
    }
}

impl View for PathOp<i128> {
    type V = PathOp<int>;

    open spec fn view(&self) -> PathOp<int> {
        match *self {
            PathOp::MoveTo(p) => PathOp::MoveTo(p@),
            PathOp::LineTo(p) => PathOp::LineTo(p@),
            PathOp::QuadTo(c, p) => PathOp::QuadTo(c@, p@),
            PathOp::CubicTo(c1, c2, p) => PathOp::CubicTo(c1@, c2@, p@),
            PathOp::Close => PathOp::Close,
        }
    }
}

/// The point with the given coordinates.
pub open spec fn at(x: int, y: int) -> Point<int> {
    Point { x, y }
}

/// The origin, where every path starts.
pub open spec fn origin() -> Point<int> {
    Point { x: 0, y: 0 }
}

/// The operations of an executable path, each by its view.
pub open spec fn ops_view(ops: Seq<PathOp<i128>>) -> Seq<PathOp<int>> {
    ops.map_values(|op: PathOp<i128>| op@)
}

/// Where an operation leaves the pen, if it moves it at all.
pub open spec fn endpoint(op: PathOp<int>) -> Option<Point<int>> {
    match op {
        PathOp::MoveTo(p) => Some(p),
        PathOp::LineTo(p) => Some(p),
        PathOp::QuadTo(_, p) => Some(p),
        PathOp::CubicTo(_, _, p) => Some(p),
        PathOp::Close => None,
    }
}

/// Where a run of operations leaves the pen: at the end point of the last
/// operation that has one, and at the origin where none has.
pub open spec fn resting_point(ops: Seq<PathOp<int>>) -> Point<int>
    decreases ops.len(),
{
    if ops.len() == 0 {
        origin()
    } else {
        match endpoint(ops.last()) {
            Some(p) => p,
            None => resting_point(ops.drop_last()),
        }
    }
}

} // verus!
