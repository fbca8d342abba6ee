//! Turning commands into drawing operations.
//!
//! The pen starts at the origin. An absolute command draws to the point that
//! its arguments name, a relative one to the point that lies by its
//! arguments from the pen. Every command but the closing one leaves the pen
//! at the end point of what it drew; the closing one leaves it where it was.
//!
//! The smooth commands draw a quadratic curve through the one control point
//! they are given; they do not mirror the control point of a curve before
//! them.
//!
//! The pen cannot leave the range of `i128`: an argument moves it by less
//! than `STEP_LIMIT`, and a list holds no more than `usize::MAX` commands.
use vstd::prelude::*;
use crate::command::{commands_view, Command};
use crate::path::{at, ops_view, origin, resting_point, PathOp, Point};

verus! {

/// The farthest that one argument can move the pen along an axis.
pub const STEP_LIMIT: i128 = 0x8000_0000_0000_0000;

/// The point that lies by `dx` and `dy` from `from`.
pub open spec fn shifted(from: Point<int>, dx: int, dy: int) -> Point<int> {
    Point { x: from.x + dx, y: from.y + dy }
}

/// The operation that a command draws with the pen at `pen`.
pub open spec fn operation(pen: Point<int>, command: Command<int>) -> PathOp<int> {
    match command {
        Command::MoveAbs(x, y) => PathOp::MoveTo(at(x, y)),
        Command::MoveRel(dx, dy) => PathOp::MoveTo(shifted(pen, dx, dy)),
        Command::LineAbs(x, y) => PathOp::LineTo(at(x, y)),
        Command::LineRel(dx, dy) => PathOp::LineTo(shifted(pen, dx, dy)),
        Command::VerticalAbs(y) => PathOp::LineTo(at(pen.x, y)),
        Command::VerticalRel(dy) => PathOp::LineTo(shifted(pen, 0, dy)),
        Command::HorizontalAbs(x) => PathOp::LineTo(at(x, pen.y)),
        Command::HorizontalRel(dx) => PathOp::LineTo(shifted(pen, dx, 0)),
        Command::CubicAbs(x1, y1, x2, y2, x, y) => PathOp::CubicTo(
            at(x1, y1),
            at(x2, y2),
            at(x, y),
        ),
        Command::CubicRel(dx1, dy1, dx2, dy2, dx, dy) => PathOp::CubicTo(
            shifted(pen, dx1, dy1),
            shifted(pen, dx2, dy2),
            shifted(pen, dx, dy),
        ),
        Command::SmoothAbs(x1, y1, x, y) => PathOp::QuadTo(at(x1, y1), at(x, y)),
        Command::SmoothRel(dx1, dy1, dx, dy) => PathOp::QuadTo(
            shifted(pen, dx1, dy1),
            shifted(pen, dx, dy),
        ),
        Command::Close => PathOp::Close,
    }
}

/// Where an operation leaves a pen that was at `pen`.
pub open spec fn pen_after(pen: Point<int>, op: PathOp<int>) -> Point<int> {
    match op {
        PathOp::MoveTo(to) => to,
        PathOp::LineTo(to) => to,
        PathOp::QuadTo(_, to) => to,
        PathOp::CubicTo(_, _, to) => to,
        PathOp::Close => pen,
    }
}

/// Where the pen is and what has been drawn.
pub struct Trace {
    pub pen: Point<int>,
    pub ops: Seq<PathOp<int>>,
}

/// The trace of a list of commands carried out in order.
pub open spec fn run(commands: Seq<Command<int>>) -> Trace
    decreases commands.len(),
{
    if commands.len() == 0 {
        Trace { pen: origin(), ops: Seq::empty() }
    } else {
        let before = run(commands.drop_last());
        let op = operation(before.pen, commands.last());
        Trace { pen: pen_after(before.pen, op), ops: before.ops.push(op) }
    }
}

/// Whether both coordinates lie within `bound` of zero.
pub open spec fn within(p: Point<int>, bound: int) -> bool {
    -bound <= p.x <= bound && -bound <= p.y <= bound
}

/// The absolute command for the points that a command draws to with the pen
/// at `pen`.
pub open spec fn made_absolute(pen: Point<int>, command: Command<int>) -> Command<int> {
    match command {
        Command::MoveRel(dx, dy) => Command::MoveAbs(pen.x + dx, pen.y + dy),
        Command::LineRel(dx, dy) => Command::LineAbs(pen.x + dx, pen.y + dy),
        Command::VerticalRel(dy) => Command::VerticalAbs(pen.y + dy),
        Command::HorizontalRel(dx) => Command::HorizontalAbs(pen.x + dx),
        Command::CubicRel(dx1, dy1, dx2, dy2, dx, dy) => Command::CubicAbs(
            pen.x + dx1,
            pen.y + dy1,
            pen.x + dx2,
            pen.y + dy2,
            pen.x + dx,
            pen.y + dy,
        ),
        Command::SmoothRel(dx1, dy1, dx, dy) => Command::SmoothAbs(
            pen.x + dx1,
            pen.y + dy1,
            pen.x + dx,
            pen.y + dy,
        ),
        _ => command,
    }
}

/// A relative command draws what the absolute command for the same points
/// draws.
pub proof fn lemma_relative_matches_absolute(pen: Point<int>, command: Command<int>)
    ensures
        operation(pen, made_absolute(pen, command)) == operation(pen, command),
{
}

/// After any list of commands the pen rests at the end point of the last
/// move, line or curve that was drawn, however many commands it took to get
/// there; before the first of them it rests at the origin.
pub proof fn lemma_pen_rests_where_drawing_ended(commands: Seq<Command<int>>)
    ensures
        run(commands).pen == resting_point(run(commands).ops),
    decreases commands.len(),
{
    if commands.len() > 0 {
        let before = run(commands.drop_last());
        lemma_pen_rests_where_drawing_ended(commands.drop_last());
        let op = operation(before.pen, commands.last());
        assert(before.ops.push(op).drop_last() == before.ops);
    }
}

/// Every command adds one operation.
pub proof fn lemma_one_operation_each(commands: Seq<Command<int>>)
    ensures
        run(commands).ops.len() == commands.len(),
    decreases commands.len(),
{
    if commands.len() > 0 {
        lemma_one_operation_each(commands.drop_last());
    }
}

fn shift(from: Point<i128>, dx: i64, dy: i64) -> (to: Point<i128>)
    requires
        within(from@, i128::MAX - STEP_LIMIT),
    ensures
        to@ == shifted(from@, dx as int, dy as int),
{
    Point { x: from.x + dx as i128, y: from.y + dy as i128 }
}

fn place(x: i64, y: i64) -> (to: Point<i128>)
    ensures
        to@ == at(x as int, y as int),
{
    Point { x: x as i128, y: y as i128 }
}

/// Carries out one command with the pen at `pen`: returns where the pen is
/// afterwards, and the operation that was drawn.
pub fn apply(pen: Point<i128>, command: Command<i64>) -> (r: (Point<i128>, PathOp<i128>))
    requires
        within(pen@, i128::MAX - STEP_LIMIT),
    ensures
        r.1@ == operation(pen@, command@),
        r.0@ == pen_after(pen@, r.1@),
{
    let op = match command {
        Command::MoveAbs(x, y) => PathOp::MoveTo(place(x, y)),
        Command::MoveRel(dx, dy) => PathOp::MoveTo(shift(pen, dx, dy)),
        Command::LineAbs(x, y) => PathOp::LineTo(place(x, y)),
        Command::LineRel(dx, dy) => PathOp::LineTo(shift(pen, dx, dy)),
        Command::VerticalAbs(y) => PathOp::LineTo(Point { x: pen.x, y: y as i128 }),
        Command::VerticalRel(dy) => PathOp::LineTo(shift(pen, 0, dy)),
        Command::HorizontalAbs(x) => PathOp::LineTo(Point { x: x as i128, y: pen.y }),
        Command::HorizontalRel(dx) => PathOp::LineTo(shift(pen, dx, 0)),
        Command::CubicAbs(x1, y1, x2, y2, x, y) => PathOp::CubicTo(
            place(x1, y1),
            place(x2, y2),
            place(x, y),
        ),
        Command::CubicRel(dx1, dy1, dx2, dy2, dx, dy) => PathOp::CubicTo(
            shift(pen, dx1, dy1),
            shift(pen, dx2, dy2),
            shift(pen, dx, dy),
        ),
        Command::SmoothAbs(x1, y1, x, y) => PathOp::QuadTo(place(x1, y1), place(x, y)),
        Command::SmoothRel(dx1, dy1, dx, dy) => PathOp::QuadTo(
            shift(pen, dx1, dy1),
            shift(pen, dx, dy),
        ),
        Command::Close => PathOp::Close,
    };
    let to = match op {
        PathOp::MoveTo(to) => to,
        PathOp::LineTo(to) => to,
        PathOp::QuadTo(_, to) => to,
        PathOp::CubicTo(_, _, to) => to,
        PathOp::Close => pen,
    };
    (to, op)
}

/// Carries out the commands in order, the pen starting at the origin, and
/// returns what was drawn: one operation for each command.
pub fn interpret(commands: &Vec<Command<i64>>) -> (ops: Vec<PathOp<i128>>)
    ensures
        ops_view(ops@) == run(commands_view(commands@)).ops,
        ops.len() == commands.len(),
{
    let mut ops: Vec<PathOp<i128>> = Vec::new();
    let mut pen: Point<i128> = Point { x: 0, y: 0 };
    let mut i: usize = 0;
    assert(commands_view(commands@).take(0) =~= Seq::empty());
    assert(ops_view(ops@) =~= Seq::empty());
    while i < commands.len()
        invariant
            i <= commands.len(),
            ops.len() == i,
            within(pen@, i * STEP_LIMIT),
            run(commands_view(commands@).take(i as int)) == (Trace {
                pen: pen@,
                ops: ops_view(ops@),
            }),
        decreases commands.len() - i,
    {
        let ghost all = commands_view(commands@);
        let ghost drawn = ops_view(ops@);
        proof {
            assert(all.take(i + 1).drop_last() == all.take(i as int));
            assert(all.take(i + 1).last() == commands[i as int]@);
        }
        let (to, op) = apply(pen, commands[i]);
        pen = to;
        ops.push(op);
        assert(ops_view(ops@) =~= drawn.push(op@));
        i = i + 1;
    }
    assert(commands_view(commands@).take(i as int) == commands_view(commands@));
    ops
}

} // verus!
