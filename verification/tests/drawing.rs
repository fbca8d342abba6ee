use raqote_utils::command::Command;
use raqote_utils::draw::{apply, interpret};
use raqote_utils::{PathOp, Point};

fn at(x: i128, y: i128) -> Point<i128> {
    Point { x, y }
}

#[test]
fn absolute_move_goes_to_its_arguments() {
    assert_eq!(
        apply(at(5, 6), Command::MoveAbs(10, 20)),
        (at(10, 20), PathOp::MoveTo(at(10, 20)))
    );
}

#[test]
fn relative_move_adds_to_the_pen() {
    assert_eq!(
        apply(at(5, 6), Command::MoveRel(10, 20)),
        (at(15, 26), PathOp::MoveTo(at(15, 26)))
    );
}

#[test]
fn lines_absolute_and_relative() {
    assert_eq!(apply(at(5, 6), Command::LineAbs(-1, -2)), (at(-1, -2), PathOp::LineTo(at(-1, -2))));
    assert_eq!(apply(at(5, 6), Command::LineRel(-1, -2)), (at(4, 4), PathOp::LineTo(at(4, 4))));
}

#[test]
fn vertical_lines_keep_x() {
    assert_eq!(apply(at(5, 6), Command::VerticalAbs(9)), (at(5, 9), PathOp::LineTo(at(5, 9))));
    assert_eq!(apply(at(5, 6), Command::VerticalRel(9)), (at(5, 15), PathOp::LineTo(at(5, 15))));
}

#[test]
fn horizontal_lines_keep_y() {
    assert_eq!(apply(at(5, 6), Command::HorizontalAbs(9)), (at(9, 6), PathOp::LineTo(at(9, 6))));
    assert_eq!(apply(at(5, 6), Command::HorizontalRel(9)), (at(14, 6), PathOp::LineTo(at(14, 6))));
}

#[test]
fn cubic_curves_absolute_and_relative() {
    assert_eq!(
        apply(at(100, 200), Command::CubicAbs(1, 2, 3, 4, 5, 6)),
        (at(5, 6), PathOp::CubicTo(at(1, 2), at(3, 4), at(5, 6)))
    );
    assert_eq!(
        apply(at(100, 200), Command::CubicRel(1, 2, 3, 4, 5, 6)),
        (at(105, 206), PathOp::CubicTo(at(101, 202), at(103, 204), at(105, 206)))
    );
}

#[test]
fn smooth_command_is_applied_as_a_quadratic_curve() {
    assert_eq!(
        apply(at(100, 200), Command::SmoothAbs(1, 2, 3, 4)),
        (at(3, 4), PathOp::QuadTo(at(1, 2), at(3, 4)))
    );
    assert_eq!(
        apply(at(100, 200), Command::SmoothRel(1, 2, 3, 4)),
        (at(103, 204), PathOp::QuadTo(at(101, 202), at(103, 204)))
    );
}

#[test]
fn closing_keeps_the_pen() {
    assert_eq!(apply(at(5, 6), Command::Close), (at(5, 6), PathOp::Close));
}

#[test]
fn relative_command_draws_what_its_absolute_form_draws() {
    let pen = at(7, -3);
    assert_eq!(apply(pen, Command::MoveRel(1, 2)), apply(pen, Command::MoveAbs(8, -1)));
    assert_eq!(apply(pen, Command::LineRel(1, 2)), apply(pen, Command::LineAbs(8, -1)));
    assert_eq!(apply(pen, Command::VerticalRel(2)), apply(pen, Command::VerticalAbs(-1)));
    assert_eq!(apply(pen, Command::HorizontalRel(1)), apply(pen, Command::HorizontalAbs(8)));
    assert_eq!(
        apply(pen, Command::CubicRel(1, 2, 3, 4, 5, 6)),
        apply(pen, Command::CubicAbs(8, -1, 10, 1, 12, 3))
    );
    assert_eq!(
        apply(pen, Command::SmoothRel(1, 2, 3, 4)),
        apply(pen, Command::SmoothAbs(8, -1, 10, 1))
    );
}

#[test]
fn the_pen_starts_at_the_origin() {
    assert_eq!(interpret(&vec![Command::LineRel(3, 4)]), vec![PathOp::LineTo(at(3, 4))]);
}

#[test]
fn no_commands_draw_nothing() {
    assert_eq!(interpret(&Vec::new()), Vec::new());
}

#[test]
fn the_pen_follows_each_command() {
    let commands = vec![
        Command::MoveAbs(10, 10),
        Command::HorizontalRel(5),
        Command::VerticalRel(5),
        Command::Close,
        Command::LineRel(1, 1),
        Command::CubicRel(1, 0, 2, 0, 3, 3),
        Command::SmoothRel(0, 1, -19, -19),
        Command::VerticalAbs(7),
    ];
    assert_eq!(
        interpret(&commands),
        vec![
            PathOp::MoveTo(at(10, 10)),
            PathOp::LineTo(at(15, 10)),
            PathOp::LineTo(at(15, 15)),
            PathOp::Close,
            PathOp::LineTo(at(16, 16)),
            PathOp::CubicTo(at(17, 16), at(18, 16), at(19, 19)),
            PathOp::QuadTo(at(19, 20), at(0, 0)),
            PathOp::LineTo(at(0, 7)),
        ]
    );
}

#[test]
fn the_pen_can_go_beyond_what_one_argument_reaches() {
    let far = i64::MAX;
    let commands = vec![
        Command::MoveRel(far, -far),
        Command::LineRel(far, -far),
        Command::HorizontalRel(far),
        Command::VerticalRel(i64::MIN),
    ];
    let reach = far as i128;
    assert_eq!(
        interpret(&commands),
        vec![
            PathOp::MoveTo(at(reach, -reach)),
            PathOp::LineTo(at(2 * reach, -2 * reach)),
            PathOp::LineTo(at(3 * reach, -2 * reach)),
            PathOp::LineTo(at(3 * reach, -3 * reach - 1)),
        ]
    );
}
