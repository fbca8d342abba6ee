use raqote_utils::command::{resolve, resolve_all, Command};
use raqote_utils::group::Group;
use raqote_utils::ParseError;

fn group(command: char, args: &[i64]) -> Group {
    Group { command, args: args.to_vec() }
}

#[test]
fn every_letter_has_its_command() {
    assert_eq!(resolve(&group('M', &[1, 2])), Ok(Command::MoveAbs(1, 2)));
    assert_eq!(resolve(&group('m', &[1, 2])), Ok(Command::MoveRel(1, 2)));
    assert_eq!(resolve(&group('L', &[1, 2])), Ok(Command::LineAbs(1, 2)));
    assert_eq!(resolve(&group('l', &[1, 2])), Ok(Command::LineRel(1, 2)));
    assert_eq!(resolve(&group('V', &[1])), Ok(Command::VerticalAbs(1)));
    assert_eq!(resolve(&group('v', &[1])), Ok(Command::VerticalRel(1)));
    assert_eq!(resolve(&group('H', &[1])), Ok(Command::HorizontalAbs(1)));
    assert_eq!(resolve(&group('h', &[1])), Ok(Command::HorizontalRel(1)));
    assert_eq!(
        resolve(&group('C', &[1, 2, 3, 4, 5, 6])),
        Ok(Command::CubicAbs(1, 2, 3, 4, 5, 6))
    );
    assert_eq!(
        resolve(&group('c', &[1, 2, 3, 4, 5, 6])),
        Ok(Command::CubicRel(1, 2, 3, 4, 5, 6))
    );
    assert_eq!(resolve(&group('S', &[1, 2, 3, 4])), Ok(Command::SmoothAbs(1, 2, 3, 4)));
    assert_eq!(resolve(&group('s', &[1, 2, 3, 4])), Ok(Command::SmoothRel(1, 2, 3, 4)));
    assert_eq!(resolve(&group('Z', &[])), Ok(Command::Close));
    assert_eq!(resolve(&group('z', &[])), Ok(Command::Close));
}

#[test]
fn other_characters_are_no_commands() {
    for letter in ['a', 'A', 't', 'T', 'q', 'Q', '5', '-', '.', '\u{e9}'] {
        assert_eq!(
            resolve(&group(letter, &[1, 2])),
            Err(ParseError::UnsupportedCommand(letter))
        );
        assert_eq!(resolve(&group(letter, &[])), Err(ParseError::UnsupportedCommand(letter)));
    }
}

#[test]
fn too_few_and_too_many_arguments() {
    assert_eq!(resolve(&group('M', &[1])), Err(ParseError::ArityMismatch('M', 2, 1)));
    assert_eq!(resolve(&group('l', &[1, 2, 3, 4])), Err(ParseError::ArityMismatch('l', 2, 4)));
    assert_eq!(resolve(&group('v', &[])), Err(ParseError::ArityMismatch('v', 1, 0)));
    assert_eq!(resolve(&group('H', &[1, 2])), Err(ParseError::ArityMismatch('H', 1, 2)));
    assert_eq!(resolve(&group('c', &[1, 2, 3, 4])), Err(ParseError::ArityMismatch('c', 6, 4)));
    assert_eq!(
        resolve(&group('C', &[1, 2, 3, 4, 5, 6, 7])),
        Err(ParseError::ArityMismatch('C', 6, 7))
    );
    assert_eq!(resolve(&group('S', &[1, 2])), Err(ParseError::ArityMismatch('S', 4, 2)));
    assert_eq!(resolve(&group('s', &[1, 2, 3, 4, 5, 6])), Err(ParseError::ArityMismatch('s', 4, 6)));
    assert_eq!(resolve(&group('z', &[1])), Err(ParseError::ArityMismatch('z', 0, 1)));
    assert_eq!(resolve(&group('Z', &[1, 2])), Err(ParseError::ArityMismatch('Z', 0, 2)));
}

#[test]
fn groups_become_commands_in_order() {
    let groups = vec![group('M', &[1, 2]), group('h', &[3]), group('Z', &[])];
    assert_eq!(
        resolve_all(&groups),
        Ok(vec![Command::MoveAbs(1, 2), Command::HorizontalRel(3), Command::Close])
    );
}

#[test]
fn no_groups_make_no_commands() {
    assert_eq!(resolve_all(&Vec::new()), Ok(Vec::new()));
}

#[test]
fn the_first_faulty_group_is_the_one_reported() {
    let groups = vec![group('M', &[1, 2]), group('L', &[1]), group('T', &[])];
    assert_eq!(resolve_all(&groups), Err(ParseError::ArityMismatch('L', 2, 1)));
    let groups = vec![group('T', &[]), group('L', &[1])];
    assert_eq!(resolve_all(&groups), Err(ParseError::UnsupportedCommand('T')));
}
