//! Commands with their arguments in place.
//!
//! A group becomes a command once its letter is known and it has exactly the
//! arguments that the letter takes, so a `Command` is never short of an
//! argument and never has one too many.
//!
//! | letter | arguments | command |
//! |---|---|---|
//! | `M` `m` | x y | `MoveAbs`, `MoveRel` |
//! | `L` `l` | x y | `LineAbs`, `LineRel` |
//! | `V` `v` | y | `VerticalAbs`, `VerticalRel` |
//! | `H` `h` | x | `HorizontalAbs`, `HorizontalRel` |
//! | `C` `c` | x1 y1 x2 y2 x y | `CubicAbs`, `CubicRel` |
//! | `S` `s` | x1 y1 x y | `SmoothAbs`, `SmoothRel` |
//! | `Z` `z` | none | `Close` |
use vstd::prelude::*;
use crate::error::{ParseError, ParseFailure};
use crate::group::{groups_view, Group, GroupModel};

verus! {

/// One command of a path. The arguments of an `Abs` command are coordinates,
/// those of a `Rel` command offsets from where the pen is.
#[derive(Clone, Copy, PartialEq, Eq, Debug)]
pub enum Command<T> {
    MoveAbs(T, T),
    MoveRel(T, T),
    LineAbs(T, T),
    LineRel(T, T),
    VerticalAbs(T),
    VerticalRel(T),
    HorizontalAbs(T),
    HorizontalRel(T),
    CubicAbs(T, T, T, T, T, T),
    CubicRel(T, T, T, T, T, T),
    SmoothAbs(T, T, T, T),
    SmoothRel(T, T, T, T),
    Close,
}

impl View for Command<i64> {
    type V = Command<int>;

    open spec fn view(&self) -> Command<int> {
        match *self {
            Command::MoveAbs(x, y) => Command::MoveAbs(x as int, y as int),
            Command::MoveRel(x, y) => Command::MoveRel(x as int, y as int),
            Command::LineAbs(x, y) => Command::LineAbs(x as int, y as int),
            Command::LineRel(x, y) => Command::LineRel(x as int, y as int),
            Command::VerticalAbs(y) => Command::VerticalAbs(y as int),
            Command::VerticalRel(y) => Command::VerticalRel(y as int),
            Command::HorizontalAbs(x) => Command::HorizontalAbs(x as int),
            Command::HorizontalRel(x) => Command::HorizontalRel(x as int),
            Command::CubicAbs(x1, y1, x2, y2, x, y) => Command::CubicAbs(
                x1 as int,
                y1 as int,
                x2 as int,
                y2 as int,
                x as int,
                y as int,
            ),
            Command::CubicRel(x1, y1, x2, y2, x, y) => Command::CubicRel(
                x1 as int,
                y1 as int,
                x2 as int,
                y2 as int,
                x as int,
                y as int,
            ),
            Command::SmoothAbs(x1, y1, x, y) => Command::SmoothAbs(
                x1 as int,
                y1 as int,
                x as int,
                y as int,
            ),
            Command::SmoothRel(x1, y1, x, y) => Command::SmoothRel(
                x1 as int,
                y1 as int,
                x as int,
                y as int,
            ),
            Command::Close => Command::Close,
        }
    }
}

pub open spec fn commands_view(commands: Seq<Command<i64>>) -> Seq<Command<int>> {
    commands.map_values(|c: Command<i64>| c@)
}

/// The number of arguments that a command letter takes; `None` for a
/// character that is no command letter.
pub open spec fn arity(letter: char) -> Option<nat> {
    if letter == 'm' || letter == 'M' || letter == 'l' || letter == 'L' {
        Some(2)
    } else if letter == 'v' || letter == 'V' || letter == 'h' || letter == 'H' {
        Some(1)
    } else if letter == 'c' || letter == 'C' {
        Some(6)
    } else if letter == 's' || letter == 'S' {
        Some(4)
    } else if letter == 'z' || letter == 'Z' {
        Some(0)
    } else {
        None
    }
}

/// The command of a letter with as many arguments as the letter takes.
pub open spec fn assembled(letter: char, a: Seq<int>) -> Command<int> {
    if letter == 'M' {
        Command::MoveAbs(a[0], a[1])
    } else if letter == 'm' {
        Command::MoveRel(a[0], a[1])
    } else if letter == 'L' {
        Command::LineAbs(a[0], a[1])
    } else if letter == 'l' {
        Command::LineRel(a[0], a[1])
    } else if letter == 'V' {
        Command::VerticalAbs(a[0])
    } else if letter == 'v' {
        Command::VerticalRel(a[0])
    } else if letter == 'H' {
        Command::HorizontalAbs(a[0])
    } else if letter == 'h' {
        Command::HorizontalRel(a[0])
    } else if letter == 'C' {
        Command::CubicAbs(a[0], a[1], a[2], a[3], a[4], a[5])
    } else if letter == 'c' {
        Command::CubicRel(a[0], a[1], a[2], a[3], a[4], a[5])
    } else if letter == 'S' {
        Command::SmoothAbs(a[0], a[1], a[2], a[3])
    } else if letter == 's' {
        Command::SmoothRel(a[0], a[1], a[2], a[3])
    } else {
        Command::Close
    }
}

/// The command that a group stands for, or what is wrong with the group:
/// its letter is no command, or it has not the arguments that the letter
/// takes.
pub open spec fn command_of(group: GroupModel) -> Result<Command<int>, ParseFailure> {
    match arity(group.command) {
        None => Err(ParseFailure::UnsupportedCommand(group.command)),
        Some(n) => if group.args.len() == n {
            Ok(assembled(group.command, group.args))
        } else {
            Err(ParseFailure::ArityMismatch(group.command, n, group.args.len()))
        },
    }
}

/// The commands of all the groups, or the fault of the first group that has
/// one.
pub open spec fn resolved(groups: Seq<GroupModel>) -> Result<Seq<Command<int>>, ParseFailure>
    decreases groups.len(),
{
    if groups.len() == 0 {
        Ok(Seq::empty())
    } else {
        match resolved(groups.drop_last()) {
            Err(e) => Err(e),
            Ok(commands) => match command_of(groups.last()) {
                Err(e) => Err(e),
                Ok(command) => Ok(commands.push(command)),
            },
        }
    }
}

/// Once a fault is met among the first `n` groups, the same fault is the
/// outcome for the whole list.
pub proof fn lemma_resolved_fault_stays(groups: Seq<GroupModel>, n: int)
    requires
        0 <= n <= groups.len(),
    ensures
        resolved(groups.take(n)) matches Err(e) ==> resolved(groups) == Err::<
            Seq<Command<int>>,
            ParseFailure,
        >(e),
    decreases groups.len() - n,
{
    if n < groups.len() {
        assert(groups.take(n + 1).drop_last() == groups.take(n));
        lemma_resolved_fault_stays(groups, n + 1);
    } else {
        assert(groups.take(n) == groups);
    }
}

/// Groups never fail for want of input: their faults are unsupported
/// commands and wrong numbers of arguments.
pub proof fn lemma_resolved_faults(groups: Seq<GroupModel>)
    ensures
        resolved(groups) matches Err(e) ==> e is UnsupportedCommand || e is ArityMismatch,
    decreases groups.len(),
{
    if groups.len() > 0 {
        lemma_resolved_faults(groups.drop_last());
    }
}

fn arity_of(letter: char) -> (r: Option<usize>)
    ensures
        match r {
            Some(n) => arity(letter) == Some(n as nat),
            None => arity(letter) is None,
        },
{
    if letter == 'm' || letter == 'M' || letter == 'l' || letter == 'L' {
        Some(2)
    } else if letter == 'v' || letter == 'V' || letter == 'h' || letter == 'H' {
        Some(1)
    } else if letter == 'c' || letter == 'C' {
        Some(6)
    } else if letter == 's' || letter == 'S' {
        Some(4)
    } else if letter == 'z' || letter == 'Z' {
        Some(0)
    } else {
        None
    }
}

/// Makes a command of a group.
///
/// Fails with `UnsupportedCommand` where the group's letter is none of
/// `m M l L v V h H c C s S z Z`, and otherwise with `ArityMismatch` where the
/// group has not exactly the number of arguments that its letter takes.
pub fn resolve(group: &Group) -> (r: Result<Command<i64>, ParseError>)
    ensures
        match r {
            Ok(command) => command_of(group@) == Ok::<Command<int>, ParseFailure>(command@),
            Err(e) => command_of(group@) == Err::<Command<int>, ParseFailure>(e@),
        },
{
    let letter = group.command;
    let a = &group.args;
    let expected = match arity_of(letter) {
        None => {
            return Err(ParseError::UnsupportedCommand(letter));
        },
        Some(n) => n,
    };
    if a.len() != expected {
        return Err(ParseError::ArityMismatch(letter, expected, a.len()));
    }
    assert(forall|i: int| 0 <= i < a.len() ==> group@.args[i] == a[i] as int);
    let command = if letter == 'M' {
        Command::MoveAbs(a[0], a[1])
    } else if letter == 'm' {
        Command::MoveRel(a[0], a[1])
    } else if letter == 'L' {
        Command::LineAbs(a[0], a[1])
    } else if letter == 'l' {
        Command::LineRel(a[0], a[1])
    } else if letter == 'V' {
        Command::VerticalAbs(a[0])
    } else if letter == 'v' {
        Command::VerticalRel(a[0])
    } else if letter == 'H' {
        Command::HorizontalAbs(a[0])
    } else if letter == 'h' {
        Command::HorizontalRel(a[0])
    } else if letter == 'C' {
        Command::CubicAbs(a[0], a[1], a[2], a[3], a[4], a[5])
    } else if letter == 'c' {
        Command::CubicRel(a[0], a[1], a[2], a[3], a[4], a[5])
    } else if letter == 'S' {
        Command::SmoothAbs(a[0], a[1], a[2], a[3])
    } else if letter == 's' {
        Command::SmoothRel(a[0], a[1], a[2], a[3])
    } else {
        Command::Close
    };
    Ok(command)
}

/// Makes commands of all the groups, in order.
///
/// Fails with the fault of the first group that has one; see `resolve`.
pub fn resolve_all(groups: &Vec<Group>) -> (r: Result<Vec<Command<i64>>, ParseError>)
    ensures
        match r {
            Ok(commands) => resolved(groups_view(groups@)) == Ok::<
                Seq<Command<int>>,
                ParseFailure,
            >(commands_view(commands@)),
            Err(e) => resolved(groups_view(groups@)) == Err::<Seq<Command<int>>, ParseFailure>(
                e@,
            ),
        },
{
    let mut commands: Vec<Command<i64>> = Vec::new();
    let mut i: usize = 0;
    assert(groups_view(groups@).take(0) =~= Seq::empty());
    assert(commands_view(commands@) =~= Seq::empty());
    while i < groups.len()
        invariant
            i <= groups.len(),
            resolved(groups_view(groups@).take(i as int)) == Ok::<
                Seq<Command<int>>,
                ParseFailure,
            >(commands_view(commands@)),
        decreases groups.len() - i,
    {
        let ghost all = groups_view(groups@);
        let ghost made = commands_view(commands@);
        proof {
            assert(all.take(i + 1).drop_last() == all.take(i as int));
            assert(all.take(i + 1).last() == groups[i as int]@);
            lemma_resolved_fault_stays(all, i + 1);
        }
        match resolve(&groups[i]) {
            Err(e) => {
                return Err(e);
            },
            Ok(command) => {
                commands.push(command);
                assert(commands_view(commands@) =~= made.push(command@));
            },
        }
        i = i + 1;
    }
    assert(groups_view(groups@).take(i as int) == groups_view(groups@));
    Ok(commands)
}

} // verus!
