//! Gathering tokens into commands with their arguments.
//!
//! Every token opens a new group, with two exceptions. A token that begins
//! with a digit and follows an open group is one more argument of that group.
//! A token that begins with `Z` is a group without arguments that takes none
//! from the tokens after it either. The first character of an opening token
//! is the command; what follows it in the same token, if anything, is the
//! first argument.
//!
//! Only a leading digit continues a group: `-5` or `.5` after a complete
//! number opens a group of its own, whose command is the sign or the point.
use vstd::prelude::*;
use vstd::string::*;
use crate::error::{ParseError, ParseFailure};
use crate::number::{decimal_value, is_digit, parse_number};
use crate::token::texts;

verus! {

/// A command letter and its arguments, in millionths.
#[derive(Clone, PartialEq, Eq, Debug)]
pub struct Group {
    pub command: char,
    pub args: Vec<i64>,
}

/// A `Group` as specifications see it.
pub struct GroupModel {
    pub command: char,
    pub args: Seq<int>,
}

impl View for Group {
    type V = GroupModel;

    open spec fn view(&self) -> GroupModel {
        GroupModel { command: self.command, args: self.args@.map_values(|v: i64| v as int) }
    }
}

pub open spec fn groups_view(groups: Seq<Group>) -> Seq<GroupModel> {
    groups.map_values(|g: Group| g@)
}

/// The groups gathered so far, and whether the last of them still takes
/// arguments.
pub struct Gathering {
    pub groups: Seq<GroupModel>,
    pub open: bool,
}

pub open spec fn nothing_gathered() -> Gathering {
    Gathering { groups: Seq::empty(), open: false }
}

/// The last group with one more argument.
pub open spec fn with_argument(groups: Seq<GroupModel>, value: int) -> Seq<GroupModel> {
    groups.drop_last().push(
        GroupModel { command: groups.last().command, args: groups.last().args.push(value) },
    )
}

/// Whether a token is one more argument of the last group: the group is
/// open and the token begins with a digit.
pub open spec fn continues_group(g: Gathering, token: Seq<char>) -> bool {
    g.open && token.len() > 0 && is_digit(token[0])
}

/// What one more token does to the groups.
pub open spec fn gather_step(g: Gathering, token: Seq<char>) -> Result<Gathering, ParseFailure> {
    if token.len() == 0 {
        Err(ParseFailure::UnexpectedEndOfInput)
    } else if continues_group(g, token) {
        match decimal_value(token) {
            Some(value) => Ok(Gathering { groups: with_argument(g.groups, value), open: true }),
            None => Err(ParseFailure::MalformedNumber(token)),
        }
    } else if token[0] == 'Z' {
        Ok(
            Gathering {
                groups: g.groups.push(GroupModel { command: 'Z', args: Seq::empty() }),
                open: false,
            },
        )
    } else if token.len() == 1 {
        Ok(
            Gathering {
                groups: g.groups.push(GroupModel { command: token[0], args: Seq::empty() }),
                open: true,
            },
        )
    } else {
        match decimal_value(token.skip(1)) {
            Some(value) => Ok(
                Gathering {
                    groups: g.groups.push(GroupModel { command: token[0], args: seq![value] }),
                    open: true,
                },
            ),
            None => Err(ParseFailure::MalformedNumber(token.skip(1))),
        }
    }
}

/// The groups after all the tokens, or the first fault among them.
pub open spec fn gather(tokens: Seq<Seq<char>>) -> Result<Gathering, ParseFailure>
    decreases tokens.len(),
{
    if tokens.len() == 0 {
        Ok(nothing_gathered())
    } else {
        match gather(tokens.drop_last()) {
            Ok(g) => gather_step(g, tokens.last()),
            Err(e) => Err(e),
        }
    }
}

/// The groups of a list of tokens.
pub open spec fn grouped(tokens: Seq<Seq<char>>) -> Result<Seq<GroupModel>, ParseFailure> {
    match gather(tokens) {
        Ok(g) => Ok(g.groups),
        Err(e) => Err(e),
    }
}

/// Gathers tokens into groups and reads their numbers.
///
/// Fails with `MalformedNumber`, which carries the text that is no number, at
/// the first argument that cannot be read, and with `UnexpectedEndOfInput`
/// at an empty token.
pub fn group_tokens(tokens: &Vec<String>) -> (r: Result<Vec<Group>, ParseError>)
    ensures
        match r {
            Ok(groups) => grouped(texts(tokens@)) == Ok::<Seq<GroupModel>, ParseFailure>(
                groups_view(groups@),
            ),
            Err(e) => grouped(texts(tokens@)) == Err::<Seq<GroupModel>, ParseFailure>(e@),
        },
{
    let mut groups: Vec<Group> = Vec::new();
    let mut open = false;
    let mut i: usize = 0;
    assert(texts(tokens@).take(0) =~= Seq::empty());
    assert(groups_view(groups@) =~= Seq::empty());
    while i < tokens.len()
        invariant
            i <= tokens.len(),
            open ==> groups.len() > 0,
            gather(texts(tokens@).take(i as int)) == Ok::<Gathering, ParseFailure>(
                Gathering { groups: groups_view(groups@), open },
            ),
        decreases tokens.len() - i,
    {
        let ghost all = texts(tokens@);
        let ghost before = groups_view(groups@);
        proof {
            assert(all.take(i + 1).drop_last() == all.take(i as int));
            assert(all.take(i + 1).last() == tokens[i as int]@);
            lemma_gather_fault_stays(all, i + 1);
        }
        let token = tokens[i].as_str();
        if token.is_empty() {
            return Err(ParseError::UnexpectedEndOfInput);
        }
        let first = token.get_char(0);
        if open && '0' <= first && first <= '9' {
            match parse_number(token) {
                Some(value) => {
                    let mut last = groups.pop().unwrap();
                    let ghost args = last@.args;
                    last.args.push(value);
                    assert(last@.args =~= args.push(value as int));
                    groups.push(last);
                    assert(groups_view(groups@) =~= with_argument(before, value as int));
                },
                None => {
                    return Err(ParseError::MalformedNumber(token.to_owned()));
                },
            }
        } else if first == 'Z' {
            let closing = Group { command: 'Z', args: Vec::new() };
            assert(closing@.args =~= Seq::empty());
            groups.push(closing);
            assert(groups_view(groups@) =~= before.push(
                GroupModel { command: 'Z', args: Seq::empty() },
            ));
            open = false;
        } else {
            let length = token.unicode_len();
            let mut args: Vec<i64> = Vec::new();
            if length > 1 {
                let rest = token.substring_char(1, length);
                assert(rest@ == token@.skip(1));
                match parse_number(rest) {
                    Some(value) => {
                        args.push(value);
                    },
                    None => {
                        return Err(ParseError::MalformedNumber(rest.to_owned()));
                    },
                }
            }
            let opening = Group { command: first, args };
            assert(length > 1 ==> opening@.args =~= seq![decimal_value(token@.skip(1))->0]);
            assert(length == 1 ==> opening@.args =~= Seq::empty());
            groups.push(opening);
            assert(groups_view(groups@) =~= before.push(opening@));
            open = true;
        }
        i = i + 1;
    }
    assert(texts(tokens@).take(i as int) == texts(tokens@));
    Ok(groups)
}

/// Tokens of which none is empty never fail for want of input.
pub proof fn lemma_no_end_without_empty_token(tokens: Seq<Seq<char>>)
    requires
        forall|i: int| 0 <= i < tokens.len() ==> (#[trigger] tokens[i]).len() > 0,
    ensures
        gather(tokens) matches Err(e) ==> e is MalformedNumber,
    decreases tokens.len(),
{
    if tokens.len() > 0 {
        lemma_no_end_without_empty_token(tokens.drop_last());
    }
}

/// Once a fault is met among the first `n` tokens, the same fault is the
/// outcome for the whole list.
pub proof fn lemma_gather_fault_stays(tokens: Seq<Seq<char>>, n: int)
    requires
        0 <= n <= tokens.len(),
    ensures
        gather(tokens.take(n)) matches Err(e) ==> gather(tokens) == Err::<Gathering, ParseFailure>(
            e,
        ),
    decreases tokens.len() - n,
{
    if n < tokens.len() {
        assert(tokens.take(n + 1).drop_last() == tokens.take(n));
        lemma_gather_fault_stays(tokens, n + 1);
    } else {
        assert(tokens.take(n) == tokens);
    }
}

} // verus!
