//! Path data as a whole: from text to drawing operations.
use vstd::prelude::*;
use crate::command::{lemma_resolved_faults, resolve_all, resolved};
use crate::draw::{interpret, run};
use crate::error::{ParseError, ParseFailure};
use crate::group::{gather, group_tokens, grouped, lemma_no_end_without_empty_token};
use crate::path::{ops_view, PathOp};
use crate::token::{is_token, lemma_scan_yields_tokens, split_path, split_tokens};

verus! {

/// What path data draws: its tokens are gathered into groups, the groups
/// are made commands, and the commands are carried out. A fault in a number
/// comes before any fault in a command.
pub open spec fn parse_path(text: Seq<char>) -> Result<Seq<PathOp<int>>, ParseFailure> {
    match grouped(split_tokens(text)) {
        Err(e) => Err(e),
        Ok(groups) => match resolved(groups) {
            Err(e) => Err(e),
            Ok(commands) => Ok(run(commands).ops),
        },
    }
}

/// The result of parsing as specifications see it.
pub open spec fn outcome(r: Result<Vec<PathOp<i128>>, ParseError>) -> Result<
    Seq<PathOp<int>>,
    ParseFailure,
> {
    match r {
        Ok(ops) => Ok(ops_view(ops@)),
        Err(e) => Err(e@),
    }
}

/// Path data never fails for want of input: no token of a text is empty.
pub proof fn lemma_never_ends_early(text: Seq<char>)
    ensures
        parse_path(text) != Err::<Seq<PathOp<int>>, ParseFailure>(
            ParseFailure::UnexpectedEndOfInput,
        ),
{
    let tokens = split_tokens(text);
    lemma_scan_yields_tokens(text);
    assert forall|i: int| 0 <= i < tokens.len() implies (#[trigger] tokens[i]).len() > 0 by {
        assert(is_token(tokens[i]));
    }
    lemma_no_end_without_empty_token(tokens);
    if let Ok(g) = gather(tokens) {
        lemma_resolved_faults(g.groups);
    }
}

/// The same text always draws the same path: two results for one text hold
/// the same operations, or the same fault.
pub proof fn lemma_same_text_same_path(
    text: Seq<char>,
    first: Result<Vec<PathOp<i128>>, ParseError>,
    second: Result<Vec<PathOp<i128>>, ParseError>,
)
    requires
        outcome(first) == parse_path(text),
        outcome(second) == parse_path(text),
    ensures
        outcome(first) == outcome(second),
        first matches Ok(a) ==> second is Ok && second->Ok_0@ == a@,
        first matches Err(e) ==> second is Err && second->Err_0@ == e@,
{
    if let Ok(a) = first {
        let b = second->Ok_0;
        assert(a@.len() == ops_view(a@).len());
        assert(b@.len() == ops_view(b@).len());
        assert forall|i: int| 0 <= i < a@.len() implies a@[i] == b@[i] by {
            assert(ops_view(a@)[i] == a@[i]@);
            assert(ops_view(b@)[i] == b@[i]@);
        }
        assert(a@ =~= b@);
    }
}

/// Reads SVG-style path data and returns the operations that draw it, with
/// absolute coordinates in millionths.
///
/// The commands are `m M l L v V h H c C s S z Z`. Text that holds nothing
/// but spaces and commas draws the empty path.
///
/// Fails, and then draws nothing, with
/// - `MalformedNumber` where an argument is not a decimal number that fits,
///   whichever command it belongs to;
/// - `UnsupportedCommand` where a group begins with any other character;
/// - `ArityMismatch` where a command has not exactly its number of
///   arguments.
pub fn create_path_from_string(svg_raw_path: &str) -> (r: Result<Vec<PathOp<i128>>, ParseError>)
    ensures
        outcome(r) == parse_path(svg_raw_path@),
        !(r matches Err(ParseError::UnexpectedEndOfInput)),
{
    proof {
        lemma_never_ends_early(svg_raw_path@);
    }
    let tokens = split_path(svg_raw_path);
    let groups = match group_tokens(&tokens) {
        Err(e) => {
            return Err(e);
        },
        Ok(groups) => groups,
    };
    match resolve_all(&groups) {
        Err(e) => Err(e),
        Ok(commands) => Ok(interpret(&commands)),
    }
}

} // verus!
