//! How separators bear on what path data draws.
//!
//! Separators only part tokens, so most of them can come and go without any
//! effect: a run of them is as good as a single one, and they are not needed
//! at the ends of the text or in front of a letter. Between a command and an
//! argument that begins with a digit they make no difference either, although
//! the tokens differ: `M 0` is two tokens and `M0` is one.
use vstd::prelude::*;
use crate::group::{gather, gather_step, with_argument, Gathering, GroupModel};
use crate::number::{decimal_value, is_digit};
use crate::parse::parse_path;
use crate::token::{
    all_separators, class_of, flush, lemma_outer_separators, lemma_separator_runs_are_alike,
    lemma_separators_before_letter, lemma_separators_flush, scan, scan_step, split_tokens,
    CharClass, Scan,
};

verus! {

/// The tokens with those at `k` and `k + 1` joined into one.
pub open spec fn joined(tokens: Seq<Seq<char>>, k: int) -> Seq<Seq<char>> {
    tokens.take(k).push(tokens[k] + tokens[k + 1]) + tokens.skip(k + 2)
}

/// Two scans of which the second has the letter at `k` and the number after
/// it in one token, the first in two.
spec fn parted(a: Scan, b: Scan, k: int, letter: char) -> bool {
    &&& 0 <= k < a.tokens.len()
    &&& a.tokens[k] == seq![letter]
    &&& if a.tokens.len() == k + 1 {
        &&& a.pending.len() > 0
        &&& is_digit(a.pending[0])
        &&& b.tokens == a.tokens.take(k)
        &&& b.pending == a.tokens[k] + a.pending
    } else {
        &&& a.tokens[k + 1].len() > 0
        &&& is_digit(a.tokens[k + 1][0])
        &&& b.tokens == joined(a.tokens, k)
        &&& b.pending == a.pending
    }
}

proof fn lemma_parted_flush(a: Scan, b: Scan, k: int, letter: char)
    requires
        parted(a, b, k, letter),
    ensures
        parted(flush(a), flush(b), k, letter),
        flush(a).tokens.len() >= k + 2,
{
    if a.tokens.len() == k + 1 {
        let ts = a.tokens.push(a.pending);
        assert(ts.take(k) =~= a.tokens.take(k));
        assert(ts.skip(k + 2) =~= Seq::empty());
        assert(joined(ts, k) =~= b.tokens.push(b.pending));
    } else if a.pending.len() > 0 {
        let ts = a.tokens.push(a.pending);
        assert(ts.take(k) =~= a.tokens.take(k));
        assert(ts.skip(k + 2) =~= a.tokens.skip(k + 2).push(a.pending));
        assert(joined(ts, k) =~= joined(a.tokens, k).push(a.pending));
    }
}

proof fn lemma_parted_step(a: Scan, b: Scan, k: int, letter: char, c: char, class: CharClass)
    requires
        parted(a, b, k, letter),
    ensures
        parted(scan_step(a, c, class), scan_step(b, c, class), k, letter),
{
    match class {
        CharClass::Separator => {
            lemma_parted_flush(a, b, k, letter);
        },
        CharClass::Letter => {
            lemma_parted_flush(a, b, k, letter);
        },
        CharClass::Other => {
            if a.tokens.len() == k + 1 {
                assert(b.pending.push(c) =~= a.tokens[k] + a.pending.push(c));
            }
        },
    }
}

proof fn lemma_parted_scan(one: Seq<char>, other: Seq<char>, rest: Seq<char>, k: int, letter: char)
    requires
        parted(scan(one), scan(other), k, letter),
    ensures
        parted(scan(one + rest), scan(other + rest), k, letter),
    decreases rest.len(),
{
    if rest.len() == 0 {
        assert(one + rest =~= one);
        assert(other + rest =~= other);
    } else {
        lemma_parted_scan(one, other, rest.drop_last(), k, letter);
        assert((one + rest).drop_last() =~= one + rest.drop_last());
        assert((other + rest).drop_last() =~= other + rest.drop_last());
        lemma_parted_step(
            scan(one + rest.drop_last()),
            scan(other + rest.drop_last()),
            k,
            letter,
            rest.last(),
            class_of(rest.last()),
        );
    }
}

/// What gathering does with the rest of the tokens depends on the tokens
/// before them only through what has been gathered.
pub proof fn lemma_gather_continues(x: Seq<Seq<char>>, y: Seq<Seq<char>>, rest: Seq<Seq<char>>)
    requires
        gather(x) == gather(y),
    ensures
        gather(x + rest) == gather(y + rest),
    decreases rest.len(),
{
    if rest.len() == 0 {
        assert(x + rest =~= x);
        assert(y + rest =~= y);
    } else {
        lemma_gather_continues(x, y, rest.drop_last());
        assert((x + rest).drop_last() =~= x + rest.drop_last());
        assert((y + rest).drop_last() =~= y + rest.drop_last());
    }
}

proof fn lemma_first_argument(groups: Seq<GroupModel>, command: char, value: int)
    ensures
        with_argument(groups.push(GroupModel { command, args: Seq::empty() }), value)
            == groups.push(GroupModel { command, args: seq![value] }),
{
    let empty = GroupModel { command, args: Seq::empty() };
    assert(groups.push(empty).drop_last() =~= groups);
    assert(empty.args.push(value) =~= seq![value]);
}

proof fn lemma_joined_step(g: Gathering, command: char, number: Seq<char>)
    requires
        !is_digit(command),
        command != 'Z',
        number.len() > 0,
        is_digit(number[0]),
    ensures
        gather_step(g, seq![command]) is Ok,
        gather_step(gather_step(g, seq![command])->Ok_0, number) == gather_step(
            g,
            seq![command] + number,
        ),
{
    let whole = seq![command] + number;
    assert(whole.skip(1) =~= number);
    assert(whole[0] == command);
    if let Some(v) = decimal_value(number) {
        lemma_first_argument(g.groups, command, v);
    }
}

/// A command and a first argument that begins with a digit make the same
/// group whether they stand in two tokens or in one.
pub proof fn lemma_joined_tokens_gather_alike(tokens: Seq<Seq<char>>, k: int)
    requires
        0 <= k,
        k + 2 <= tokens.len(),
        tokens[k].len() == 1,
        !is_digit(tokens[k][0]),
        tokens[k][0] != 'Z',
        tokens[k + 1].len() > 0,
        is_digit(tokens[k + 1][0]),
    ensures
        gather(joined(tokens, k)) == gather(tokens),
{
    let head = tokens.take(k);
    let command = tokens[k];
    let number = tokens[k + 1];
    let two = head.push(command).push(number);
    let one = head.push(command + number);
    assert(two.drop_last() =~= head.push(command));
    assert(head.push(command).drop_last() =~= head);
    assert(one.drop_last() =~= head);
    assert(command =~= seq![command[0]]);
    if let Ok(g) = gather(head) {
        lemma_joined_step(g, command[0], number);
    }
    assert(gather(head.push(command)) == match gather(head) {
        Ok(g) => gather_step(g, command),
        Err(e) => Err(e),
    });
    assert(gather(two) == gather(one));
    lemma_gather_continues(two, one, tokens.skip(k + 2));
    assert(two + tokens.skip(k + 2) =~= tokens);
    assert(one + tokens.skip(k + 2) =~= joined(tokens, k));
}

/// Between two parts of the path data, one run of separators is as good as
/// another.
pub proof fn lemma_any_separators_draw_alike(
    before: Seq<char>,
    one: Seq<char>,
    other: Seq<char>,
    after: Seq<char>,
)
    requires
        all_separators(one),
        all_separators(other),
        one.len() > 0,
        other.len() > 0,
    ensures
        parse_path(before + one + after) == parse_path(before + other + after),
{
    lemma_separator_runs_are_alike(before, one, other, after);
}

/// Separators at the ends of the path data, and in front of a letter in it,
/// can be left out.
pub proof fn lemma_idle_separators_draw_nothing(
    leading: Seq<char>,
    before: Seq<char>,
    inner: Seq<char>,
    after: Seq<char>,
    trailing: Seq<char>,
)
    requires
        all_separators(leading),
        all_separators(inner),
        all_separators(trailing),
        after.len() > 0,
        class_of(after[0]) == CharClass::Letter,
    ensures
        parse_path(leading + (before + inner + after) + trailing) == parse_path(before + after),
{
    lemma_outer_separators(leading, before + inner + after, trailing);
    lemma_separators_before_letter(before, inner, after);
}

/// Separators between a command and an argument that begins with a digit
/// can be left out: `M 0 0 L 10 10` draws what `M0 0L10 10` draws.
///
/// The command is any letter but `Z`, which takes nothing from what follows
/// it, and the digit is one that the tokenizer does not take for a letter.
pub proof fn lemma_command_may_touch_its_argument(
    before: Seq<char>,
    command: char,
    separators: Seq<char>,
    after: Seq<char>,
)
    requires
        class_of(command) == CharClass::Letter,
        command != 'Z',
        !is_digit(command),
        all_separators(separators),
        after.len() > 0,
        is_digit(after[0]),
        class_of(after[0]) == CharClass::Other,
    ensures
        parse_path(before + seq![command] + separators + after) == parse_path(
            before + seq![command] + after,
        ),
{
    let opened = before + seq![command];
    if separators.len() == 0 {
        assert(opened + separators =~= opened);
    } else {
        let digit = seq![after[0]];
        let rest = after.drop_first();
        let apart = opened + separators + digit;
        let close = opened + digit;
        let k = flush(scan(before)).tokens.len() as int;
        assert(opened.drop_last() =~= before);
        lemma_separators_flush(opened, separators);
        assert(apart.drop_last() =~= opened + separators);
        assert(close.drop_last() =~= opened);
        assert(scan(apart).tokens.take(k) =~= scan(close).tokens);
        assert(scan(close).pending =~= scan(apart).tokens[k] + scan(apart).pending);
        assert(parted(scan(apart), scan(close), k, command));
        lemma_parted_scan(apart, close, rest, k, command);
        lemma_parted_flush(scan(apart + rest), scan(close + rest), k, command);
        assert(apart + rest =~= opened + separators + after);
        assert(close + rest =~= opened + after);
        let tokens = split_tokens(apart + rest);
        assert(split_tokens(close + rest) == joined(tokens, k));
        lemma_joined_tokens_gather_alike(tokens, k);
    }
}

} // verus!
