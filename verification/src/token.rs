//! Splitting path data into tokens.
//!
//! The text is read once from left to right by a machine of three states:
//! idle, gathering a number, gathering a command. A space or a comma ends the
//! token that is being gathered and leaves the machine idle. A letter ends
//! it too and begins a command, so a letter is always the first character of
//! its token. Any other character joins the token that is being gathered;
//! where there is none, it begins a number. No token is empty.
use vstd::prelude::*;
use vstd::std_specs::iter::IteratorSpec;

verus! {

/// What a character means to the tokenizer.
#[derive(Clone, Copy, PartialEq, Eq, Debug)]
pub enum CharClass {
    /// A space or a comma.
    Separator,
    /// An alphabetic character.
    Letter,
    /// Anything else: digits, signs, the decimal point.
    Other,
}

/// Whether a character has the Unicode property Alphabetic, as
/// `char::is_alphabetic` reports it.
pub uninterp spec fn alphabetic(c: char) -> bool;

pub open spec fn is_separator(c: char) -> bool {
    c == ' ' || c == ','
}

pub open spec fn class_of(c: char) -> CharClass {
    if is_separator(c) {
        CharClass::Separator
    } else if alphabetic(c) {
        CharClass::Letter
    } else {
        CharClass::Other
    }
}

/// What the tokenizer is doing between two characters.
#[derive(Clone, Copy, PartialEq, Eq, Debug)]
pub enum ScanState {
    /// No token is being gathered.
    Idle,
    /// The pending token began with a character that is no letter.
    AccumulatingNumber,
    /// The pending token began with a letter.
    AccumulatingCommand,
}

/// The tokens completed so far, the one that is being gathered, and the
/// state of the machine.
pub struct Scan {
    pub tokens: Seq<Seq<char>>,
    pub pending: Seq<char>,
    pub state: ScanState,
}

pub open spec fn start() -> Scan {
    Scan { tokens: Seq::empty(), pending: Seq::empty(), state: ScanState::Idle }
}

/// Completes the pending token, if there is one.
pub open spec fn flush(s: Scan) -> Scan {
    if s.pending.len() == 0 {
        s
    } else {
        Scan { tokens: s.tokens.push(s.pending), pending: Seq::empty(), state: ScanState::Idle }
    }
}

/// The scan after one more character of the given class.
pub open spec fn scan_step(s: Scan, c: char, class: CharClass) -> Scan {
    match class {
        CharClass::Separator => flush(s),
        CharClass::Letter => Scan {
            tokens: flush(s).tokens,
            pending: seq![c],
            state: ScanState::AccumulatingCommand,
        },
        CharClass::Other => Scan {
            tokens: s.tokens,
            pending: s.pending.push(c),
            state: if s.state == ScanState::Idle {
                ScanState::AccumulatingNumber
            } else {
                s.state
            },
        },
    }
}

/// The scan after the whole of a text.
pub open spec fn scan(text: Seq<char>) -> Scan
    decreases text.len(),
{
    if text.len() == 0 {
        start()
    } else {
        scan_step(scan(text.drop_last()), text.last(), class_of(text.last()))
    }
}

/// The tokens of a text.
pub open spec fn split_tokens(text: Seq<char>) -> Seq<Seq<char>> {
    flush(scan(text)).tokens
}

/// The texts of a list of strings.
pub open spec fn texts(strings: Seq<String>) -> Seq<Seq<char>> {
    strings.map_values(|s: String| s@)
}

/// What holds of every token: it is not empty, holds no separator, and holds
/// a letter in its first place at most.
pub open spec fn is_token(t: Seq<char>) -> bool {
    &&& t.len() > 0
    &&& forall|i: int| 0 <= i < t.len() ==> class_of(#[trigger] t[i]) != CharClass::Separator
    &&& forall|i: int| 0 < i < t.len() ==> class_of(#[trigger] t[i]) == CharClass::Other
}

/// Whether the state of a scan says what its pending token is: none when
/// idle, one that begins with a letter when gathering a command, one that
/// begins otherwise when gathering a number.
pub open spec fn state_fits(s: Scan) -> bool {
    match s.state {
        ScanState::Idle => s.pending.len() == 0,
        ScanState::AccumulatingNumber => s.pending.len() > 0 && class_of(s.pending[0])
            == CharClass::Other,
        ScanState::AccumulatingCommand => s.pending.len() > 0 && class_of(s.pending[0])
            == CharClass::Letter,
    }
}

/// Every token that a scan has completed is a token in the sense of
/// `is_token`, and so is the pending one unless it is empty; and the state
/// of the scan fits its pending token.
pub proof fn lemma_scan_yields_tokens(text: Seq<char>)
    ensures
        forall|i: int| 0 <= i < scan(text).tokens.len() ==> is_token(#[trigger] scan(text).tokens[i]),
        scan(text).pending.len() > 0 ==> is_token(scan(text).pending),
        state_fits(scan(text)),
        forall|i: int| 0 <= i < split_tokens(text).len() ==> is_token(#[trigger] split_tokens(text)[i]),
    decreases text.len(),
{
    if text.len() > 0 {
        lemma_scan_yields_tokens(text.drop_last());
    }
}

pub open spec fn all_separators(s: Seq<char>) -> bool {
    forall|i: int| 0 <= i < s.len() ==> is_separator(#[trigger] s[i])
}

/// What a scan does with the rest of a text depends on the text before it
/// only through the state that the scan is in.
pub proof fn lemma_scan_continues(x: Seq<char>, y: Seq<char>, rest: Seq<char>)
    requires
        scan(x) == scan(y),
    ensures
        scan(x + rest) == scan(y + rest),
        split_tokens(x + rest) == split_tokens(y + rest),
    decreases rest.len(),
{
    if rest.len() == 0 {
        assert(x + rest =~= x);
        assert(y + rest =~= y);
    } else {
        lemma_scan_continues(x, y, rest.drop_last());
        assert((x + rest).drop_last() =~= x + rest.drop_last());
        assert((y + rest).drop_last() =~= y + rest.drop_last());
    }
}

/// Separators, however many, complete the pending token and do no more.
pub proof fn lemma_separators_flush(text: Seq<char>, separators: Seq<char>)
    requires
        all_separators(separators),
        separators.len() > 0,
    ensures
        scan(text + separators) == flush(scan(text)),
    decreases separators.len(),
{
    assert((text + separators).drop_last() =~= text + separators.drop_last());
    if separators.len() == 1 {
        assert(text + separators.drop_last() =~= text);
    } else {
        lemma_separators_flush(text, separators.drop_last());
    }
}

/// Between two parts of a text, one run of separators is as good as another:
/// how many there are, and which, makes no difference to the tokens.
pub proof fn lemma_separator_runs_are_alike(
    before: Seq<char>,
    one: Seq<char>,
    other: Seq<char>,
    after: Seq<char>,
)
    requires
        all_separators(one),
        all_separators(other),
        one.len() > 0,
        other.len() > 0,
    ensures
        split_tokens(before + one + after) == split_tokens(before + other + after),
{
    lemma_separators_flush(before, one);
    lemma_separators_flush(before, other);
    lemma_scan_continues(before + one, before + other, after);
}

/// Separators in front of a letter can be left out: the letter ends the
/// token before it by itself.
pub proof fn lemma_separators_before_letter(
    before: Seq<char>,
    separators: Seq<char>,
    after: Seq<char>,
)
    requires
        all_separators(separators),
        after.len() > 0,
        class_of(after[0]) == CharClass::Letter,
    ensures
        split_tokens(before + separators + after) == split_tokens(before + after),
{
    if separators.len() == 0 {
        assert(before + separators =~= before);
    } else {
        let letter = seq![after[0]];
        lemma_separators_flush(before, separators);
        assert((before + separators + letter).drop_last() =~= before + separators);
        assert((before + letter).drop_last() =~= before);
        lemma_scan_continues(before + separators + letter, before + letter, after.drop_first());
        assert(before + separators + letter + after.drop_first() =~= before + separators + after);
        assert(before + letter + after.drop_first() =~= before + after);
    }
}

/// Separators at either end of a text can be left out.
pub proof fn lemma_outer_separators(leading: Seq<char>, text: Seq<char>, trailing: Seq<char>)
    requires
        all_separators(leading),
        all_separators(trailing),
    ensures
        split_tokens(leading + text + trailing) == split_tokens(text),
{
    let empty = Seq::<char>::empty();
    if leading.len() > 0 {
        lemma_separators_flush(empty, leading);
        assert(empty + leading =~= leading);
    }
    assert(scan(leading) == scan(empty));
    lemma_scan_continues(leading, empty, text);
    assert(empty + text =~= text);
    if trailing.len() > 0 {
        lemma_separators_flush(leading + text, trailing);
    } else {
        assert(leading + text + trailing =~= leading + text);
    }
}

/// `char::is_alphabetic`: whether the character has the Unicode property
/// Alphabetic. The contract gives that answer a name and claims no more.
#[verifier::external_body]
fn is_alphabetic(c: char) -> (b: bool)
    ensures
        b == alphabetic(c),
{
    c.is_alphabetic()
}

/// `String::push`: appends one character to the end of the string.
#[verifier::external_body]
fn push_char(text: &mut String, c: char)
    ensures
        final(text)@ == old(text)@.push(c),
{
    text.push(c)
}

/// The class of a character.
pub fn classify(c: char) -> (class: CharClass)
    ensures
        class == class_of(c),
{
    if c == ' ' || c == ',' {
        CharClass::Separator
    } else if is_alphabetic(c) {
        CharClass::Letter
    } else {
        CharClass::Other
    }
}

/// A tokenizer that is fed one character at a time.
pub struct Tokenizer {
    tokens: Vec<String>,
    pending: String,
    state: ScanState,
}

impl View for Tokenizer {
    type V = Scan;

    closed spec fn view(&self) -> Scan {
        Scan { tokens: texts(self.tokens@), pending: self.pending@, state: self.state }
    }
}

impl Tokenizer {
    /// A tokenizer that has read nothing.
    pub fn new() -> (t: Tokenizer)
        ensures
            t@ == start(),
    {
        let t = Tokenizer { tokens: Vec::new(), pending: String::new(), state: ScanState::Idle };
        assert(texts(t.tokens@) =~= Seq::empty());
        t
    }

    /// What the tokenizer is doing.
    pub fn state(&self) -> (state: ScanState)
        ensures
            state == self@.state,
    {
        self.state
    }

    fn flush(&mut self)
        ensures
            final(self)@ == flush(old(self)@),
    {
        if !self.pending.as_str().is_empty() {
            let mut token = String::new();
            std::mem::swap(&mut token, &mut self.pending);
            let ghost before = self.tokens@;
            self.tokens.push(token);
            self.state = ScanState::Idle;
            assert(texts(before.push(token)) =~= texts(before).push(token@));
        }
    }

    /// Reads one character, whose class the caller has determined.
    pub fn feed(&mut self, c: char, class: CharClass)
        ensures
            final(self)@ == scan_step(old(self)@, c, class),
    {
        match class {
            CharClass::Separator => {
                self.flush();
            },
            CharClass::Letter => {
                self.flush();
                push_char(&mut self.pending, c);
                self.state = ScanState::AccumulatingCommand;
                assert(self.pending@ =~= seq![c]);
            },
            CharClass::Other => {
                push_char(&mut self.pending, c);
                if let ScanState::Idle = self.state {
                    self.state = ScanState::AccumulatingNumber;
                }
            },
        }
    }

    /// Ends the text and hands out the tokens.
    pub fn finish(self) -> (tokens: Vec<String>)
        ensures
            texts(tokens@) == flush(self@).tokens,
    {
        let mut t = self;
        t.flush();
        t.tokens
    }
}

/// Splits path data into its tokens.
///
/// Spaces and commas separate tokens and belong to none. A letter begins a
/// token of its own, which then takes in what follows up to the next
/// separator or letter.
pub fn split_path(target: &str) -> (tokens: Vec<String>)
    ensures
        texts(tokens@) == split_tokens(target@),
        forall|i: int| 0 <= i < tokens.len() ==> is_token(#[trigger] tokens[i]@),
{
    let mut t = Tokenizer::new();
    for c in it: target.chars()
        invariant
            it.seq() == target@,
            t@ == scan(target@.take(it.index() as int)),
    {
        assert(target@.take(it.index() + 1).drop_last() == target@.take(it.index() as int));
        let class = classify(c);
        t.feed(c, class);
    }
    assert(target@.take(target@.len() as int) == target@);
    let tokens = t.finish();
    proof {
        lemma_scan_yields_tokens(target@);
        assert forall|i: int| 0 <= i < tokens.len() implies is_token(#[trigger] tokens[i]@) by {
            assert(texts(tokens@)[i] == tokens[i]@);
            assert(is_token(split_tokens(target@)[i]));
        }
    }
    tokens
}

} // verus!
