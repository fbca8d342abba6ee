use raqote_utils::split_path;
use raqote_utils::token::{classify, CharClass, ScanState, Tokenizer};

#[test]
fn splits_on_spaces_and_commas() {
    assert_eq!(split_path("M 0,0 L 10 10"), vec!["M", "0", "0", "L", "10", "10"]);
}

#[test]
fn letter_ends_the_token_before_it() {
    assert_eq!(split_path("M10L5"), vec!["M10", "L5"]);
}

#[test]
fn first_argument_joins_its_letter() {
    assert_eq!(
        split_path("M105 57.0273V453.751H252.659"),
        vec!["M105", "57.0273", "V453.751", "H252.659"]
    );
}

#[test]
fn letters_in_a_row_are_tokens_of_their_own() {
    assert_eq!(split_path("abZ"), vec!["a", "b", "Z"]);
}

#[test]
fn empty_text_has_no_tokens() {
    assert_eq!(split_path(""), Vec::<String>::new());
}

#[test]
fn separators_alone_have_no_tokens() {
    assert_eq!(split_path(" ,, , "), Vec::<String>::new());
}

#[test]
fn repeated_separators_leave_no_empty_token() {
    assert_eq!(split_path(",1,, ,2  "), vec!["1", "2"]);
}

#[test]
fn signs_and_points_stay_in_their_token() {
    assert_eq!(split_path("-1.5-2 +3"), vec!["-1.5-2", "+3"]);
}

#[test]
fn letter_outside_ascii_begins_a_token() {
    assert_eq!(split_path("1\u{e9}2"), vec!["1", "\u{e9}2"]);
}

#[test]
fn tab_is_no_separator() {
    assert_eq!(split_path("1\t2"), vec!["1\t2"]);
}

#[test]
fn classes_of_characters() {
    assert_eq!(classify(' '), CharClass::Separator);
    assert_eq!(classify(','), CharClass::Separator);
    assert_eq!(classify('M'), CharClass::Letter);
    assert_eq!(classify('z'), CharClass::Letter);
    assert_eq!(classify('\u{4eac}'), CharClass::Letter);
    assert_eq!(classify('7'), CharClass::Other);
    assert_eq!(classify('-'), CharClass::Other);
    assert_eq!(classify('.'), CharClass::Other);
    assert_eq!(classify('\n'), CharClass::Other);
}

#[test]
fn tokenizer_fed_by_hand_agrees_with_split_path() {
    let text = "M1,2 l-3 4Z";
    let mut tokenizer = Tokenizer::new();
    for c in text.chars() {
        tokenizer.feed(c, classify(c));
    }
    assert_eq!(tokenizer.finish(), split_path(text));
    assert_eq!(split_path(text), vec!["M1", "2", "l-3", "4", "Z"]);
}

#[test]
fn tokenizer_goes_by_the_class_it_is_given() {
    let mut tokenizer = Tokenizer::new();
    tokenizer.feed('1', CharClass::Other);
    tokenizer.feed('2', CharClass::Letter);
    tokenizer.feed('3', CharClass::Other);
    tokenizer.feed('4', CharClass::Separator);
    tokenizer.feed('5', CharClass::Other);
    assert_eq!(tokenizer.finish(), vec!["1", "23", "5"]);
}

#[test]
fn tokenizer_without_input_has_no_tokens() {
    assert_eq!(Tokenizer::new().finish(), Vec::<String>::new());
}

#[test]
fn any_run_of_separators_gives_the_same_tokens() {
    assert_eq!(split_path("M1 2"), split_path("M1, ,,2"));
    assert_eq!(split_path("  M1 2, "), split_path("M1 2"));
    assert_eq!(split_path("1 L2"), split_path("1L2"));
}

#[test]
fn tokenizer_goes_through_its_states() {
    let mut tokenizer = Tokenizer::new();
    assert_eq!(tokenizer.state(), ScanState::Idle);
    tokenizer.feed(' ', CharClass::Separator);
    assert_eq!(tokenizer.state(), ScanState::Idle);
    tokenizer.feed('1', CharClass::Other);
    assert_eq!(tokenizer.state(), ScanState::AccumulatingNumber);
    tokenizer.feed('2', CharClass::Other);
    assert_eq!(tokenizer.state(), ScanState::AccumulatingNumber);
    tokenizer.feed('M', CharClass::Letter);
    assert_eq!(tokenizer.state(), ScanState::AccumulatingCommand);
    tokenizer.feed('3', CharClass::Other);
    assert_eq!(tokenizer.state(), ScanState::AccumulatingCommand);
    tokenizer.feed('L', CharClass::Letter);
    assert_eq!(tokenizer.state(), ScanState::AccumulatingCommand);
    tokenizer.feed(',', CharClass::Separator);
    assert_eq!(tokenizer.state(), ScanState::Idle);
    tokenizer.feed(',', CharClass::Separator);
    assert_eq!(tokenizer.state(), ScanState::Idle);
    assert_eq!(tokenizer.finish(), vec!["12", "M3", "L"]);
}
