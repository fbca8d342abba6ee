//! Decimal numbers in text, read as fixed-point values.
//!
//! A number is an optional sign, then digits with at most one decimal point
//! among them and at least one digit in all: `12`, `-3.5`, `+.25`, `7.`. Its
//! value is counted in millionths; fraction digits past the sixth are cut off.
//! A number whose magnitude in millionths exceeds `i64::MAX` is not read.
use vstd::prelude::*;
use vstd::std_specs::iter::IteratorSpec;
use crate::path::SCALE;

verus! {

/// The number of fraction digits that are kept.
pub const FRACTION_PLACES: usize = 6;

/// The largest whole part whose millionths can still fit an `i64`:
/// `i64::MAX / SCALE`.
pub const WHOLE_LIMIT: u64 = 9_223_372_036_854;

pub open spec fn is_digit(c: char) -> bool {
    '0' <= c && c <= '9'
}

pub open spec fn digit_value(c: char) -> int {
    c as int - '0' as int
}

pub open spec fn all_digits(s: Seq<char>) -> bool {
    forall|i: int| 0 <= i < s.len() ==> is_digit(#[trigger] s[i])
}

/// The number that a run of digits spells in base ten; zero for no digits.
pub open spec fn digits_value(s: Seq<char>) -> nat
    decreases s.len(),
{
    if s.len() == 0 {
        0
    } else {
        (10 * digits_value(s.drop_last()) + digit_value(s.last())) as nat
    }
}

pub open spec fn has_sign(s: Seq<char>) -> bool {
    s.len() > 0 && (s[0] == '-' || s[0] == '+')
}

pub open spec fn is_negative(s: Seq<char>) -> bool {
    s.len() > 0 && s[0] == '-'
}

/// The text without its sign.
pub open spec fn unsigned_part(s: Seq<char>) -> Seq<char> {
    if has_sign(s) {
        s.skip(1)
    } else {
        s
    }
}

/// The index of the first decimal point, or the length where there is none.
pub open spec fn point_position(s: Seq<char>) -> nat
    decreases s.len(),
{
    if s.len() == 0 || s[0] == '.' {
        0
    } else {
        1 + point_position(s.drop_first())
    }
}

/// What stands between the sign and the first decimal point.
pub open spec fn whole_digits(s: Seq<char>) -> Seq<char> {
    let u = unsigned_part(s);
    u.take(point_position(u) as int)
}

/// What stands after the first decimal point.
pub open spec fn fraction_digits(s: Seq<char>) -> Seq<char> {
    let u = unsigned_part(s);
    let p = point_position(u);
    if p < u.len() {
        u.skip(p as int + 1)
    } else {
        Seq::empty()
    }
}

/// Whether the text is a decimal number.
pub open spec fn is_decimal(s: Seq<char>) -> bool {
    &&& all_digits(whole_digits(s))
    &&& all_digits(fraction_digits(s))
    &&& whole_digits(s).len() + fraction_digits(s).len() > 0
}

/// The first six fraction digits, with zeros where the text has fewer.
pub open spec fn six_places(f: Seq<char>) -> Seq<char> {
    Seq::new(
        FRACTION_PLACES as nat,
        |i: int|
            if i < f.len() {
                f[i]
            } else {
                '0'
            },
    )
}

/// Ten to the power `k`, for the places that are kept.
spec fn place_weight(k: int) -> int {
    if k <= 0 {
        1
    } else if k == 1 {
        10
    } else if k == 2 {
        100
    } else if k == 3 {
        1_000
    } else if k == 4 {
        10_000
    } else if k == 5 {
        100_000
    } else {
        1_000_000
    }
}

/// The size of a decimal number in millionths, its sign left aside.
pub open spec fn magnitude(s: Seq<char>) -> nat {
    digits_value(whole_digits(s)) * (SCALE as nat) + digits_value(six_places(fraction_digits(s)))
}

/// The fixed-point value of a text: `None` where it is no decimal number or
/// its millionths do not fit an `i64`.
pub open spec fn decimal_value(s: Seq<char>) -> Option<int> {
    if is_decimal(s) && magnitude(s) <= i64::MAX {
        Some(
            if is_negative(s) {
                -(magnitude(s) as int)
            } else {
                magnitude(s) as int
            },
        )
    } else {
        None
    }
}

/// The characters of a string, in order.
pub fn collect_chars(text: &str) -> (chars: Vec<char>)
    ensures
        chars@ == text@,
{
    let mut chars: Vec<char> = Vec::new();
    for c in it: text.chars()
        invariant
            it.seq() == text@,
            chars@ == text@.take(it.index() as int),
    {
        chars.push(c);
    }
    chars
}

fn digit_of(c: char) -> (d: u64)
    requires
        is_digit(c),
    ensures
        d == digit_value(c),
        d <= 9,
{
    (c as u32 - '0' as u32) as u64
}

fn find_point(chars: &Vec<char>, from: usize) -> (p: usize)
    requires
        from <= chars.len(),
    ensures
        from <= p <= chars.len(),
        p == from + point_position(chars@.skip(from as int)),
        p < chars.len() ==> chars[p as int] == '.',
{
    let mut i: usize = from;
    while i < chars.len() && chars[i] != '.'
        invariant
            from <= i <= chars.len(),
            from + point_position(chars@.skip(from as int)) == i + point_position(
                chars@.skip(i as int),
            ),
        decreases chars.len() - i,
    {
        assert(chars@.skip(i as int).drop_first() == chars@.skip(i + 1));
        i = i + 1;
    }
    i
}

fn digits_only(chars: &Vec<char>, lo: usize, hi: usize) -> (b: bool)
    requires
        lo <= hi <= chars.len(),
    ensures
        b == all_digits(chars@.subrange(lo as int, hi as int)),
{
    let mut i: usize = lo;
    while i < hi
        invariant
            lo <= i <= hi <= chars.len(),
            all_digits(chars@.subrange(lo as int, i as int)),
        decreases hi - i,
    {
        let c = chars[i];
        if !('0' <= c && c <= '9') {
            assert(chars@.subrange(lo as int, hi as int)[i - lo] == c);
            return false;
        }
        assert forall|j: int| 0 <= j < i + 1 - lo implies is_digit(
            #[trigger] chars@.subrange(lo as int, i + 1)[j],
        ) by {
            if j < i - lo {
                assert(chars@.subrange(lo as int, i as int)[j] == chars@[lo + j]);
            }
        }
        i = i + 1;
    }
    true
}

/// The value of the digits in `lo..hi`, unless it exceeds `WHOLE_LIMIT`.
fn whole_value(chars: &Vec<char>, lo: usize, hi: usize) -> (r: Option<u64>)
    requires
        lo <= hi <= chars.len(),
        all_digits(chars@.subrange(lo as int, hi as int)),
    ensures
        match r {
            Some(w) => w == digits_value(chars@.subrange(lo as int, hi as int)) && w
                <= WHOLE_LIMIT,
            None => digits_value(chars@.subrange(lo as int, hi as int)) > WHOLE_LIMIT,
        },
{
    let mut i: usize = lo;
    let mut acc: u64 = 0;
    let mut exceeded = false;
    while i < hi
        invariant
            lo <= i <= hi <= chars.len(),
            all_digits(chars@.subrange(lo as int, hi as int)),
            acc <= WHOLE_LIMIT,
            !exceeded ==> acc == digits_value(chars@.subrange(lo as int, i as int)),
            exceeded ==> digits_value(chars@.subrange(lo as int, i as int)) > WHOLE_LIMIT,
        decreases hi - i,
    {
        assert(chars@.subrange(lo as int, i + 1).drop_last() == chars@.subrange(
            lo as int,
            i as int,
        ));
        assert(chars@.subrange(lo as int, hi as int)[i - lo] == chars@[i as int]);
        let d = digit_of(chars[i]);
        if !exceeded {
            if acc > (WHOLE_LIMIT - d) / 10 {
                exceeded = true;
            } else {
                acc = acc * 10 + d;
            }
        }
        i = i + 1;
    }
    if exceeded {
        None
    } else {
        Some(acc)
    }
}

/// The millionths that the fraction digits in `lo..hi` stand for.
fn fraction_value(chars: &Vec<char>, lo: usize, hi: usize) -> (r: u64)
    requires
        lo <= hi <= chars.len(),
        all_digits(chars@.subrange(lo as int, hi as int)),
    ensures
        r == digits_value(six_places(chars@.subrange(lo as int, hi as int))),
        r < SCALE,
{
    let ghost places = six_places(chars@.subrange(lo as int, hi as int));
    let mut k: usize = 0;
    let mut acc: u64 = 0;
    let mut bound: u64 = 1;
    while k < FRACTION_PLACES
        invariant
            k <= FRACTION_PLACES,
            lo <= hi <= chars.len(),
            all_digits(chars@.subrange(lo as int, hi as int)),
            places == six_places(chars@.subrange(lo as int, hi as int)),
            acc == digits_value(places.take(k as int)),
            acc < bound,
            bound == place_weight(k as int),
        decreases FRACTION_PLACES - k,
    {
        assert(places.take(k + 1).drop_last() == places.take(k as int));
        let d = if k < hi - lo {
            assert(chars@.subrange(lo as int, hi as int)[k as int] == chars@[lo + k]);
            digit_of(chars[lo + k])
        } else {
            0
        };
        acc = acc * 10 + d;
        bound = bound * 10;
        k = k + 1;
    }
    assert(places.take(FRACTION_PLACES as int) == places);
    acc
}

/// Reads a decimal number from its characters.
pub fn parse_chars(chars: &Vec<char>) -> (r: Option<i64>)
    ensures
        match r {
            Some(v) => decimal_value(chars@) == Some(v as int),
            None => decimal_value(chars@) is None,
        },
{
    let n = chars.len();
    let negative = n > 0 && chars[0] == '-';
    let start: usize = if n > 0 && (chars[0] == '-' || chars[0] == '+') {
        1
    } else {
        0
    };
    let point = find_point(chars, start);
    let after: usize = if point < n {
        point + 1
    } else {
        n
    };
    proof {
        let u = unsigned_part(chars@);
        assert(u == chars@.skip(start as int));
        assert(whole_digits(chars@) == chars@.subrange(start as int, point as int));
        assert(fraction_digits(chars@) == chars@.subrange(after as int, n as int));
    }
    if !digits_only(chars, start, point) || !digits_only(chars, after, n) {
        return None;
    }
    if point - start + (n - after) == 0 {
        return None;
    }
    match whole_value(chars, start, point) {
        None => None,
        Some(whole) => {
            let fraction = fraction_value(chars, after, n);
            let size: u64 = whole * (SCALE as u64) + fraction;
            if size > i64::MAX as u64 {
                None
            } else if negative {
                Some(-(size as i64))
            } else {
                Some(size as i64)
            }
        },
    }
}

/// Reads a decimal number as a count of millionths.
///
/// Returns `None` where the text is no decimal number, and where the number
/// is too large for an `i64` of millionths.
pub fn parse_number(text: &str) -> (r: Option<i64>)
    ensures
        match r {
            Some(v) => decimal_value(text@) == Some(v as int),
            None => decimal_value(text@) is None,
        },
{
    let chars = collect_chars(text);
    parse_chars(&chars)
}

} // verus!
