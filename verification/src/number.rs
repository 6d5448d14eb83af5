//! The literals of numeric columns: signed integers, decimal numbers, and the
//! decimal text of a count.

use vstd::prelude::*;

verus! {

/// Whether `c` is one of the ten ASCII digits.
pub open spec fn is_digit(c: char) -> bool {
    '0' <= c && c <= '9'
}

/// The number that the digit `c` stands for.
pub open spec fn digit_value(c: char) -> int {
    c as int - '0' as int
}

/// Whether every character of `s` is a digit.
pub open spec fn all_digits(s: Seq<char>) -> bool {
    forall|i: int| 0 <= i < s.len() ==> is_digit(#[trigger] s[i])
}

/// The number that a run of digits denotes in base ten; the empty run is 0.
pub open spec fn digits_value(s: Seq<char>) -> int
    decreases s.len(),
{
    if s.len() == 0 {
        0
    } else {
        10 * digits_value(s.drop_last()) + digit_value(s.last())
    }
}

/// The integer that `s` denotes: an optional sign, then at least one digit
/// and nothing else.
pub open spec fn integer_literal(s: Seq<char>) -> Option<int> {
    if s.len() == 0 {
        None
    } else {
        let digits = if s[0] == '-' || s[0] == '+' {
            s.skip(1)
        } else {
            s
        };
        if digits.len() > 0 && all_digits(digits) {
            Some(
                if s[0] == '-' {
                    -digits_value(digits)
                } else {
                    digits_value(digits)
                },
            )
        } else {
            None
        }
    }
}

/// The 64-bit signed integer that `s` denotes, if it denotes one that fits.
pub open spec fn parse_i64(s: Seq<char>) -> Option<i64> {
    match integer_literal(s) {
        Some(v) => if i64::MIN <= v <= i64::MAX {
            Some(v as i64)
        } else {
            None
        },
        None => None,
    }
}

/// The value of an integer column: what the text denotes, or zero where it
/// denotes no 64-bit integer.
pub open spec fn integer_or_zero(s: Seq<char>) -> i64 {
    match parse_i64(s) {
        Some(v) => v,
        None => 0,
    }
}

/// A run of digits is worth at least as much as each of its prefixes.
pub proof fn lemma_digits_value_monotonic(s: Seq<char>, k: int)
    requires
        all_digits(s),
        0 <= k <= s.len(),
    ensures
        0 <= digits_value(s.subrange(0, k)) <= digits_value(s),
    decreases s.len() - k,
{
    lemma_digits_value_nonnegative(s.subrange(0, k));
    if k == s.len() {
        assert(s.subrange(0, k) =~= s);
    } else {
        let longer = s.subrange(0, k + 1);
        lemma_digits_value_monotonic(s, k + 1);
        assert(longer.drop_last() =~= s.subrange(0, k));
        assert(is_digit(longer.last()));
    }
}

/// A run of digits denotes no negative number.
pub proof fn lemma_digits_value_nonnegative(s: Seq<char>)
    requires
        all_digits(s),
    ensures
        0 <= digits_value(s),
    decreases s.len(),
{
    if s.len() > 0 {
        lemma_digits_value_nonnegative(s.drop_last());
        assert(is_digit(s.last()));
    }
}

/// Reads a signed 64-bit integer: an optional `+` or `-`, then digits only.
/// Returns `None` for the empty text, a lone sign, any other character, and a
/// number outside the 64-bit range.
pub fn parse_integer(text: &Vec<char>) -> (r: Option<i64>)
    ensures
        r == parse_i64(text@),
{
    if text.len() == 0 {
        return None;
    }
    let first = text[0];
    let negative = first == '-';
    let start: usize = if first == '-' || first == '+' {
        1
    } else {
        0
    };
    let ghost digits = text@.skip(start as int);
    if start == text.len() {
        return None;
    }
    let limit: u64 = if negative {
        9_223_372_036_854_775_808
    } else {
        9_223_372_036_854_775_807
    };
    let mut magnitude: u64 = 0;
    let mut i: usize = start;
    proof {
        assert(digits.subrange(0, 0) =~= Seq::<char>::empty());
    }
    while i < text.len()
        invariant
            start <= i <= text.len(),
            0 < text.len(),
            start < text.len(),
            negative == (text@[0] == '-'),
            start == if text@[0] == '-' || text@[0] == '+' {
                1usize
            } else {
                0usize
            },
            digits == text@.skip(start as int),
            all_digits(digits.subrange(0, i - start)),
            magnitude == digits_value(digits.subrange(0, i - start)),
            magnitude <= limit,
            limit == if negative {
                9_223_372_036_854_775_808u64
            } else {
                9_223_372_036_854_775_807u64
            },
        decreases text.len() - i,
    {
        let c = text[i];
        if c < '0' || c > '9' {
            proof {
                assert(digits[i - start] == c);
            }
            return None;
        }
        let d: u64 = (c as u32 - '0' as u32) as u64;
        let ghost longer = digits.subrange(0, i - start + 1);
        proof {
            assert(longer.drop_last() =~= digits.subrange(0, i - start));
            assert(longer.last() == c);
            assert(digits_value(longer) == 10 * magnitude + d);
            assert forall|j: int| 0 <= j < longer.len() implies is_digit(#[trigger] longer[j]) by {
                if j < i - start {
                    assert(longer[j] == digits.subrange(0, i - start)[j]);
                }
            }
        }
        if magnitude > (limit - d) / 10 {
            proof {
                assert(digits_value(longer) > limit);
                assert(text@.skip(0) =~= text@);
                if all_digits(digits) {
                    lemma_digits_value_monotonic(digits, i - start + 1);
                }
            }
            return None;
        }
        magnitude = magnitude * 10 + d;
        i = i + 1;
    }
    proof {
        assert(digits.subrange(0, i - start) =~= digits);
        assert(text@.skip(0) =~= text@);
    }
    if negative {
        if magnitude == 9_223_372_036_854_775_808 {
            Some(i64::MIN)
        } else {
            Some(-(magnitude as i64))
        }
    } else {
        Some(magnitude as i64)
    }
}

/// Length of the longest run of digits that `s` starts with.
pub open spec fn digit_run(s: Seq<char>) -> int
    decreases s.len(),
{
    if s.len() > 0 && is_digit(s[0]) {
        1 + digit_run(s.skip(1))
    } else {
        0
    }
}

/// Whether `s` spells `inf`, `nan` or `infinity`, in any mix of cases.
pub open spec fn is_special_word(s: Seq<char>) -> bool {
    ||| (s.len() == 3 && (s[0] == 'i' || s[0] == 'I') && (s[1] == 'n' || s[1] == 'N') && (s[2]
        == 'f' || s[2] == 'F'))
    ||| (s.len() == 3 && (s[0] == 'n' || s[0] == 'N') && (s[1] == 'a' || s[1] == 'A') && (s[2]
        == 'n' || s[2] == 'N'))
    ||| (s.len() == 8 && (s[0] == 'i' || s[0] == 'I') && (s[1] == 'n' || s[1] == 'N') && (s[2]
        == 'f' || s[2] == 'F') && (s[3] == 'i' || s[3] == 'I') && (s[4] == 'n' || s[4] == 'N')
        && (s[5] == 'i' || s[5] == 'I') && (s[6] == 't' || s[6] == 'T') && (s[7] == 'y' || s[7]
        == 'Y'))
}

/// Whether `s` is an exponent: `e` or `E`, an optional sign, then digits only
/// and at least one.
pub open spec fn is_exponent(s: Seq<char>) -> bool {
    s.len() >= 2 && (s[0] == 'e' || s[0] == 'E') && {
        let digits = if s[1] == '+' || s[1] == '-' {
            s.skip(2)
        } else {
            s.skip(1)
        };
        digits.len() >= 1 && digit_run(digits) == digits.len()
    }
}

/// Whether `s` is an unsigned number: digits, optionally a point and more
/// digits, with at least one digit on one side of the point, and optionally an
/// exponent.
pub open spec fn is_plain_number(s: Seq<char>) -> bool {
    let whole = digit_run(s);
    let after_whole = s.skip(whole);
    let has_point = after_whole.len() > 0 && after_whole[0] == '.';
    let fraction = if has_point {
        digit_run(after_whole.skip(1))
    } else {
        0
    };
    let rest = if has_point {
        after_whole.skip(1 + fraction)
    } else {
        after_whole
    };
    whole + fraction >= 1 && (rest.len() == 0 || is_exponent(rest))
}

/// Whether `s` is a decimal literal: an optional sign, then either a number
/// or one of the words `inf`, `infinity` and `nan`.
pub open spec fn is_decimal_literal(s: Seq<char>) -> bool {
    let body = if s.len() > 0 && (s[0] == '+' || s[0] == '-') {
        s.skip(1)
    } else {
        s
    };
    is_special_word(body) || is_plain_number(body)
}

/// Finds where the run of digits that starts at `from` ends.
fn scan_digits(text: &Vec<char>, from: usize) -> (to: usize)
    requires
        from <= text.len(),
    ensures
        from <= to <= text.len(),
        to - from == digit_run(text@.skip(from as int)),
{
    let mut i: usize = from;
    while i < text.len() && text[i] >= '0' && text[i] <= '9'
        invariant
            from <= i <= text.len(),
            digit_run(text@.skip(from as int)) == (i - from) + digit_run(text@.skip(i as int)),
        decreases text.len() - i,
    {
        proof {
            assert(text@.skip(i as int)[0] == text@[i as int]);
            assert(text@.skip(i as int).skip(1) =~= text@.skip(i + 1));
        }
        i = i + 1;
    }
    proof {
        if i < text.len() {
            assert(text@.skip(i as int)[0] == text@[i as int]);
        }
    }
    i
}

/// Whether the characters from `from` on spell `inf`, `nan` or `infinity`.
fn special_word_at(text: &Vec<char>, from: usize) -> (yes: bool)
    requires
        from <= text.len(),
    ensures
        yes == is_special_word(text@.skip(from as int)),
{
    let n = text.len() - from;
    let ghost s = text@.skip(from as int);
    if n == 3 {
        let a = text[from];
        let b = text[from + 1];
        let c = text[from + 2];
        proof {
            assert(s[0] == a && s[1] == b && s[2] == c);
        }
        ((a == 'i' || a == 'I') && (b == 'n' || b == 'N') && (c == 'f' || c == 'F')) || ((a == 'n'
            || a == 'N') && (b == 'a' || b == 'A') && (c == 'n' || c == 'N'))
    } else if n == 8 {
        proof {
            assert(s[0] == text@[from + 0] && s[1] == text@[from + 1] && s[2] == text@[from + 2]
                && s[3] == text@[from + 3] && s[4] == text@[from + 4] && s[5] == text@[from + 5]
                && s[6] == text@[from + 6] && s[7] == text@[from + 7]);
        }
        (text[from] == 'i' || text[from] == 'I') && (text[from + 1] == 'n' || text[from + 1] == 'N')
            && (text[from + 2] == 'f' || text[from + 2] == 'F') && (text[from + 3] == 'i'
            || text[from + 3] == 'I') && (text[from + 4] == 'n' || text[from + 4] == 'N') && (
        text[from + 5] == 'i' || text[from + 5] == 'I') && (text[from + 6] == 't' || text[from + 6]
            == 'T') && (text[from + 7] == 'y' || text[from + 7] == 'Y')
    } else {
        false
    }
}

/// Whether the characters from `from` on are an exponent.
fn exponent_at(text: &Vec<char>, from: usize) -> (yes: bool)
    requires
        from <= text.len(),
    ensures
        yes == is_exponent(text@.skip(from as int)),
{
    let ghost s = text@.skip(from as int);
    if text.len() - from < 2 {
        return false;
    }
    proof {
        assert(s[0] == text@[from as int] && s[1] == text@[from + 1]);
    }
    if text[from] != 'e' && text[from] != 'E' {
        return false;
    }
    let digits_from: usize = if text[from + 1] == '+' || text[from + 1] == '-' {
        from + 2
    } else {
        from + 1
    };
    let digits_to = scan_digits(text, digits_from);
    proof {
        assert(s.skip(digits_from - from) =~= text@.skip(digits_from as int));
    }
    digits_from < text.len() && digits_to == text.len()
}

/// Whether the characters from `from` on are an unsigned number.
fn plain_number_at(text: &Vec<char>, from: usize) -> (yes: bool)
    requires
        from <= text.len(),
    ensures
        yes == is_plain_number(text@.skip(from as int)),
{
    let ghost s = text@.skip(from as int);
    let whole_to = scan_digits(text, from);
    proof {
        assert(s.skip(whole_to - from) =~= text@.skip(whole_to as int));
        if whole_to < text.len() {
            assert(text@.skip(whole_to as int)[0] == text@[whole_to as int]);
        }
    }
    let has_point = whole_to < text.len() && text[whole_to] == '.';
    let fraction_to = if has_point {
        let to = scan_digits(text, whole_to + 1);
        proof {
            assert(text@.skip(whole_to as int).skip(1) =~= text@.skip(whole_to + 1));
            assert(text@.skip(whole_to as int).skip(1 + (to - (whole_to + 1))) =~= text@.skip(
                to as int,
            ));
        }
        to
    } else {
        whole_to
    };
    let digits: usize = if has_point {
        (whole_to - from) + (fraction_to - (whole_to + 1))
    } else {
        whole_to - from
    };
    if digits == 0 {
        return false;
    }
    if fraction_to == text.len() {
        return true;
    }
    exponent_at(text, fraction_to)
}

/// Tells whether `text` is a decimal literal: an optional sign, then digits
/// with an optional point and exponent, or one of the words `inf`, `infinity`
/// and `nan` in any mix of cases. White space is not part of a literal.
pub fn is_decimal_text(text: &Vec<char>) -> (yes: bool)
    ensures
        yes == is_decimal_literal(text@),
{
    let from: usize = if text.len() > 0 && (text[0] == '+' || text[0] == '-') {
        1
    } else {
        0
    };
    proof {
        assert(text@.skip(0) =~= text@);
    }
    special_word_at(text, from) || plain_number_at(text, from)
}

/// The character of a digit below ten.
pub open spec fn digit_char(d: nat) -> char {
    if d == 0 {
        '0'
    } else if d == 1 {
        '1'
    } else if d == 2 {
        '2'
    } else if d == 3 {
        '3'
    } else if d == 4 {
        '4'
    } else if d == 5 {
        '5'
    } else if d == 6 {
        '6'
    } else if d == 7 {
        '7'
    } else if d == 8 {
        '8'
    } else {
        '9'
    }
}

/// The decimal text of `n`, without sign or leading zeros.
pub open spec fn decimal(n: nat) -> Seq<char>
    decreases n,
{
    if n < 10 {
        seq![digit_char(n)]
    } else {
        decimal(n / 10).push(digit_char(n % 10))
    }
}

fn digit_to_char(d: u64) -> (c: char)
    requires
        d < 10,
    ensures
        c == digit_char(d as nat),
{
    if d == 0 {
        '0'
    } else if d == 1 {
        '1'
    } else if d == 2 {
        '2'
    } else if d == 3 {
        '3'
    } else if d == 4 {
        '4'
    } else if d == 5 {
        '5'
    } else if d == 6 {
        '6'
    } else if d == 7 {
        '7'
    } else if d == 8 {
        '8'
    } else {
        '9'
    }
}

/// Appends the decimal text of `n` to `out`.
pub fn push_decimal(out: &mut Vec<char>, n: u64)
    ensures
        final(out)@ == old(out)@ + decimal(n as nat),
    decreases n,
{
    if n < 10 {
        let c = digit_to_char(n);
        out.push(c);
        proof {
            assert(out@ =~= old(out)@ + seq![c]);
        }
    } else {
        push_decimal(out, n / 10);
        let c = digit_to_char(n % 10);
        out.push(c);
        proof {
            assert(out@ =~= old(out)@ + decimal((n / 10) as nat).push(c));
        }
    }
}

} // verus!
