use vstd::prelude::*;
use vstd::string::StrSliceExecFns;

verus! {

/// `value` moved by `delta` steps of `step`, up to `max` for a positive `delta` and down to
/// `min` (and never below zero) for a negative one.
pub open spec fn spec_adjust(value: int, delta: int, step: int, min: int, max: int) -> int {
    if delta > 0 {
        if value + step * delta < max { value + step * delta } else { max }
    } else if delta < 0 {
        let lowered = value - step * (-delta);
        let floored = if lowered < 0 { 0 } else { lowered };
        if floored > min { floored } else { min }
    } else {
        value
    }
}

/// Adjusting keeps a value in its range: a value between `min` and `max` stays between them,
/// whatever the step and the number of steps.
pub proof fn law_adjust_stays_in_range(value: int, delta: int, step: int, min: int, max: int)
    requires
        0 <= min <= value <= max,
        step >= 0,
    ensures
        min <= spec_adjust(value, delta, step, min, max) <= max,
{
    if delta > 0 {
        assert(step * delta >= 0) by (nonlinear_arith)
            requires
                step >= 0,
                delta > 0,
        {}
    } else if delta < 0 {
        assert(step * (-delta) >= 0) by (nonlinear_arith)
            requires
                step >= 0,
                delta < 0,
        {}
    }
}

/// `step * factor`, or `usize::MAX` where the product does not fit.
fn saturating_product(step: usize, factor: usize) -> (product: usize)
    ensures
        product == if step * factor <= usize::MAX { step * factor } else { usize::MAX as int },
{
    match step.checked_mul(factor) {
        Some(product) => product,
        None => usize::MAX,
    }
}

/// Moves `value` by `delta` steps of `step`: up, saturating and then capped at `max`, or
/// down, saturating at zero and then raised to at least `min`.
pub fn adjust_usize(value: usize, delta: isize, step: usize, min: usize, max: usize) -> (adjusted: usize)
    requires
        delta != isize::MIN,
    ensures
        adjusted == spec_adjust(value as int, delta as int, step as int, min as int, max as int),
{
    if delta > 0 {
        let raise = saturating_product(step, delta as usize);
        let raised = value.saturating_add(raise);
        proof {
            assert(step * delta >= 0) by (nonlinear_arith)
                requires
                    delta > 0,
            {}
        }
        if raised < max { raised } else { max }
    } else if delta < 0 {
        let lower = saturating_product(step, (-delta) as usize);
        let lowered = value.saturating_sub(lower);
        proof {
            assert(step * (-delta) >= 0) by (nonlinear_arith)
                requires
                    delta < 0,
            {}
        }
        if lowered > min { lowered } else { min }
    } else {
        value
    }
}

/// `c` is one of the ASCII digits `0` to `9`.
pub open spec fn is_digit(c: char) -> bool {
    '0' as int <= c as int <= '9' as int
}

/// The value of the ASCII digit `c`.
pub open spec fn digit_value(c: char) -> int {
    (c as int) - ('0' as int)
}

/// The number written in decimal by the digits of `s`, most significant first.
pub open spec fn decimal_value(s: Seq<char>) -> int
    decreases s.len(),
{
    if s.len() == 0 {
        0
    } else {
        decimal_value(s.drop_last()) * 10 + digit_value(s.last())
    }
}

/// `s` without its leading `+`, if it has one.
pub open spec fn unsigned_part(s: Seq<char>) -> Seq<char> {
    if s.len() > 0 && s[0] == '+' { s.drop_first() } else { s }
}

/// Every character of `s` is a digit.
pub open spec fn all_digits(s: Seq<char>) -> bool {
    forall|i: int| 0 <= i < s.len() ==> #[trigger] is_digit(s[i])
}

/// The number that `s` writes, when it is an optional `+` followed by at least one digit and
/// the value is at most `max`.
pub open spec fn spec_parse_bounded(s: Seq<char>, max: int) -> Option<int> {
    let digits = unsigned_part(s);
    if digits.len() > 0 && all_digits(digits) && 0 <= decimal_value(digits) <= max {
        Some(decimal_value(digits))
    } else {
        None
    }
}

/// What parsing `s` as a `usize` gives: an optional `+` followed by at least one digit, with a
/// value that fits.
pub open spec fn spec_parse_usize(s: Seq<char>) -> Option<usize> {
    match spec_parse_bounded(s, usize::MAX as int) {
        Some(value) => Some(value as usize),
        None => None,
    }
}

/// What parsing `s` as a `u64` gives: an optional `+` followed by at least one digit, with a
/// value that fits.
pub open spec fn spec_parse_u64(s: Seq<char>) -> Option<u64> {
    match spec_parse_bounded(s, u64::MAX as int) {
        Some(value) => Some(value as u64),
        None => None,
    }
}

/// A decimal value never shrinks when a digit is appended.
proof fn lemma_decimal_value_grows(s: Seq<char>, c: char)
    requires
        forall|i: int| 0 <= i < s.len() ==> #[trigger] is_digit(s[i]),
        is_digit(c),
    ensures
        decimal_value(s.push(c)) >= decimal_value(s),
        decimal_value(s) >= 0,
    decreases s.len(),
{
    assert(s.push(c).drop_last() =~= s);
    if s.len() > 0 {
        lemma_decimal_value_grows(s.drop_last(), s.last());
        assert(s.drop_last().push(s.last()) =~= s);
    }
}

/// Reads `text` as a decimal number the way `str::parse` does: an optional `+` and then decimal
/// digits, refused when empty, when another character occurs, or when the value exceeds `max`.
fn parse_bounded(text: &str, max: u64) -> (parsed: Option<u64>)
    ensures
        parsed == match spec_parse_bounded(text@, max as int) {
            Some(value) => Some(value as u64),
            None => None::<u64>,
        },
{
    let len = text.unicode_len();
    let mut start: usize = 0;
    if len > 0 && text.get_char(0) == '+' {
        start = 1;
    }
    let ghost digits = unsigned_part(text@);
    assert(digits =~= text@.subrange(start as int, len as int));
    if start == len {
        return None;
    }
    let mut value: u64 = 0;
    let mut i: usize = start;
    while i < len
        invariant
            start <= i <= len,
            len == text@.len(),
            start == if text@.len() > 0 && text@[0] == '+' { 1int } else { 0int },
            start < len,
            digits =~= text@.subrange(start as int, len as int),
            forall|k: int| start <= k < i ==> #[trigger] is_digit(text@[k]),
            value == decimal_value(text@.subrange(start as int, i as int)),
            value <= max,
        decreases len - i,
    {
        let c = text.get_char(i);
        let code = c as u32;
        if code < '0' as u32 || code > '9' as u32 {
            proof {
                let spec_digits = unsigned_part(text@);
                assert(!is_digit(c));
                assert(c == text@[i as int]);
                assert(spec_digits =~= text@.subrange(start as int, len as int));
                assert(spec_digits[i - start] == text@[i as int]);
                assert(!is_digit(spec_digits[i - start]));
                assert(!all_digits(spec_digits));
            }
            return None;
        }
        let d = (code - '0' as u32) as u64;
        let ghost prefix = text@.subrange(start as int, i as int);
        proof {
            assert(d == digit_value(c));
            assert(text@.subrange(start as int, i + 1).drop_last() =~= prefix);
            assert(text@.subrange(start as int, i + 1).last() == c);
            assert(decimal_value(text@.subrange(start as int, i + 1)) == value * 10 + d);
            assert forall|k: int| 0 <= k < prefix.len() implies #[trigger] is_digit(prefix[k]) by {
                assert(prefix[k] == text@[start + k]);
            }
        }
        match value.checked_mul(10) {
            Some(shifted) => match shifted.checked_add(d) {
                Some(next) => {
                    if next > max {
                        proof {
                            lemma_rest_stays_too_large(text@, start as int, i as int + 1, len as int, max as int);
                            let spec_digits = unsigned_part(text@);
                            assert(spec_digits =~= text@.subrange(start as int, len as int));
                            if forall|k: int| 0 <= k < spec_digits.len() ==> #[trigger] is_digit(spec_digits[k]) {
                                assert forall|k: int| start <= k < len implies #[trigger] is_digit(text@[k]) by {
                                    assert(is_digit(spec_digits[k - start]));
                                }
                            }
                        }
                        return None;
                    }
                    value = next;
                },
                None => {
                    proof {
                        lemma_rest_stays_too_large(text@, start as int, i as int + 1, len as int, max as int);
                        let spec_digits = unsigned_part(text@);
                        assert(spec_digits =~= text@.subrange(start as int, len as int));
                        if forall|k: int| 0 <= k < spec_digits.len() ==> #[trigger] is_digit(spec_digits[k]) {
                            assert forall|k: int| start <= k < len implies #[trigger] is_digit(text@[k]) by {
                                assert(is_digit(spec_digits[k - start]));
                            }
                        }
                    }
                    return None;
                },
            },
            None => {
                proof {
                    lemma_rest_stays_too_large(text@, start as int, i as int + 1, len as int, max as int);
                    let spec_digits = unsigned_part(text@);
                    assert(spec_digits =~= text@.subrange(start as int, len as int));
                    if forall|k: int| 0 <= k < spec_digits.len() ==> #[trigger] is_digit(spec_digits[k]) {
                        assert forall|k: int| start <= k < len implies #[trigger] is_digit(text@[k]) by {
                            assert(is_digit(spec_digits[k - start]));
                        }
                    }
                }
                return None;
            },
        }
        i = i + 1;
    }
    proof {
        assert(text@.subrange(start as int, len as int) =~= digits);
    }
    Some(value)
}

/// Parses `text` as a `usize` the way `str::parse` does: an optional `+` and then decimal
/// digits, refused when empty, when another character occurs, or when the value does not fit.
pub fn parse_usize(text: &str) -> (parsed: Option<usize>)
    ensures
        parsed == spec_parse_usize(text@),
{
    let max = usize::MAX as u64;
    assert(max as int == usize::MAX as int);
    match parse_bounded(text, max) {
        Some(value) => {
            assert(spec_parse_bounded(text@, usize::MAX as int) is Some);
            assert(value as int == spec_parse_bounded(text@, usize::MAX as int).unwrap());
            Some(value as usize)
        },
        None => None,
    }
}

/// Parses `text` as a `u64` the way `str::parse` does: an optional `+` and then decimal digits,
/// refused when empty, when another character occurs, or when the value does not fit.
pub fn parse_u64(text: &str) -> (parsed: Option<u64>)
    ensures
        parsed == spec_parse_u64(text@),
{
    parse_bounded(text, u64::MAX)
}

/// Once a prefix of digits is above `max`, every longer string of digits is too, or holds a
/// non-digit.
proof fn lemma_rest_stays_too_large(s: Seq<char>, start: int, i: int, len: int, max: int)
    requires
        0 <= start < i <= len == s.len(),
        forall|k: int| start <= k < i ==> #[trigger] is_digit(s[k]),
        decimal_value(s.subrange(start, i)) > max,
    ensures
        !(forall|k: int| start <= k < len ==> #[trigger] is_digit(s[k])) || decimal_value(s.subrange(start, len)) > max,
    decreases len - i,
{
    if i < len && is_digit(s[i]) {
        let prefix = s.subrange(start, i);
        assert(s.subrange(start, i + 1) =~= prefix.push(s[i]));
        assert forall|k: int| 0 <= k < prefix.len() implies #[trigger] is_digit(prefix[k]) by {
            assert(prefix[k] == s[start + k]);
        }
        lemma_decimal_value_grows(prefix, s[i]);
        lemma_rest_stays_too_large(s, start, i + 1, len, max);
    } else if i < len {
        assert(!is_digit(s[i]));
    }
}

/// `String::push` of std: `c` is added at the end.
#[verifier::external_body]
pub(crate) fn push_char(text: &mut String, c: char)
    ensures
        final(text)@ == old(text)@.push(c),
{
    text.push(c)
}

/// `String::pop` of std: the last character is taken off and handed back, or `None` for an
/// empty string.
#[verifier::external_body]
pub(crate) fn pop_char(text: &mut String) -> (popped: Option<char>)
    ensures
        old(text)@.len() == 0 ==> popped.is_none() && final(text)@ == old(text)@,
        old(text)@.len() > 0 ==> popped == Some(old(text)@.last()) && final(text)@ == old(text)@.drop_last(),
{
    text.pop()
}

/// `String::clear` of std: the string becomes empty.
#[verifier::external_body]
pub(crate) fn clear_text(text: &mut String)
    ensures
        final(text)@ == Seq::<char>::empty(),
{
    text.clear()
}

} // verus!
