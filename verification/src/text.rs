//! Reading texts: white space, and numbers written in decimal digits.

use vstd::prelude::*;
use vstd::string::StrSliceExecFns;

verus! {

/// Whether a character is white space, as `char::is_whitespace` tells.
pub uninterp spec fn is_whitespace(c: char) -> bool;

/// Calls `char::is_whitespace`. The contract only names its result, which
/// depends on the character alone.
#[verifier::external_body]
fn char_is_whitespace(c: char) -> (yes: bool)
    ensures
        yes == is_whitespace(c),
{
    c.is_whitespace()
}

/// Whether a text holds nothing but white space.
pub open spec fn is_blank(text: Seq<char>) -> bool {
    forall|i: int| 0 <= i < text.len() ==> is_whitespace(#[trigger] text[i])
}

/// Whether a text holds nothing but white space.
pub fn blank(text: &str) -> (yes: bool)
    ensures
        yes == is_blank(text@),
{
    for c in it: text.chars()
        invariant
            it.seq() == text@,
            forall|k: int| 0 <= k < it.index() ==> is_whitespace(#[trigger] text@[k]),
    {
        if !char_is_whitespace(c) {
            return false;
        }
    }
    true
}

/// How many characters of white space lead a text.
pub open spec fn leading_space(text: Seq<char>) -> nat
    decreases text.len(),
{
    if text.len() > 0 && is_whitespace(text.first()) {
        1 + leading_space(text.drop_first())
    } else {
        0
    }
}

/// How many characters of white space end a text.
pub open spec fn trailing_space(text: Seq<char>) -> nat
    decreases text.len(),
{
    if text.len() > 0 && is_whitespace(text.last()) {
        1 + trailing_space(text.drop_last())
    } else {
        0
    }
}

/// A text without the white space at its ends.
pub open spec fn trimmed(text: Seq<char>) -> Seq<char> {
    if leading_space(text) + trailing_space(text) >= text.len() {
        Seq::empty()
    } else {
        text.subrange(leading_space(text) as int, text.len() - trailing_space(text))
    }
}

/// A text whose first `n` characters are white space, and the next is not,
/// is led by just these `n`.
proof fn lemma_leading_space(text: Seq<char>, n: int)
    requires
        0 <= n <= text.len(),
        forall|i: int| 0 <= i < n ==> is_whitespace(#[trigger] text[i]),
        n < text.len() ==> !is_whitespace(text[n]),
    ensures
        leading_space(text) == n,
    decreases n,
{
    if n > 0 {
        let rest = text.drop_first();
        assert forall|i: int| 0 <= i < n - 1 implies is_whitespace(#[trigger] rest[i]) by {
            assert(rest[i] == text[i + 1]);
        }
        if n < text.len() {
            assert(rest[n - 1] == text[n]);
        }
        lemma_leading_space(rest, n - 1);
    }
}

/// A text whose last `n` characters are white space, and the one before is
/// not, is ended by just these `n`.
proof fn lemma_trailing_space(text: Seq<char>, n: int)
    requires
        0 <= n <= text.len(),
        forall|i: int| text.len() - n <= i < text.len() ==> is_whitespace(#[trigger] text[i]),
        n < text.len() ==> !is_whitespace(text[text.len() - n - 1]),
    ensures
        trailing_space(text) == n,
    decreases n,
{
    if n > 0 {
        let rest = text.drop_last();
        assert forall|i: int| rest.len() - (n - 1) <= i < rest.len() implies is_whitespace(
            #[trigger] rest[i],
        ) by {
            assert(rest[i] == text[i]);
        }
        if n < text.len() {
            assert(rest[rest.len() - (n - 1) - 1] == text[text.len() - n - 1]);
        }
        lemma_trailing_space(rest, n - 1);
    }
}

/// The text without the white space at its ends.
pub fn trim(text: &str) -> (inner: &str)
    ensures
        inner@ == trimmed(text@),
{
    let total = text.unicode_len();
    let mut start: usize = 0;
    let mut end: usize = 0;
    let mut found = false;
    let mut at: usize = 0;
    for c in it: text.chars()
        invariant
            it.seq() == text@,
            total == text@.len(),
            at == it.index(),
            !found ==> start == at && end == at,
            found ==> start < end <= at,
            forall|i: int| 0 <= i < start ==> is_whitespace(#[trigger] text@[i]),
            found ==> !is_whitespace(text@[start as int]) && !is_whitespace(text@[end - 1]),
            forall|i: int| end <= i < at ==> is_whitespace(#[trigger] text@[i]),
    {
        assert(at < text@.len());
        let space = char_is_whitespace(c);
        if !space {
            if !found {
                start = at;
                found = true;
            }
            end = at + 1;
        } else if !found {
            start = at + 1;
            end = at + 1;
        }
        at = at + 1;
    }
    proof {
        if found {
            lemma_leading_space(text@, start as int);
            lemma_trailing_space(text@, text@.len() - end);
        } else {
            lemma_leading_space(text@, text@.len() as int);
        }
    }
    let inner = text.substring_char(start, end);
    proof {
        if !found {
            assert(inner@ =~= Seq::<char>::empty());
        }
    }
    inner
}

/// Whether a character is a decimal digit.
pub open spec fn is_digit(c: char) -> bool {
    '0' <= c <= '9'
}

/// Whether a text is made of decimal digits alone.
pub open spec fn all_digits(text: Seq<char>) -> bool {
    forall|i: int| 0 <= i < text.len() ==> is_digit(#[trigger] text[i])
}

/// The number that a run of decimal digits writes.
pub open spec fn decimal_value(digits: Seq<char>) -> nat
    decreases digits.len(),
{
    if digits.len() == 0 {
        0
    } else {
        (decimal_value(digits.drop_last()) * 10 + (digits.last() as u32 - '0' as u32)) as nat
    }
}

/// A text without the plus sign that may lead it.
pub open spec fn unsigned_digits(text: Seq<char>) -> Seq<char> {
    if text.len() > 0 && text[0] == '+' {
        text.drop_first()
    } else {
        text
    }
}

/// The number that a text writes: one or more decimal digits, after an
/// optional plus sign, with a value that fits 64 bits. Any other text
/// writes none.
pub open spec fn unsigned_of(text: Seq<char>) -> Option<u64> {
    let digits = unsigned_digits(text);
    if digits.len() > 0 && all_digits(digits) && decimal_value(digits) <= u64::MAX {
        Some(decimal_value(digits) as u64)
    } else {
        None
    }
}

/// A run of digits writes at least what any of its beginnings writes.
proof fn lemma_value_grows(digits: Seq<char>, n: int)
    requires
        0 <= n <= digits.len(),
        all_digits(digits),
    ensures
        decimal_value(digits.subrange(0, n)) <= decimal_value(digits),
    decreases digits.len() - n,
{
    if n == digits.len() {
        assert(digits.subrange(0, n) =~= digits);
    } else {
        lemma_value_grows(digits, n + 1);
        let longer = digits.subrange(0, n + 1);
        assert(longer.drop_last() =~= digits.subrange(0, n));
        assert(is_digit(digits[n]));
        assert(longer.last() == digits[n]);
    }
}

/// Reads a number as `unsigned_of` tells.
pub fn parse_unsigned(text: &str) -> (value: Option<u64>)
    ensures
        value == unsigned_of(text@),
{
    let ghost digits = unsigned_digits(text@);
    let ghost skip: int = text@.len() - digits.len();
    let mut value: u64 = 0;
    let mut any = false;
    let mut first = true;
    for c in it: text.chars()
        invariant
            it.seq() == text@,
            digits == unsigned_digits(text@),
            skip == text@.len() - digits.len(),
            first == (it.index() == 0),
            skip <= 1,
            !any ==> it.index() <= skip,
            any ==> it.index() > skip,
            it.index() >= skip ==> all_digits(digits.subrange(0, it.index() - skip)) && value
                == decimal_value(digits.subrange(0, it.index() - skip)),
            it.index() < skip ==> value == 0,
    {
        let ghost at: int = it.index() as int;
        if first && c == '+' {
            assert(skip == 1);
            assert(digits.subrange(0, 0) =~= Seq::<char>::empty());
        } else {
            assert(at >= skip);
            assert(digits[at - skip] == c);
            let ghost longer = digits.subrange(0, at - skip + 1);
            proof {
                assert(longer.drop_last() =~= digits.subrange(0, at - skip));
                assert(longer.last() == c);
            }
            if c < '0' || c > '9' {
                assert(!is_digit(digits[at - skip]));
                return None;
            }
            let digit: u64 = (c as u32 - '0' as u32) as u64;
            proof {
                assert(all_digits(longer)) by {
                    assert forall|i: int| 0 <= i < longer.len() implies is_digit(
                        #[trigger] longer[i],
                    ) by {
                        if i < at - skip {
                            assert(longer[i] == digits.subrange(0, at - skip)[i]);
                        }
                    }
                }
                if all_digits(digits) {
                    lemma_value_grows(digits, at - skip + 1);
                }
            }
            if value > (u64::MAX - digit) / 10 {
                assert(decimal_value(longer) > u64::MAX);
                return None;
            }
            value = value * 10 + digit;
            any = true;
        }
        first = false;
    }
    proof {
        assert(digits.subrange(0, digits.len() as int) =~= digits);
        if !any {
            assert(digits.len() == 0);
        }
    }
    if any {
        Some(value)
    } else {
        None
    }
}

} // verus!
