//! Text as bytes: searching, prefixes, whole numbers in decimal.

use vstd::prelude::*;
use vstd::string::StringExecFns;
use vstd::utf8::encode_utf8;

verus! {

/// The bytes of a text: its UTF-8 encoding.
pub open spec fn bytes_of(text: Seq<char>) -> Seq<u8> {
    encode_utf8(text)
}

/// Whether `needle` occurs in `hay` at `i`.
pub open spec fn occurs_at(hay: Seq<u8>, needle: Seq<u8>, i: int) -> bool {
    0 <= i && i + needle.len() <= hay.len() && hay.subrange(i, i + needle.len()) == needle
}

/// Whether `needle` occurs in `hay`.
pub open spec fn occurs_in(hay: Seq<u8>, needle: Seq<u8>) -> bool {
    exists|i: int| occurs_at(hay, needle, i)
}

/// Whether `hay` begins with `prefix`.
pub open spec fn begins_with(hay: Seq<u8>, prefix: Seq<u8>) -> bool {
    occurs_at(hay, prefix, 0)
}

/// Whether `needle` occurs in `hay` at `at`.
pub fn matches_at(hay: &[u8], needle: &[u8], at: usize) -> (found: bool)
    requires
        at + needle.len() <= hay.len(),
    ensures
        found == occurs_at(hay@, needle@, at as int),
{
    let mut k: usize = 0;
    while k < needle.len()
        invariant
            k <= needle.len(),
            at + needle.len() <= hay.len(),
            forall|j: int| 0 <= j < k ==> hay@[at + j] == needle@[j],
        decreases needle.len() - k,
    {
        if hay[at + k] != needle[k] {
            proof {
                assert(hay@.subrange(at as int, at + needle.len())[k as int] == hay@[at + k]);
            }
            return false;
        }
        k = k + 1;
    }
    proof {
        assert(hay@.subrange(at as int, at + needle.len()) =~= needle@);
    }
    true
}

/// Whether `needle` occurs in `hay`.
pub fn contains_bytes(hay: &[u8], needle: &[u8]) -> (found: bool)
    ensures
        found == occurs_in(hay@, needle@),
{
    if needle.len() > hay.len() {
        return false;
    }
    if needle.len() == 0 {
        proof {
            assert(hay@.subrange(0, 0) =~= needle@);
            assert(occurs_at(hay@, needle@, 0));
        }
        return true;
    }
    let last: usize = hay.len() - needle.len();
    let mut i: usize = 0;
    while i <= last
        invariant
            i <= last + 1,
            last == hay.len() - needle.len(),
            0 < needle.len() <= hay.len(),
            forall|j: int| 0 <= j < i ==> !occurs_at(hay@, needle@, j),
        decreases last + 1 - i,
    {
        if matches_at(hay, needle, i) {
            return true;
        }
        i = i + 1;
    }
    false
}

/// Whether `hay` begins with `prefix`.
pub fn starts_with_bytes(hay: &[u8], prefix: &[u8]) -> (found: bool)
    ensures
        found == begins_with(hay@, prefix@),
{
    if prefix.len() > hay.len() {
        return false;
    }
    matches_at(hay, prefix, 0)
}

/// Whether `byte` is among `bytes`.
pub fn contains_byte(bytes: &[u8], byte: u8) -> (found: bool)
    ensures
        found == bytes@.contains(byte),
{
    let mut i: usize = 0;
    while i < bytes.len()
        invariant
            i <= bytes.len(),
            forall|j: int| 0 <= j < i ==> bytes@[j] != byte,
        decreases bytes.len() - i,
    {
        if bytes[i] == byte {
            return true;
        }
        i = i + 1;
    }
    false
}

/// The number that the decimal digits stand for.
pub open spec fn digits_value(digits: Seq<u8>) -> int
    decreases digits.len(),
{
    if digits.len() == 0 {
        0
    } else {
        digits_value(digits.drop_last()) * 10 + (digits.last() - 48)
    }
}

/// Whether every byte is a decimal digit, `0` to `9`.
pub open spec fn all_digits(digits: Seq<u8>) -> bool {
    forall|i: int| 0 <= i < digits.len() ==> 48 <= #[trigger] digits[i] <= 57
}

/// Whether `text` states a whole number of 64 bits in decimal: digits,
/// after `-` or `+` or neither, and at least one of them, for a number
/// from `-2^63` to `2^63 - 1`.
pub open spec fn is_i64_text(text: Seq<u8>) -> bool {
    if text.len() > 0 && text[0] == 45 {
        text.len() > 1 && all_digits(text.skip(1)) && digits_value(text.skip(1))
            <= 0x8000_0000_0000_0000
    } else if text.len() > 0 && text[0] == 43 {
        text.len() > 1 && all_digits(text.skip(1)) && digits_value(text.skip(1))
            < 0x8000_0000_0000_0000
    } else {
        text.len() > 0 && all_digits(text) && digits_value(text) < 0x8000_0000_0000_0000
    }
}

/// Digits stand for no negative number.
proof fn lemma_digits_value_nonnegative(digits: Seq<u8>)
    requires
        all_digits(digits),
    ensures
        0 <= digits_value(digits),
    decreases digits.len(),
{
    if digits.len() > 0 {
        assert(all_digits(digits.drop_last())) by {
            assert forall|i: int| 0 <= i < digits.drop_last().len() implies 48
                <= #[trigger] digits.drop_last()[i] <= 57 by {
                assert(digits.drop_last()[i] == digits[i]);
            }
        }
        lemma_digits_value_nonnegative(digits.drop_last());
        assert(48 <= digits.last() <= 57) by {
            assert(digits.last() == digits[digits.len() - 1]);
        }
    }
}

/// More digits do not make a smaller number.
proof fn lemma_digits_value_grows(digits: Seq<u8>, n: int)
    requires
        all_digits(digits),
        0 <= n <= digits.len(),
    ensures
        0 <= digits_value(digits.take(n)) <= digits_value(digits),
    decreases digits.len() - n,
{
    assert(all_digits(digits.take(n))) by {
        assert forall|i: int| 0 <= i < digits.take(n).len() implies 48
            <= #[trigger] digits.take(n)[i] <= 57 by {
            assert(digits.take(n)[i] == digits[i]);
        }
    }
    lemma_digits_value_nonnegative(digits.take(n));
    if n == digits.len() {
        assert(digits.take(n) =~= digits);
    } else {
        lemma_digits_value_grows(digits, n + 1);
        assert(digits.take(n + 1).drop_last() =~= digits.take(n));
        assert(48 <= digits.take(n + 1).last() <= 57) by {
            assert(digits.take(n + 1).last() == digits[n]);
        }
    }
}

/// Whether the bytes of `text` from `from` on are digits, at least one,
/// for a number of at most `limit`.
fn digits_within(text: &[u8], from: usize, limit: u64) -> (within: bool)
    requires
        from <= text.len(),
        9 <= limit,
    ensures
        within == (from < text.len() && all_digits(text@.skip(from as int)) && digits_value(
            text@.skip(from as int),
        ) <= limit),
{
    let ghost digits = text@.skip(from as int);
    if from >= text.len() {
        return false;
    }
    let mut value: u64 = 0;
    let mut i: usize = from;
    proof {
        assert(digits.take(0) =~= Seq::empty());
    }
    while i < text.len()
        invariant
            from <= i <= text.len(),
            digits == text@.skip(from as int),
            all_digits(digits.take(i - from)),
            value == digits_value(digits.take(i - from)),
            value <= limit,
            9 <= limit,
        decreases text.len() - i,
    {
        let byte = text[i];
        proof {
            assert(digits[i - from] == byte);
            assert(digits.take(i - from + 1).drop_last() =~= digits.take(i - from));
            assert(digits.take(i - from + 1).last() == byte);
        }
        if byte < 48 || byte > 57 {
            proof {
                assert(!all_digits(digits));
            }
            return false;
        }
        proof {
            assert(all_digits(digits.take(i - from + 1))) by {
                assert forall|j: int| 0 <= j < digits.take(i - from + 1).len() implies 48
                    <= #[trigger] digits.take(i - from + 1)[j] <= 57 by {
                    if j < i - from {
                        assert(digits.take(i - from)[j] == digits.take(i - from + 1)[j]);
                    }
                }
            }
            if all_digits(digits) {
                lemma_digits_value_grows(digits, i - from + 1);
            }
        }
        let digit: u64 = (byte - 48) as u64;
        if value > (limit - digit) / 10 {
            proof {
                assert(value * 10 + digit > limit) by (nonlinear_arith)
                    requires
                        value > (limit - digit) / 10,
                        digit <= 9,
                        digit <= limit,
                ;
            }
            return false;
        }
        proof {
            assert(value * 10 + digit <= limit) by (nonlinear_arith)
                requires
                    value <= (limit - digit) / 10,
                    digit <= limit,
            ;
        }
        value = value * 10 + digit;
        i = i + 1;
    }
    proof {
        assert(digits.take(i - from) =~= digits);
    }
    true
}

/// Whether `text` states a whole number of 64 bits in decimal.
pub fn parses_as_i64(text: &[u8]) -> (parses: bool)
    ensures
        parses == is_i64_text(text@),
{
    proof {
        assert(text@.skip(0) =~= text@);
    }
    if text.len() > 0 && text[0] == 45 {
        digits_within(text, 1, 0x8000_0000_0000_0000)
    } else if text.len() > 0 && text[0] == 43 {
        digits_within(text, 1, 0x7fff_ffff_ffff_ffff)
    } else {
        digits_within(text, 0, 0x7fff_ffff_ffff_ffff)
    }
}

/// The decimal digit for a number below ten.
pub open spec fn digit(d: nat) -> char {
    if d == 0 {
        '0'
    } else if d == 1 {
        '1'
    } else if d == 2 {
        '2'
    } else if d == 3 {
        '3'
    } else if d == 4 {
        '4'
    } else if d == 5 {
        '5'
    } else if d == 6 {
        '6'
    } else if d == 7 {
        '7'
    } else if d == 8 {
        '8'
    } else {
        '9'
    }
}

/// The number in decimal, without leading zeros.
pub open spec fn decimal(n: nat) -> Seq<char>
    decreases n,
{
    if n < 10 {
        seq![digit(n)]
    } else {
        decimal(n / 10).push(digit(n % 10))
    }
}

/// The decimal digit for a number below ten, as text.
fn digit_text(d: u64) -> (text: &'static str)
    requires
        d < 10,
    ensures
        text@ == seq![digit(d as nat)],
{
    proof {
        reveal_strlit("0");
        reveal_strlit("1");
        reveal_strlit("2");
        reveal_strlit("3");
        reveal_strlit("4");
        reveal_strlit("5");
        reveal_strlit("6");
        reveal_strlit("7");
        reveal_strlit("8");
        reveal_strlit("9");
    }
    let text = if d == 0 {
        "0"
    } else if d == 1 {
        "1"
    } else if d == 2 {
        "2"
    } else if d == 3 {
        "3"
    } else if d == 4 {
        "4"
    } else if d == 5 {
        "5"
    } else if d == 6 {
        "6"
    } else if d == 7 {
        "7"
    } else if d == 8 {
        "8"
    } else {
        "9"
    };
    proof {
        assert(text@ =~= seq![digit(d as nat)]);
    }
    text
}

/// Appends `n` in decimal to `text`.
pub fn append_decimal(text: &mut String, n: u64)
    ensures
        final(text)@ == old(text)@ + decimal(n as nat),
    decreases n,
{
    if n >= 10 {
        append_decimal(text, n / 10);
    }
    text.append(digit_text(n % 10));
    proof {
        if n >= 10 {
            assert(final(text)@ =~= old(text)@ + decimal((n / 10) as nat).push(
                digit((n % 10) as nat),
            ));
        }
    }
}

} // verus!
