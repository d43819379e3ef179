//! Text helpers shared by the tokenizer, the parser and the evaluator:
//! comparing strings, slicing ASCII runs out of a source buffer, and
//! converting between integers and their decimal notation.

use vstd::prelude::*;
use vstd::string::StringExecFns;
use vstd::string::StringSliceAdditionalSpecFns;
use vstd::utf8::*;

verus! {

/// Whether two strings hold the same characters.
pub fn str_eq(a: &str, b: &str) -> (r: bool)
    ensures
        r == (a@ == b@),
{
    let x = a.as_bytes();
    let y = b.as_bytes();
    proof {
        encode_utf8_decode_utf8(a@);
        encode_utf8_decode_utf8(b@);
    }
    if x.len() != y.len() {
        return false;
    }
    let mut i: usize = 0;
    while i < x.len()
        invariant
            i <= x.len(),
            x.len() == y.len(),
            x@ == encode_utf8(a@),
            y@ == encode_utf8(b@),
            forall|j: int| 0 <= j < i ==> x@[j] == y@[j],
        decreases x.len() - i,
    {
        if x[i] != y[i] {
            return false;
        }
        i += 1;
    }
    assert(x@ =~= y@);
    true
}

/// The characters that a run of ASCII bytes stands for, one per byte.
pub open spec fn ascii_chars(bytes: Seq<u8>) -> Seq<char> {
    Seq::new(bytes.len(), |i: int| bytes[i] as char)
}

/// Whether every byte of the run is an ASCII byte.
pub open spec fn all_ascii(bytes: Seq<u8>) -> bool {
    forall|i: int| 0 <= i < bytes.len() ==> #[trigger] bytes[i] < 0x80
}

/// In well-formed UTF-8, the end of a leading run of ASCII bytes is a
/// character boundary.
proof fn lemma_ascii_prefix_boundary(bytes: Seq<u8>, k: int)
    requires
        valid_utf8(bytes),
        0 <= k <= bytes.len(),
        all_ascii(bytes.subrange(0, k)),
    ensures
        is_char_boundary(bytes, k),
    decreases k,
{
    if k > 0 {
        assert(bytes[0] == bytes.subrange(0, k)[0]);
        let rest = pop_first_scalar(bytes);
        assert(rest == bytes.subrange(1, bytes.len() as int));
        assert forall|i: int| 0 <= i < k - 1 implies #[trigger] rest.subrange(0, k - 1)[i] < 0x80 by {
            assert(rest.subrange(0, k - 1)[i] == bytes.subrange(0, k)[i + 1]);
        }
        lemma_ascii_prefix_boundary(rest, k - 1);
    }
}

/// A run of ASCII bytes is the UTF-8 encoding of exactly one string: the one
/// that has a character for each byte.
proof fn lemma_ascii_decode(chars: Seq<char>, bytes: Seq<u8>)
    requires
        encode_utf8(chars) == bytes,
        all_ascii(bytes),
    ensures
        chars == ascii_chars(bytes),
{
    let expected = ascii_chars(bytes);
    assert(is_ascii_chars(expected)) by {
        assert forall|i: int| 0 <= i < expected.len() implies '\0' <= #[trigger] expected[i]
            <= '\u{7f}' by {
            assert(bytes[i] < 0x80);
        }
    }
    is_ascii_chars_encode_utf8(expected);
    assert(encode_utf8(expected) =~= bytes) by {
        assert forall|i: int| 0 <= i < bytes.len() implies encode_utf8(expected)[i] == bytes[i] by {
            assert(bytes[i] < 0x80);
            assert(expected[i] as u8 == bytes[i]);
        }
    }
    encode_utf8_decode_utf8(expected);
    encode_utf8_decode_utf8(chars);
}

/// The part of `src` between the byte offsets `start` and `end`, where that
/// part holds ASCII bytes only.
pub fn ascii_slice<'a>(src: &'a str, start: usize, end: usize) -> (r: &'a str)
    requires
        start <= end <= src.spec_bytes().len(),
        all_ascii(src.spec_bytes().subrange(start as int, end as int)),
    ensures
        r@ == ascii_chars(src.spec_bytes().subrange(start as int, end as int)),
{
    let ghost bytes = src.spec_bytes();
    let ghost run = bytes.subrange(start as int, end as int);
    if start == end {
        proof {
            reveal_strlit("");
            assert(ascii_chars(run) =~= ""@);
        }
        return "";
    }
    proof {
        encode_utf8_valid_utf8(src@);
        assert(run[0] < 0x80);
        is_char_boundary_iff_not_is_continuation_byte(bytes, start as int);
    }
    let (_, tail) = src.split_at(start);
    proof {
        encode_utf8_valid_utf8(tail@);
        assert(tail.spec_bytes().subrange(0, end - start) =~= run);
        lemma_ascii_prefix_boundary(tail.spec_bytes(), end - start);
    }
    let (word, _) = tail.split_at(end - start);
    proof {
        assert(word.spec_bytes() =~= run);
        lemma_ascii_decode(word@, run);
    }
    word
}

/// The character of a decimal digit.
pub open spec fn digit_char(d: int) -> char
    recommends
        0 <= d <= 9,
{
    if d == 0 {
        '0'
    } else if d == 1 {
        '1'
    } else if d == 2 {
        '2'
    } else if d == 3 {
        '3'
    } else if d == 4 {
        '4'
    } else if d == 5 {
        '5'
    } else if d == 6 {
        '6'
    } else if d == 7 {
        '7'
    } else if d == 8 {
        '8'
    } else {
        '9'
    }
}

/// The decimal digits of a natural number, most significant first, without
/// leading zeros.
pub open spec fn digits(n: nat) -> Seq<char>
    decreases n,
{
    if n < 10 {
        seq![digit_char(n as int)]
    } else {
        digits(n / 10).push(digit_char((n % 10) as int))
    }
}

/// The decimal notation of an integer, with a minus sign if it is negative.
pub open spec fn decimal(n: int) -> Seq<char> {
    if n < 0 {
        seq!['-'] + digits((-n) as nat)
    } else {
        digits(n as nat)
    }
}

fn digit_str(d: u64) -> (text: &'static str)
    requires
        d <= 9,
    ensures
        text@ == seq![digit_char(d as int)],
{
    proof {
        reveal_strlit("0");
        reveal_strlit("1");
        reveal_strlit("2");
        reveal_strlit("3");
        reveal_strlit("4");
        reveal_strlit("5");
        reveal_strlit("6");
        reveal_strlit("7");
        reveal_strlit("8");
        reveal_strlit("9");
    }
    let text = if d == 0 {
        "0"
    } else if d == 1 {
        "1"
    } else if d == 2 {
        "2"
    } else if d == 3 {
        "3"
    } else if d == 4 {
        "4"
    } else if d == 5 {
        "5"
    } else if d == 6 {
        "6"
    } else if d == 7 {
        "7"
    } else if d == 8 {
        "8"
    } else {
        "9"
    };
    assert(text@ =~= seq![digit_char(d as int)]);
    text
}

/// Appends the decimal digits of `n` to `out`.
fn push_digits(out: &mut String, n: u64)
    ensures
        final(out)@ == old(out)@ + digits(n as nat),
    decreases n,
{
    if n >= 10 {
        push_digits(out, n / 10);
    }
    out.append(digit_str(n % 10));
    proof {
        if n >= 10 {
            assert(out@ =~= old(out)@ + digits((n / 10) as nat).push(digit_char((n % 10) as int)));
        }
    }
}

/// The decimal notation of `n`.
pub fn i64_to_string(n: i64) -> (text: String)
    ensures
        text@ == decimal(n as int),
{
    let mut text = String::new();
    if n < 0 {
        proof {
            reveal_strlit("-");
        }
        text.append("-");
        assert(text@ =~= seq!['-']);
        let magnitude: u64 = if n == i64::MIN {
            0x8000_0000_0000_0000u64
        } else {
            (-n) as u64
        };
        push_digits(&mut text, magnitude);
    } else {
        push_digits(&mut text, n as u64);
        assert(text@ =~= digits(n as nat));
    }
    text
}

/// Whether every character is a decimal digit.
pub open spec fn is_digits(text: Seq<char>) -> bool {
    forall|i: int| 0 <= i < text.len() ==> '0' <= #[trigger] text[i] <= '9'
}

/// The number that a run of decimal digits denotes.
pub open spec fn digits_value(text: Seq<char>) -> nat
    decreases text.len(),
{
    if text.len() == 0 {
        0
    } else {
        (digits_value(text.drop_last()) * 10 + (text.last() as u32 - '0' as u32)) as nat
    }
}

/// The integer that `text` denotes: `text` is a non-empty run of decimal
/// digits whose value fits in an `i64`. Any other text denotes nothing.
pub open spec fn parse_decimal(text: Seq<char>) -> Option<i64> {
    if text.len() > 0 && is_digits(text) && digits_value(text) <= i64::MAX {
        Some(digits_value(text) as i64)
    } else {
        None
    }
}

/// A run of digits is worth at least as much as any run it starts with.
proof fn lemma_digits_value_grows(text: Seq<char>, k: int)
    requires
        0 <= k <= text.len(),
        is_digits(text),
    ensures
        digits_value(text.subrange(0, k)) <= digits_value(text),
    decreases text.len(),
{
    if k == text.len() {
        assert(text.subrange(0, k) =~= text);
    } else {
        assert(text.drop_last().subrange(0, k) =~= text.subrange(0, k));
        lemma_digits_value_grows(text.drop_last(), k);
    }
}

/// Reads a non-negative decimal integer.
pub fn parse_i64(text: &str) -> (r: Option<i64>)
    ensures
        r == parse_decimal(text@),
{
    if !text.is_ascii() {
        assert(!is_digits(text@));
        return None;
    }
    let bytes = text.as_bytes();
    if bytes.len() == 0 {
        return None;
    }
    let mut value: i64 = 0;
    let mut i: usize = 0;
    while i < bytes.len()
        invariant
            i <= bytes.len(),
            bytes.len() == text@.len(),
            forall|j: int| 0 <= j < bytes.len() ==> bytes@[j] == text@[j] as u8,
            vstd::string::is_ascii(text),
            is_digits(text@.subrange(0, i as int)),
            value == digits_value(text@.subrange(0, i as int)),
        decreases bytes.len() - i,
    {
        let b: u8 = bytes[i];
        if !('0' as u8 <= b && b <= '9' as u8) {
            assert(!is_digits(text@)) by {
                assert(!('0' <= text@[i as int] <= '9'));
            }
            return None;
        }
        let d: i64 = (b - '0' as u8) as i64;
        let ghost prefix = text@.subrange(0, i + 1);
        assert(prefix.drop_last() =~= text@.subrange(0, i as int));
        assert(prefix.last() == text@[i as int]);
        assert(is_digits(prefix)) by {
            assert forall|j: int| 0 <= j < prefix.len() implies '0' <= #[trigger] prefix[j]
                <= '9' by {
                if j < i {
                    assert(text@.subrange(0, i as int)[j] == prefix[j]);
                }
            }
        }
        if value > (i64::MAX - d) / 10 {
            proof {
                assert(digits_value(prefix) > i64::MAX);
                if is_digits(text@) {
                    lemma_digits_value_grows(text@, i + 1);
                }
            }
            return None;
        }
        value = value * 10 + d;
        i += 1;
    }
    assert(text@.subrange(0, i as int) =~= text@);
    Some(value)
}

/// The digits of a number are digits, and they denote the number.
pub proof fn lemma_digits_denote(n: nat)
    ensures
        digits(n).len() > 0,
        is_digits(digits(n)),
        digits_value(digits(n)) == n,
    decreases n,
{
    if n < 10 {
        assert(digits(n).drop_last() =~= Seq::<char>::empty());
        assert(digits_value(digits(n).drop_last()) == 0);
    } else {
        lemma_digits_denote(n / 10);
        let init = digits(n / 10);
        let last = digit_char((n % 10) as int);
        assert(digits(n).drop_last() =~= init);
        assert(digits(n).last() == last);
        assert forall|i: int| 0 <= i < digits(n).len() implies '0' <= #[trigger] digits(n)[i]
            <= '9' by {
            if i < init.len() {
                assert(digits(n)[i] == init[i]);
            }
        }
    }
}

/// What is written is read back: the decimal notation of a non-negative
/// 64-bit integer denotes that integer.
pub proof fn lemma_decimal_round_trip(n: i64)
    requires
        n >= 0,
    ensures
        parse_decimal(decimal(n as int)) == Some(n),
{
    lemma_digits_denote(n as nat);
}

} // verus!
