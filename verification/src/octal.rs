//! Octal text, as tar headers write their numeric fields.
use crate::fixup_laws::{
    are_digits, is_text, law_octal_field_is_its_text, lemma_octal_digits, octal_of, written,
};
use vstd::arithmetic::power::pow;
use vstd::prelude::*;

verus! {

/// Whether `b` is an ASCII octal digit.
pub open spec fn is_octal_digit(b: u8) -> bool {
    0x30 <= b <= 0x37
}

/// Whether `s` consists of ASCII octal digits alone.
pub open spec fn all_octal_digits(s: Seq<u8>) -> bool {
    forall|i: int| 0 <= i < s.len() ==> is_octal_digit(#[trigger] s[i])
}

/// The number that the octal digits `s` write, most significant digit first.
pub open spec fn octal_value(s: Seq<u8>) -> nat
    decreases s.len(),
{
    if s.len() == 0 {
        0
    } else {
        (octal_value(s.drop_last()) * 8 + (s.last() - 0x30)) as nat
    }
}

/// The unsigned octal number that `s` is the text of: an optional `+`, then one digit or more,
/// for a value that fits in 64 bits.
pub open spec fn octal_number(s: Seq<u8>) -> Option<u64> {
    let digits = if s.len() > 0 && s[0] == 0x2b {
        s.skip(1)
    } else {
        s
    };
    if digits.len() > 0 && all_octal_digits(digits) && octal_value(digits) <= u64::MAX {
        Some(octal_value(digits) as u64)
    } else {
        None
    }
}

/// `s` without its leading spaces.
pub open spec fn after_spaces(s: Seq<u8>) -> Seq<u8>
    decreases s.len(),
{
    if s.len() > 0 && s[0] == 0x20 {
        after_spaces(s.skip(1))
    } else {
        s
    }
}

/// The part of `s` before its first space or NUL byte, or all of it if it has neither.
pub open spec fn before_terminator(s: Seq<u8>) -> Seq<u8>
    decreases s.len(),
{
    if s.len() == 0 || s[0] == 0x20 || s[0] == 0 {
        Seq::empty()
    } else {
        seq![s[0]] + before_terminator(s.skip(1))
    }
}

/// The value of an octal header field: leading spaces are skipped and the text ends at the next
/// space or NUL byte. A field without text is zero; text that is no octal number has no value.
pub open spec fn octal_field(s: Seq<u8>) -> Option<u64> {
    let text = before_terminator(after_spaces(s));
    if text.len() == 0 {
        Some(0u64)
    } else {
        octal_number(text)
    }
}

/// `value` in `width` octal digits, with leading zeros.
pub open spec fn octal_text(value: nat, width: nat) -> Seq<u8>
    decreases width,
{
    if width == 0 {
        Seq::empty()
    } else {
        octal_text(value / 8, (width - 1) as nat).push((0x30 + value % 8) as u8)
    }
}

pub proof fn lemma_after_spaces(s: Seq<u8>, n: int)
    requires
        0 <= n <= s.len(),
        forall|i: int| 0 <= i < n ==> s[i] == 0x20,
        n < s.len() ==> s[n] != 0x20,
    ensures
        after_spaces(s) == s.skip(n),
    decreases s.len(),
{
    if n == 0 {
        assert(s.skip(0) =~= s);
    } else {
        lemma_after_spaces(s.skip(1), n - 1);
        assert(s.skip(1).skip(n - 1) =~= s.skip(n));
    }
}

pub proof fn lemma_before_terminator(s: Seq<u8>, n: int)
    requires
        0 <= n <= s.len(),
        forall|i: int| 0 <= i < n ==> s[i] != 0x20 && s[i] != 0,
        n < s.len() ==> (s[n] == 0x20 || s[n] == 0),
    ensures
        before_terminator(s) == s.subrange(0, n),
    decreases s.len(),
{
    if n == 0 {
        assert(s.subrange(0, 0) =~= Seq::empty());
    } else {
        lemma_before_terminator(s.skip(1), n - 1);
        assert(s.subrange(0, n) =~= seq![s[0]] + s.skip(1).subrange(0, n - 1));
    }
}

/// A longer run of digits never writes a smaller number.
proof fn lemma_octal_value_grows(s: Seq<u8>, n: int)
    requires
        0 <= n <= s.len(),
        all_octal_digits(s),
    ensures
        octal_value(s.subrange(0, n)) <= octal_value(s),
    decreases s.len(),
{
    if n == s.len() {
        assert(s.subrange(0, n) =~= s);
    } else {
        assert(is_octal_digit(s[s.len() - 1]));
        assert forall|i: int| 0 <= i < s.drop_last().len() implies is_octal_digit(
            #[trigger] s.drop_last()[i],
        ) by {
            assert(is_octal_digit(s[i]));
        }
        lemma_octal_value_grows(s.drop_last(), n);
        assert(s.drop_last().subrange(0, n) =~= s.subrange(0, n));
    }
}

/// The text has as many digits as it is wide.
pub proof fn lemma_octal_text_len(value: nat, width: nat)
    ensures
        octal_text(value, width).len() == width,
    decreases width,
{
    if width > 0 {
        lemma_octal_text_len(value / 8, (width - 1) as nat);
    }
}

/// The digits of a number that fits its width are octal digits and write that number.
pub proof fn lemma_octal_text(value: nat, width: nat)
    requires
        value < pow(8, width),
    ensures
        octal_text(value, width).len() == width,
        all_octal_digits(octal_text(value, width)),
        octal_value(octal_text(value, width)) == value,
    decreases width,
{
    reveal(pow);
    if width > 0 {
        let rest = octal_text(value / 8, (width - 1) as nat);
        assert(pow(8, width) == 8 * pow(8, (width - 1) as nat));
        lemma_octal_text(value / 8, (width - 1) as nat);
        let s = octal_text(value, width);
        assert(s.drop_last() =~= rest);
        assert forall|i: int| 0 <= i < s.len() implies is_octal_digit(#[trigger] s[i]) by {
            if i < rest.len() {
                assert(is_octal_digit(rest[i]));
            }
        }
    }
}

/// A number written in octal digits and closed by a NUL byte is read back as that number.
pub proof fn law_octal_text_reads_back(value: nat, width: nat)
    requires
        0 < width,
        value < pow(8, width),
        value <= u64::MAX,
    ensures
        octal_field(octal_text(value, width).push(0)) == Some(value as u64),
{
    lemma_octal_text(value, width);
    let digits = octal_text(value, width);
    let s = digits.push(0);
    assert(is_octal_digit(digits[0]));
    lemma_after_spaces(s, 0);
    assert(s.skip(0) =~= s);
    assert forall|i: int| 0 <= i < width implies s[i] != 0x20 && s[i] != 0 by {
        assert(is_octal_digit(digits[i]));
    }
    lemma_before_terminator(s, width as int);
    assert(s.subrange(0, width as int) =~= digits);
}

/// Read an octal number: an optional `+`, then digits, for a value of at most 64 bits.
pub(crate) fn parse_octal_number(s: &[u8], start: usize, end: usize) -> (r: Option<u64>)
    requires
        start < end <= s@.len(),
    ensures
        r == octal_number(s@.subrange(start as int, end as int)),
{
    let ghost text = s@.subrange(start as int, end as int);
    let first: usize = if s[start] == 0x2b {
        start + 1
    } else {
        start
    };
    let ghost digits = s@.subrange(first as int, end as int);
    proof {
        if first > start {
            assert(text.skip(1) =~= digits);
        }
    }
    if first == end {
        return None;
    }
    let mut value: u64 = 0;
    let mut i: usize = first;
    assert(s@.subrange(first as int, first as int) =~= Seq::empty());
    while i < end
        invariant
            first <= i <= end <= s@.len(),
            digits == s@.subrange(first as int, end as int),
            forall|j: int| first <= j < i ==> is_octal_digit(#[trigger] s@[j]),
            value == octal_value(s@.subrange(first as int, i as int)),
            octal_number(text) == (if digits.len() > 0 && all_octal_digits(digits) && octal_value(
                digits,
            ) <= u64::MAX {
                Some(octal_value(digits) as u64)
            } else {
                None
            }),
            text == s@.subrange(start as int, end as int),
        decreases end - i,
    {
        let b = s[i];
        if b < 0x30 || b > 0x37 {
            assert(digits[i - first] == b);
            assert(!is_octal_digit(digits[i - first]));
            return None;
        }
        let ghost upto = s@.subrange(first as int, i + 1);
        assert(upto.drop_last() =~= s@.subrange(first as int, i as int));
        assert(octal_value(upto) == value * 8 + (b - 0x30));
        let digit: u64 = (b - 0x30) as u64;
        if value > (u64::MAX - digit) / 8 {
            proof {
                if all_octal_digits(digits) {
                    lemma_octal_value_grows(digits, i + 1 - first);
                    assert(digits.subrange(0, i + 1 - first) =~= upto);
                }
            }
            return None;
        }
        value = value * 8 + digit;
        i += 1;
    }
    proof {
        assert(s@.subrange(first as int, end as int) == digits);
        assert forall|j: int| 0 <= j < digits.len() implies is_octal_digit(#[trigger] digits[j]) by {
            assert(is_octal_digit(s@[first + j]));
        }
    }
    Some(value)
}

/// Simple octal parser for the size field. It does not handle base-256 numbers: it only serves to
/// skip content. Returns `None` on any parse failure.
pub fn parse_octal_simple(bytes: &[u8]) -> (r: Option<u64>)
    ensures
        r == octal_field(bytes@),
        forall|a: int, b: int| #[trigger]
            is_text(bytes@, a, b) ==> match octal_of(bytes@.subrange(a, b)) {
                Some(n) => r matches Some(v) && v == n,
                None => r is None,
            },
{
    proof {
        assert forall|a: int, b: int| #[trigger] is_text(bytes@, a, b) implies match octal_of(
            bytes@.subrange(a, b),
        ) {
            Some(n) => octal_field(bytes@) matches Some(v) && v == n,
            None => octal_field(bytes@) is None,
        } by {
            law_octal_field_is_its_text(bytes@, a, b);
        }
    }
    let mut start: usize = 0;
    while start < bytes.len() && bytes[start] == 0x20
        invariant
            start <= bytes.len(),
            forall|i: int| 0 <= i < start ==> bytes@[i] == 0x20,
        decreases bytes.len() - start,
    {
        start += 1;
    }
    proof {
        lemma_after_spaces(bytes@, start as int);
    }
    let ghost rest = bytes@.skip(start as int);
    let mut end: usize = start;
    while end < bytes.len() && bytes[end] != 0x20 && bytes[end] != 0
        invariant
            start <= end <= bytes.len(),
            forall|i: int| start <= i < end ==> bytes@[i] != 0x20 && bytes@[i] != 0,
        decreases bytes.len() - end,
    {
        end += 1;
    }
    proof {
        lemma_before_terminator(rest, end - start);
        assert(rest.subrange(0, end - start) =~= bytes@.subrange(start as int, end as int));
    }
    if start == end {
        return Some(0);
    }
    parse_octal_number(bytes, start, end)
}

/// `value` in seven octal digits with leading zeros and a NUL byte behind them.
pub fn encode_checksum(value: u64) -> (r: [u8; 8])
    requires
        value < 0o10000000,
    ensures
        r@ == octal_text(value as nat, 7).push(0),
        are_digits(r@.take(7), 8),
        written(r@.take(7), 8) == value,
        r[7] == 0,
{
    proof {
        lemma_octal_digits(value as nat);
    }
    let d6 = (0x30 + value % 8) as u8;
    let d5 = (0x30 + value / 8 % 8) as u8;
    let d4 = (0x30 + value / 64 % 8) as u8;
    let d3 = (0x30 + value / 512 % 8) as u8;
    let d2 = (0x30 + value / 4096 % 8) as u8;
    let d1 = (0x30 + value / 32768 % 8) as u8;
    let d0 = (0x30 + value / 262144 % 8) as u8;
    let r = [d0, d1, d2, d3, d4, d5, d6, 0];
    proof {
        reveal_with_fuel(octal_text, 8);
        assert(r@ =~= octal_text(value as nat, 7).push(0));
        assert(r@.take(7) =~= octal_text(value as nat, 7));
    }
    r
}

} // verus!
