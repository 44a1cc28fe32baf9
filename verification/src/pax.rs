//! The `size` record of a PAX header.
//!
//! The tar crate lets it override the size field of the header behind it.
use crate::bytes::bytes_equal;
use crate::tar_archive::{record_views, PaxRecord, PaxRecordView};
use tar::PaxExtensions;
use vstd::prelude::*;

verus! {

/// The PAX key of the size: `size`.
pub const PAX_SIZE: [u8; 4] = [0x73, 0x69, 0x7a, 0x65];

/// What iterating over `tar::PaxExtensions` of the content of a PAX header gives.
pub uninterp spec fn tar_pax_extensions(content: Seq<u8>) -> Seq<PaxRecordView>;

/// Iterates over `tar::PaxExtensions`.
///
/// Trusted: the records are a function of the content.
#[verifier::external_body]
fn split_records(content: &[u8]) -> (r: Vec<PaxRecord>)
    ensures
        record_views(r@) == tar_pax_extensions(content@),
{
    PaxExtensions::new(content).map(|record| {
        let record = record.ok()?;
        Some((record.key_bytes().to_vec(), record.value_bytes().to_vec()))
    }).collect()
}

/// Whether all bytes are ASCII decimal digits.
pub open spec fn all_digits(s: Seq<u8>) -> bool {
    forall|i: int| 0 <= i < s.len() ==> 0x30 <= #[trigger] s[i] <= 0x39
}

/// The number that the decimal digits `s` write, most significant digit first.
pub open spec fn decimal_value(s: Seq<u8>) -> nat
    decreases s.len(),
{
    if s.len() == 0 {
        0
    } else {
        (decimal_value(s.drop_last()) * 10 + (s.last() - 0x30)) as nat
    }
}

/// The unsigned decimal number that `s` is the text of: an optional `+`, then one digit or more,
/// for a value that fits in 64 bits.
pub open spec fn decimal_number(s: Seq<u8>) -> Option<u64> {
    let digits = if s.len() > 0 && s[0] == 0x2b {
        s.skip(1)
    } else {
        s
    };
    if digits.len() > 0 && all_digits(digits) && decimal_value(digits) <= u64::MAX {
        Some(decimal_value(digits) as u64)
    } else {
        None
    }
}

/// The size that the records of a PAX header set: the value of the first record with that key, if
/// it is a number. Records behind a malformed one do not count.
pub open spec fn size_record(records: Seq<PaxRecordView>) -> Option<u64>
    decreases records.len(),
{
    if records.len() == 0 {
        None
    } else {
        match records[0] {
            Some((key, value)) => if key == PAX_SIZE@ {
                decimal_number(value)
            } else {
                size_record(records.skip(1))
            },
            None => None,
        }
    }
}

/// A longer run of digits never writes a smaller number.
proof fn lemma_decimal_value_grows(s: Seq<u8>, n: int)
    requires
        0 <= n <= s.len(),
        all_digits(s),
    ensures
        decimal_value(s.subrange(0, n)) <= decimal_value(s),
    decreases s.len(),
{
    if n == s.len() {
        assert(s.subrange(0, n) =~= s);
    } else {
        assert(0x30 <= s[s.len() - 1]);
        assert forall|i: int| 0 <= i < s.drop_last().len() implies 0x30 <= #[trigger] s.drop_last()[i]
            <= 0x39 by {
            assert(0x30 <= s[i] <= 0x39);
        }
        lemma_decimal_value_grows(s.drop_last(), n);
        assert(s.drop_last().subrange(0, n) =~= s.subrange(0, n));
    }
}

/// Read a decimal number: an optional `+`, then digits, for a value of at most 64 bits.
fn parse_decimal(s: &[u8]) -> (r: Option<u64>)
    ensures
        r == decimal_number(s@),
{
    let first: usize = if s.len() > 0 && s[0] == 0x2b {
        1
    } else {
        0
    };
    let ghost digits = s@.skip(first as int);
    proof {
        assert(s@.skip(0) =~= s@);
    }
    if first == s.len() {
        return None;
    }
    let mut value: u64 = 0;
    let mut i: usize = first;
    assert(digits.subrange(0, 0) =~= Seq::empty());
    while i < s.len()
        invariant
            first <= i <= s.len(),
            digits == s@.skip(first as int),
            digits.len() > 0,
            forall|j: int| 0 <= j < i - first ==> 0x30 <= #[trigger] digits[j] <= 0x39,
            value == decimal_value(digits.subrange(0, i - first)),
            decimal_number(s@) == (if all_digits(digits) && decimal_value(digits) <= u64::MAX {
                Some(decimal_value(digits) as u64)
            } else {
                None
            }),
        decreases s.len() - i,
    {
        let b = s[i];
        assert(digits[i - first] == b);
        if b < 0x30 || b > 0x39 {
            return None;
        }
        let ghost upto = digits.subrange(0, i + 1 - first);
        assert(upto.drop_last() =~= digits.subrange(0, i - first));
        let digit: u64 = (b - 0x30) as u64;
        assert(decimal_value(upto) == value * 10 + digit);
        if value > (u64::MAX - digit) / 10 {
            proof {
                if all_digits(digits) {
                    lemma_decimal_value_grows(digits, i + 1 - first);
                }
            }
            return None;
        }
        value = value * 10 + digit;
        i += 1;
    }
    assert(digits.subrange(0, digits.len() as int) =~= digits);
    Some(value)
}

/// The size that the records of a PAX header set.
pub fn find_size_record(records: &Vec<PaxRecord>) -> (r: Option<u64>)
    ensures
        r == size_record(record_views(records@)),
{
    let ghost views = record_views(records@);
    let mut i: usize = 0;
    assert(views.skip(0) =~= views);
    while i < records.len()
        invariant
            i <= records.len(),
            views == record_views(records@),
            size_record(views) == size_record(views.skip(i as int)),
        decreases records.len() - i,
    {
        assert(views.skip(i as int)[0] == views[i as int]);
        assert(views.skip(i as int).skip(1) =~= views.skip(i + 1));
        match &records[i] {
            Some((key, value)) => if bytes_equal(key, &PAX_SIZE) {
                return parse_decimal(value);
            },
            None => return None,
        }
        i += 1;
    }
    None
}

/// The size that the PAX header with the given content sets.
pub fn read_size_record(content: &[u8]) -> (r: Option<u64>)
    ensures
        r == size_record(tar_pax_extensions(content@)),
{
    find_size_record(&split_records(content))
}

} // verus!
