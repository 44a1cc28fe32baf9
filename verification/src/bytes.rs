//! Byte strings: NUL truncation, comparison and copying.
use crate::rs_laws::{is_cut_at_nul, lemma_cut};
use std::borrow::Cow;
use vstd::prelude::*;
use vstd::slice::slice_to_vec;

verus! {

/// The part of `bytes` before its first NUL byte, or all of it if it has none.
pub open spec fn before_nul(bytes: Seq<u8>) -> Seq<u8>
    decreases bytes.len(),
{
    if bytes.len() == 0 || bytes[0] == 0 {
        Seq::empty()
    } else {
        seq![bytes[0]] + before_nul(bytes.skip(1))
    }
}

/// `before_nul` stops at position `n` when that is where the first NUL byte, or the end, is.
pub proof fn lemma_before_nul_is_prefix(bytes: Seq<u8>, n: int)
    requires
        0 <= n <= bytes.len(),
        forall|i: int| 0 <= i < n ==> bytes[i] != 0,
        n < bytes.len() ==> bytes[n] == 0,
    ensures
        before_nul(bytes) == bytes.subrange(0, n),
    decreases bytes.len(),
{
    if n == 0 {
        assert(bytes.subrange(0, 0) =~= Seq::empty());
    } else {
        lemma_before_nul_is_prefix(bytes.skip(1), n - 1);
        assert(bytes.subrange(0, n) =~= seq![bytes[0]] + bytes.skip(1).subrange(0, n - 1));
    }
}

/// Truncating at the first NUL byte leaves a prefix without NUL bytes; it is the whole string
/// exactly when the string has no NUL byte, and otherwise a NUL byte follows it.
pub proof fn law_truncation_is_longest_nul_free_prefix(bytes: Seq<u8>)
    ensures
        before_nul(bytes).len() <= bytes.len(),
        before_nul(bytes) == bytes.subrange(0, before_nul(bytes).len() as int),
        !before_nul(bytes).contains(0u8),
        before_nul(bytes).len() < bytes.len() ==> bytes[before_nul(bytes).len() as int] == 0,
        bytes.contains(0u8) <==> before_nul(bytes).len() < bytes.len(),
    decreases bytes.len(),
{
    if bytes.len() == 0 {
        assert(bytes.subrange(0, 0) =~= Seq::empty());
    } else if bytes[0] == 0 {
        assert(bytes.subrange(0, 0) =~= Seq::empty());
        assert(bytes.contains(0u8));
    } else {
        let rest = bytes.skip(1);
        law_truncation_is_longest_nul_free_prefix(rest);
        let kept = before_nul(bytes);
        assert(kept =~= bytes.subrange(0, kept.len() as int)) by {
            assert forall|i: int| 0 <= i < kept.len() implies kept[i] == bytes[i] by {
                if i > 0 {
                    assert(kept[i] == before_nul(rest)[i - 1]);
                    assert(before_nul(rest)[i - 1] == rest.subrange(0, before_nul(rest).len() as int)[i - 1]);
                }
            }
        }
        assert(!kept.contains(0u8)) by {
            if kept.contains(0u8) {
                let i = choose|i: int| 0 <= i < kept.len() && kept[i] == 0u8;
                assert(before_nul(rest)[i - 1] == 0u8);
            }
        }
        if bytes.contains(0u8) {
            let i = choose|i: int| 0 <= i < bytes.len() && bytes[i] == 0u8;
            assert(rest[i - 1] == 0u8);
        }
    }
}

/// Truncating a second time changes nothing.
pub proof fn law_truncation_is_idempotent(bytes: Seq<u8>)
    ensures
        before_nul(before_nul(bytes)) == before_nul(bytes),
{
    law_truncation_is_longest_nul_free_prefix(bytes);
    let kept = before_nul(bytes);
    assert forall|i: int| 0 <= i < kept.len() implies kept[i] != 0 by {
        assert(kept.contains(kept[i]));
    }
    lemma_before_nul_is_prefix(kept, kept.len() as int);
    assert(kept.subrange(0, kept.len() as int) =~= kept);
}

/// Truncate a byte string at the first NUL byte, if any.
///
/// GNU LongName and LongLink content is NUL-terminated, as a C string is. The tar crate hands out
/// what follows the NUL byte as well, so its names are cut here before they are compared.
pub fn truncate_at_nul(bytes: Vec<u8>) -> (r: Vec<u8>)
    ensures
        r@ == before_nul(bytes@),
        is_cut_at_nul(bytes@, r@),
{
    proof {
        lemma_cut(bytes@);
    }
    let mut bytes = bytes;
    let ghost whole = bytes@;
    let mut n: usize = 0;
    while n < bytes.len() && bytes[n] != 0
        invariant
            n <= bytes.len(),
            bytes@ == whole,
            forall|i: int| 0 <= i < n ==> whole[i] != 0,
        decreases bytes.len() - n,
    {
        n += 1;
    }
    proof {
        lemma_before_nul_is_prefix(whole, n as int);
    }
    bytes.truncate(n);
    bytes
}

/// Whether two byte strings are the same.
pub fn bytes_equal(a: &[u8], b: &[u8]) -> (r: bool)
    ensures
        r == (a@ == b@),
{
    if a.len() != b.len() {
        return false;
    }
    let mut i: usize = 0;
    while i < a.len()
        invariant
            i <= a.len(),
            a@.len() == b@.len(),
            forall|j: int| 0 <= j < i ==> a@[j] == b@[j],
        decreases a.len() - i,
    {
        if a[i] != b[i] {
            return false;
        }
        i += 1;
    }
    assert(a@ =~= b@);
    true
}

/// Whether `bytes` starts with `prefix`.
pub fn starts_with(bytes: &[u8], prefix: &[u8]) -> (r: bool)
    ensures
        r == prefix@.is_prefix_of(bytes@),
{
    if bytes.len() < prefix.len() {
        return false;
    }
    let mut i: usize = 0;
    while i < prefix.len()
        invariant
            i <= prefix.len(),
            prefix@.len() <= bytes@.len(),
            forall|j: int| 0 <= j < i ==> prefix@[j] == bytes@[j],
        decreases prefix.len() - i,
    {
        if bytes[i] != prefix[i] {
            return false;
        }
        i += 1;
    }
    assert(prefix@ =~= bytes@.subrange(0, prefix@.len() as int));
    true
}

/// Whether every byte is zero.
pub open spec fn all_zero(bytes: Seq<u8>) -> bool {
    forall|i: int| 0 <= i < bytes.len() ==> bytes[i] == 0
}

/// Whether every byte is zero.
pub fn is_all_zero(bytes: &[u8]) -> (r: bool)
    ensures
        r == all_zero(bytes@),
{
    let mut i: usize = 0;
    while i < bytes.len()
        invariant
            i <= bytes.len(),
            forall|j: int| 0 <= j < i ==> bytes@[j] == 0,
        decreases bytes.len() - i,
    {
        if bytes[i] != 0 {
            return false;
        }
        i += 1;
    }
    true
}

/// The bytes of a borrowed or owned byte string, owned.
pub fn owned_bytes(bytes: Cow<'_, [u8]>) -> (r: Vec<u8>)
    ensures
        r@ == bytes@,
{
    match bytes {
        Cow::Borrowed(b) => slice_to_vec(b),
        Cow::Owned(v) => v,
    }
}

} // verus!
