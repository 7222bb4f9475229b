//! Text fields of boxes: nul-terminated names and UTF-8 validation.
use vstd::prelude::*;

use vstd::string::StringSliceAdditionalSpecFns;
use vstd::utf8::valid_utf8;

verus! {

/// Whether `i` is the index of the first zero byte of `s`.
pub open spec fn is_first_nul(s: Seq<u8>, i: int) -> bool {
    &&& 0 <= i < s.len()
    &&& s[i] == 0
    &&& forall|j: int| 0 <= j < i ==> s[j] != 0
}

/// The index of the first zero byte of `s`, if it holds one.
pub open spec fn spec_first_nul(s: Seq<u8>) -> Option<int> {
    if exists|i: int| is_first_nul(s, i) {
        Some(choose|i: int| is_first_nul(s, i))
    } else {
        None
    }
}

/// The first zero byte is unique.
pub proof fn lemma_first_nul_unique(s: Seq<u8>, i: int)
    requires
        is_first_nul(s, i),
    ensures
        spec_first_nul(s) == Some(i),
{
    let k = choose|k: int| is_first_nul(s, k);
    assert(is_first_nul(s, k));
    if k < i {
        assert(s[k] != 0);
    } else if i < k {
        assert(s[i] != 0);
    }
}

/// A sequence with no zero byte, followed by a zero byte, has its first zero
/// byte there.
pub proof fn lemma_first_nul_after(a: Seq<u8>, rest: Seq<u8>)
    requires
        !a.contains(0u8),
    ensures
        spec_first_nul(a + seq![0u8] + rest) == Some(a.len() as int),
{
    let s = a + seq![0u8] + rest;
    assert forall|j: int| 0 <= j < a.len() implies s[j] != 0 by {
        assert(s[j] == a[j]);
        if a[j] == 0 {
            assert(a.contains(0u8));
        }
    }
    assert(s[a.len() as int] == 0);
    lemma_first_nul_unique(s, a.len() as int);
}

/// The index of the first zero byte of `s`, if it holds one.
pub fn first_nul(s: &[u8]) -> (r: Option<usize>)
    ensures
        r matches Some(n) ==> spec_first_nul(s@) == Some(n as int),
        r is None ==> spec_first_nul(s@) is None,
{
    let mut i: usize = 0;
    while i < s.len()
        invariant
            i <= s@.len(),
            forall|j: int| 0 <= j < i ==> s@[j] != 0,
        decreases s@.len() - i,
    {
        if s[i] == 0 {
            proof {
                lemma_first_nul_unique(s@, i as int);
            }
            return Some(i);
        }
        i = i + 1;
    }
    assert(!exists|k: int| is_first_nul(s@, k));
    None
}

/// `std::str::from_utf8`: the string held by `b` when `b` is valid UTF-8
/// (`None` otherwise), borrowing the same bytes. Its documentation says that
/// it fails exactly on bytes that are not UTF-8 and otherwise returns the
/// string slice over those bytes.
#[verifier::external_body]
pub(crate) fn str_from_utf8(b: &[u8]) -> (r: Option<&str>)
    ensures
        r is Some <==> valid_utf8(b@),
        r matches Some(s) ==> s.spec_bytes() == b@,
{
    match std::str::from_utf8(b) {
        Ok(s) => Some(s),
        Err(_) => None,
    }
}

} // verus!
