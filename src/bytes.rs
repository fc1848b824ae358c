//! Small operations on byte strings shared by the modules.
use vstd::prelude::*;
use vstd::utf8::{decode_utf8, valid_utf8};

verus! {

/// A fresh copy of `b`.
pub fn copy_bytes(b: &[u8]) -> (r: Vec<u8>)
    ensures
        r@ == b@,
{
    let mut v: Vec<u8> = Vec::new();
    v.extend_from_slice(b);
    assert(v@ =~= b@);
    v
}

/// A copy of `b[from..to]`.
pub fn copy_range(b: &[u8], from: usize, to: usize) -> (r: Vec<u8>)
    requires
        from <= to <= b@.len(),
    ensures
        r@ == b@.subrange(from as int, to as int),
{
    let mut v: Vec<u8> = Vec::with_capacity(to - from);
    let mut i: usize = from;
    while i < to
        invariant
            from <= i <= to,
            to <= b@.len(),
            v@ == b@.subrange(from as int, i as int),
        decreases to - i,
    {
        v.push(b[i]);
        i = i + 1;
        assert(v@ =~= b@.subrange(from as int, i as int));
    }
    v
}

/// `a` followed by `b`.
pub fn concat(a: &[u8], b: &[u8]) -> (r: Vec<u8>)
    ensures
        r@ == a@ + b@,
{
    let mut v: Vec<u8> = Vec::new();
    v.extend_from_slice(a);
    v.extend_from_slice(b);
    assert(v@ =~= a@ + b@);
    v
}

/// Whether two byte strings are equal.
pub fn bytes_equal(a: &[u8], b: &[u8]) -> (r: bool)
    ensures
        r == (a@ == b@),
{
    if a.len() != b.len() {
        return false;
    }
    let mut i: usize = 0;
    while i < a.len()
        invariant
            i <= a@.len(),
            a@.len() == b@.len(),
            forall|j: int| 0 <= j < i ==> a@[j] == b@[j],
        decreases a@.len() - i,
    {
        if a[i] != b[i] {
            return false;
        }
        i = i + 1;
    }
    assert(a@ =~= b@);
    true
}

/// Relies on `String::from_utf8`: it accepts exactly the valid UTF-8 byte strings
/// and keeps their characters; otherwise it describes the first invalid sequence.
#[verifier::external_body]
pub(crate) fn utf8_decode(v: Vec<u8>) -> (r: Result<String, String>)
    ensures
        r is Ok <==> valid_utf8(v@),
        r matches Ok(s) ==> s@ == decode_utf8(v@),
{
    String::from_utf8(v).map_err(|e| format!("{}", e))
}

} // verus!
