//! The reference descriptor: a collection is serialized as the path of its
//! store, `{"path":<JSON string>}`, never as its contents, and re-attached
//! from that path.
use vstd::prelude::*;

use crate::error::StoreError;

verus! {

/// The bytes of the JSON string literal that serde_json writes for `s`.
pub uninterp spec fn json_quoted(s: Seq<char>) -> Seq<u8>;

/// The string that serde_json reads from the bytes `b`, where they are one
/// JSON string literal.
pub uninterp spec fn json_unquoted(b: Seq<u8>) -> Option<Seq<char>>;

/// Relies on serde_json::to_vec on a `str`: the JSON string literal for
/// `s`, which serde_json reads back as `s`. Writing a `str` cannot fail.
#[verifier::external_body]
fn json_quote(s: &str) -> (r: Vec<u8>)
    ensures
        r@ == json_quoted(s@),
        json_unquoted(r@) == Some(s@),
{
    serde_json::to_vec(s).unwrap_or_default()
}

/// Relies on serde_json::from_slice into a `String`: the string that the
/// bytes hold as one JSON string literal, or nothing.
#[verifier::external_body]
fn json_unquote(b: &[u8]) -> (r: Option<String>)
    ensures
        match r {
            Some(s) => json_unquoted(b@) == Some(s@),
            None => json_unquoted(b@) is None,
        },
{
    serde_json::from_slice::<String>(b).ok()
}

/// The opening of every descriptor: `{"path":`.
pub open spec fn descriptor_head() -> Seq<u8> {
    seq![123u8, 34u8, 112u8, 97u8, 116u8, 104u8, 34u8, 58u8]
}

/// The descriptor of the collection stored at `path`.
pub open spec fn descriptor_of(path: Seq<char>) -> Seq<u8> {
    descriptor_head() + json_quoted(path) + seq![125u8]
}

/// The path that the descriptor `b` names, if `b` is a descriptor.
pub open spec fn descriptor_path(b: Seq<u8>) -> Option<Seq<char>> {
    if b.len() >= 9 && b.subrange(0, 8) == descriptor_head() && b[b.len() - 1] == 125u8 {
        json_unquoted(b.subrange(8, b.len() - 1))
    } else {
        None
    }
}

/// The descriptor of the collection stored at `path`; reading it back with
/// `from_descriptor` gives `path` again.
pub fn to_descriptor(path: &str) -> (r: Vec<u8>)
    ensures
        r@ == descriptor_of(path@),
        descriptor_path(r@) == Some(path@),
{
    let q = json_quote(path);
    let mut out: Vec<u8> = Vec::new();
    out.push(123u8);
    out.push(34u8);
    out.push(112u8);
    out.push(97u8);
    out.push(116u8);
    out.push(104u8);
    out.push(34u8);
    out.push(58u8);
    assert(out@ =~= descriptor_head());
    let mut i: usize = 0;
    while i < q.len()
        invariant
            i <= q@.len(),
            out@ =~= descriptor_head() + q@.subrange(0, i as int),
        decreases q@.len() - i,
    {
        out.push(q[i]);
        i = i + 1;
        assert(q@.subrange(0, i as int) =~= q@.subrange(0, i - 1).push(q@[i - 1]));
    }
    out.push(125u8);
    proof {
        assert(q@.subrange(0, q@.len() as int) =~= q@);
        assert(out@ =~= descriptor_of(path@));
        assert(out@.subrange(0, 8) =~= descriptor_head());
        assert(out@.subrange(8, out@.len() - 1) =~= q@);
    }
    out
}

/// The path that a descriptor names; a `Codec` error where `b` is no
/// descriptor.
pub fn from_descriptor(b: &[u8]) -> (r: Result<String, StoreError>)
    ensures
        match descriptor_path(b@) {
            Some(p) => r is Ok && r->Ok_0@ == p,
            None => r == Err::<String, StoreError>(StoreError::Codec),
        },
{
    let n = b.len();
    if n < 9 || b[n - 1] != 125u8 {
        return Err(StoreError::Codec);
    }
    let head: [u8; 8] = [123u8, 34u8, 112u8, 97u8, 116u8, 104u8, 34u8, 58u8];
    let mut i: usize = 0;
    while i < 8
        invariant
            n == b@.len(),
            n >= 9,
            i <= 8,
            head@ == descriptor_head(),
            forall|j: int| 0 <= j < i ==> b@[j] == descriptor_head()[j],
        decreases 8 - i,
    {
        if b[i] != head[i] {
            proof {
                assert(b@.subrange(0, 8)[i as int] != descriptor_head()[i as int]);
            }
            return Err(StoreError::Codec);
        }
        i = i + 1;
    }
    assert(b@.subrange(0, 8) =~= descriptor_head());
    let mut mid: Vec<u8> = Vec::with_capacity(n - 9);
    let mut j: usize = 8;
    while j < n - 1
        invariant
            n == b@.len(),
            n >= 9,
            8 <= j <= n - 1,
            mid@ =~= b@.subrange(8, j as int),
        decreases n - 1 - j,
    {
        mid.push(b[j]);
        j = j + 1;
    }
    match json_unquote(mid.as_slice()) {
        Some(p) => Ok(p),
        None => Err(StoreError::Codec),
    }
}

} // verus!
