//! Byte encodings: order-preserving keys for the engine, and the fixed-width
//! length record of a sequence's side file.
use vstd::prelude::*;

use crate::error::StoreError;

verus! {

/// Byte-wise lexicographic comparison from position `i` on, the order in
/// which the engine keeps its keys (a proper prefix comes first).
pub open spec fn bytes_lt_from(s: Seq<u8>, t: Seq<u8>, i: int) -> bool
    decreases s.len() - i,
{
    if i < 0 || i >= s.len() {
        0 <= i < t.len()
    } else if i >= t.len() {
        false
    } else if s[i] != t[i] {
        s[i] < t[i]
    } else {
        bytes_lt_from(s, t, i + 1)
    }
}

/// `s` sorts strictly before `t` in the engine's byte order.
pub open spec fn bytes_lt(s: Seq<u8>, t: Seq<u8>) -> bool {
    bytes_lt_from(s, t, 0)
}

/// The stored form of a key: its eight bytes, most significant first.
pub open spec fn key_bytes(k: u64) -> Seq<u8> {
    seq![
        (k >> 56u64) as u8,
        (k >> 48u64) as u8,
        (k >> 40u64) as u8,
        (k >> 32u64) as u8,
        (k >> 24u64) as u8,
        (k >> 16u64) as u8,
        (k >> 8u64) as u8,
        k as u8,
    ]
}

/// The length record: eight bytes, least significant first.
pub open spec fn len_bytes(n: u64) -> Seq<u8> {
    seq![
        n as u8,
        (n >> 8u64) as u8,
        (n >> 16u64) as u8,
        (n >> 24u64) as u8,
        (n >> 32u64) as u8,
        (n >> 40u64) as u8,
        (n >> 48u64) as u8,
        (n >> 56u64) as u8,
    ]
}

} // verus!

verus! {

/// Distinct keys have distinct stored forms, and the engine's byte order on
/// stored forms is the numeric order on keys.
pub proof fn lemma_key_order(a: u64, b: u64)
    ensures
        a < b <==> bytes_lt(key_bytes(a), key_bytes(b)),
        a == b <==> key_bytes(a) == key_bytes(b),
{
    reveal_with_fuel(bytes_lt_from, 9);
    lemma_lex_bytes(a, b);
    if key_bytes(a) == key_bytes(b) {
        assert forall|i: int| 0 <= i < 8 implies key_bytes(a)[i] == key_bytes(b)[i] by {}
    }
}

/// The numeric order of two keys, read off their bytes from the most
/// significant down.
proof fn lemma_lex_bytes(a: u64, b: u64)
    by (bit_vector)
    ensures
        a < b <==> (if (a >> 56u64) as u8 != (b >> 56u64) as u8 {
            ((a >> 56u64) as u8) < ((b >> 56u64) as u8)
        } else if (a >> 48u64) as u8 != (b >> 48u64) as u8 {
            ((a >> 48u64) as u8) < ((b >> 48u64) as u8)
        } else if (a >> 40u64) as u8 != (b >> 40u64) as u8 {
            ((a >> 40u64) as u8) < ((b >> 40u64) as u8)
        } else if (a >> 32u64) as u8 != (b >> 32u64) as u8 {
            ((a >> 32u64) as u8) < ((b >> 32u64) as u8)
        } else if (a >> 24u64) as u8 != (b >> 24u64) as u8 {
            ((a >> 24u64) as u8) < ((b >> 24u64) as u8)
        } else if (a >> 16u64) as u8 != (b >> 16u64) as u8 {
            ((a >> 16u64) as u8) < ((b >> 16u64) as u8)
        } else if (a >> 8u64) as u8 != (b >> 8u64) as u8 {
            ((a >> 8u64) as u8) < ((b >> 8u64) as u8)
        } else {
            (a as u8) < (b as u8)
        }),
        a == b <==> ((a >> 56u64) as u8 == (b >> 56u64) as u8 && (a >> 48u64) as u8 == (b
            >> 48u64) as u8 && (a >> 40u64) as u8 == (b >> 40u64) as u8 && (a >> 32u64) as u8 == (b
            >> 32u64) as u8 && (a >> 24u64) as u8 == (b >> 24u64) as u8 && (a >> 16u64) as u8 == (b
            >> 16u64) as u8 && (a >> 8u64) as u8 == (b >> 8u64) as u8 && a as u8 == b as u8),
{
}

/// The key whose stored form is the eight given bytes.
pub open spec fn key_of_bytes(x0: u8, x1: u8, x2: u8, x3: u8, x4: u8, x5: u8, x6: u8, x7: u8) -> u64 {
    (x0 as u64) << 56u64 | (x1 as u64) << 48u64 | (x2 as u64) << 40u64 | (x3 as u64) << 32u64
        | (x4 as u64) << 24u64 | (x5 as u64) << 16u64 | (x6 as u64) << 8u64 | x7 as u64
}

/// The length whose record is the eight given bytes.
pub open spec fn len_of_bytes(x0: u8, x1: u8, x2: u8, x3: u8, x4: u8, x5: u8, x6: u8, x7: u8) -> u64 {
    x0 as u64 | (x1 as u64) << 8u64 | (x2 as u64) << 16u64 | (x3 as u64) << 24u64 | (x4 as u64)
        << 32u64 | (x5 as u64) << 40u64 | (x6 as u64) << 48u64 | (x7 as u64) << 56u64
}

proof fn lemma_shifted_bytes(k: u64, x0: u8, x1: u8, x2: u8, x3: u8, x4: u8, x5: u8, x6: u8, x7: u8)
    by (bit_vector)
    requires
        k == (x0 as u64) << 56u64 | (x1 as u64) << 48u64 | (x2 as u64) << 40u64 | (x3 as u64)
            << 32u64 | (x4 as u64) << 24u64 | (x5 as u64) << 16u64 | (x6 as u64) << 8u64 | x7 as u64,
    ensures
        (k >> 56u64) as u8 == x0,
        (k >> 48u64) as u8 == x1,
        (k >> 40u64) as u8 == x2,
        (k >> 32u64) as u8 == x3,
        (k >> 24u64) as u8 == x4,
        (k >> 16u64) as u8 == x5,
        (k >> 8u64) as u8 == x6,
        k as u8 == x7,
{
}

proof fn lemma_key_of_bytes(x0: u8, x1: u8, x2: u8, x3: u8, x4: u8, x5: u8, x6: u8, x7: u8)
    ensures
        key_bytes(key_of_bytes(x0, x1, x2, x3, x4, x5, x6, x7)) == seq![x0, x1, x2, x3, x4, x5, x6, x7],
{
    let k = key_of_bytes(x0, x1, x2, x3, x4, x5, x6, x7);
    lemma_shifted_bytes(k, x0, x1, x2, x3, x4, x5, x6, x7);
    assert(key_bytes(k) =~= seq![x0, x1, x2, x3, x4, x5, x6, x7]);
}

proof fn lemma_len_of_bytes(x0: u8, x1: u8, x2: u8, x3: u8, x4: u8, x5: u8, x6: u8, x7: u8)
    ensures
        len_bytes(len_of_bytes(x0, x1, x2, x3, x4, x5, x6, x7)) == seq![x0, x1, x2, x3, x4, x5, x6, x7],
{
    let n = len_of_bytes(x0, x1, x2, x3, x4, x5, x6, x7);
    assert(n == key_of_bytes(x7, x6, x5, x4, x3, x2, x1, x0)) by (bit_vector)
        requires
            n == x0 as u64 | (x1 as u64) << 8u64 | (x2 as u64) << 16u64 | (x3 as u64) << 24u64
                | (x4 as u64) << 32u64 | (x5 as u64) << 40u64 | (x6 as u64) << 48u64 | (x7 as u64)
                << 56u64,
    ;
    lemma_shifted_bytes(n, x7, x6, x5, x4, x3, x2, x1, x0);
    assert(len_bytes(n) =~= seq![x0, x1, x2, x3, x4, x5, x6, x7]);
}

} // verus!

verus! {

/// The stored form of `k`.
pub fn encode_key(k: u64) -> (r: Vec<u8>)
    ensures
        r@ == key_bytes(k),
{
    let mut v: Vec<u8> = Vec::with_capacity(8);
    v.push((k >> 56u64) as u8);
    v.push((k >> 48u64) as u8);
    v.push((k >> 40u64) as u8);
    v.push((k >> 32u64) as u8);
    v.push((k >> 24u64) as u8);
    v.push((k >> 16u64) as u8);
    v.push((k >> 8u64) as u8);
    v.push(k as u8);
    assert(v@ =~= key_bytes(k));
    v
}

/// The key stored as `b`; a `Codec` error where `b` is no stored key.
pub fn decode_key(b: &[u8]) -> (r: Result<u64, StoreError>)
    ensures
        b@.len() == 8 <==> r is Ok,
        r is Ok ==> key_bytes(r->Ok_0) == b@,
        r is Err ==> r->Err_0 == StoreError::Codec,
{
    if b.len() != 8 {
        return Err(StoreError::Codec);
    }
    let k: u64 = ((b[0] as u64) << 56u64) | ((b[1] as u64) << 48u64) | ((b[2] as u64) << 40u64)
        | ((b[3] as u64) << 32u64) | ((b[4] as u64) << 24u64) | ((b[5] as u64) << 16u64) | ((
    b[6] as u64) << 8u64) | (b[7] as u64);
    proof {
        lemma_key_of_bytes(b[0], b[1], b[2], b[3], b[4], b[5], b[6], b[7]);
        assert(b@ =~= seq![b[0], b[1], b[2], b[3], b[4], b[5], b[6], b[7]]);
    }
    Ok(k)
}

/// The length record of a sequence holding `n` slots.
pub fn encode_len(n: u64) -> (r: Vec<u8>)
    ensures
        r@ == len_bytes(n),
{
    let mut v: Vec<u8> = Vec::with_capacity(8);
    v.push(n as u8);
    v.push((n >> 8u64) as u8);
    v.push((n >> 16u64) as u8);
    v.push((n >> 24u64) as u8);
    v.push((n >> 32u64) as u8);
    v.push((n >> 40u64) as u8);
    v.push((n >> 48u64) as u8);
    v.push((n >> 56u64) as u8);
    assert(v@ =~= len_bytes(n));
    v
}

/// The length held by a side file's contents: its first eight bytes; a
/// `Codec` error where the file is shorter.
pub fn decode_len(b: &[u8]) -> (r: Result<u64, StoreError>)
    ensures
        b@.len() >= 8 <==> r is Ok,
        r is Ok ==> r->Ok_0 == len_of_bytes(b@[0], b@[1], b@[2], b@[3], b@[4], b@[5], b@[6], b@[7]),
        r is Ok ==> len_bytes(r->Ok_0) == b@.subrange(0, 8),
        r is Err ==> r->Err_0 == StoreError::Codec,
{
    if b.len() < 8 {
        return Err(StoreError::Codec);
    }
    let n: u64 = (b[0] as u64) | ((b[1] as u64) << 8u64) | ((b[2] as u64) << 16u64) | ((
    b[3] as u64) << 24u64) | ((b[4] as u64) << 32u64) | ((b[5] as u64) << 40u64) | ((
    b[6] as u64) << 48u64) | ((b[7] as u64) << 56u64);
    proof {
        lemma_len_of_bytes(b[0], b[1], b[2], b[3], b[4], b[5], b[6], b[7]);
        assert(b@.subrange(0, 8) =~= seq![b[0], b[1], b[2], b[3], b[4], b[5], b[6], b[7]]);
    }
    Ok(n)
}

} // verus!

verus! {

/// Every key of an engine scan is a stored key.
pub open spec fn scan_keys_sized(raw: Seq<(Vec<u8>, Vec<u8>)>) -> bool {
    forall|i: int| 0 <= i < raw.len() ==> (#[trigger] raw[i]).0@.len() == 8
}

/// The keys of an engine scan come in strictly ascending byte order.
pub open spec fn scan_keys_ascending(raw: Seq<(Vec<u8>, Vec<u8>)>) -> bool {
    forall|i: int| 0 <= i < raw.len() - 1 ==> bytes_lt((#[trigger] raw[i]).0@, raw[i + 1].0@)
}

/// Keys strictly ascending in a list of decoded entries.
pub open spec fn keys_ascending(es: Seq<(u64, Vec<u8>)>) -> bool {
    forall|i: int, j: int| 0 <= i < j < es.len() ==> (#[trigger] es[i]).0 < (#[trigger] es[j]).0
}

/// Turns the raw pairs of an ordered engine scan into entries. The scan is
/// accepted exactly when each key is a stored key and the keys ascend in
/// byte order; the entries then keep the scan's order, which is ascending
/// key order.
pub fn decode_entries(raw: &Vec<(Vec<u8>, Vec<u8>)>) -> (r: Result<Vec<(u64, Vec<u8>)>, StoreError>)
    ensures
        r is Ok <==> scan_keys_sized(raw@) && scan_keys_ascending(raw@),
        r is Err ==> r->Err_0 == StoreError::Codec,
        r is Ok ==> {
            let es = r->Ok_0@;
            &&& es.len() == raw@.len()
            &&& forall|i: int|
                0 <= i < es.len() ==> key_bytes((#[trigger] es[i]).0) == raw@[i].0@ && es[i].1@
                    == raw@[i].1@
            &&& keys_ascending(es)
        },
{
    let mut out: Vec<(u64, Vec<u8>)> = Vec::new();
    let n = raw.len();
    let mut i: usize = 0;
    while i < n
        invariant
            n == raw@.len(),
            i <= n,
            out@.len() == i,
            forall|j: int| 0 <= j < i ==> (#[trigger] raw@[j]).0@.len() == 8,
            forall|j: int| 0 <= j < i - 1 ==> bytes_lt((#[trigger] raw@[j]).0@, raw@[j + 1].0@),
            forall|j: int|
                0 <= j < i ==> key_bytes((#[trigger] out@[j]).0) == raw@[j].0@ && out@[j].1@
                    == raw@[j].1@,
            keys_ascending(out@),
        decreases n - i,
    {
        let k = match decode_key(raw[i].0.as_slice()) {
            Ok(k) => k,
            Err(e) => {
                return Err(e);
            },
        };
        if i > 0 {
            let prev = out[i - 1].0;
            proof {
                lemma_key_order(prev, k);
            }
            if prev >= k {
                return Err(StoreError::Codec);
            }
        }
        let v = raw[i].1.clone();
        assert(v@ =~= raw@[i as int].1@);
        out.push((k, v));
        i = i + 1;
    }
    Ok(out)
}

/// The record written for a length reads back as that length.
pub proof fn lemma_len_record_round_trip(n: u64)
    ensures
        len_of_bytes(
            len_bytes(n)[0],
            len_bytes(n)[1],
            len_bytes(n)[2],
            len_bytes(n)[3],
            len_bytes(n)[4],
            len_bytes(n)[5],
            len_bytes(n)[6],
            len_bytes(n)[7],
        ) == n,
{
    let b = len_bytes(n);
    lemma_len_of_bytes(b[0], b[1], b[2], b[3], b[4], b[5], b[6], b[7]);
    assert(b =~= seq![b[0], b[1], b[2], b[3], b[4], b[5], b[6], b[7]]);
    lemma_len_round_trip(len_of_bytes(b[0], b[1], b[2], b[3], b[4], b[5], b[6], b[7]), n);
}

/// Distinct lengths have distinct records, so a record reads back as the
/// length it was written for.
pub proof fn lemma_len_round_trip(a: u64, b: u64)
    ensures
        len_bytes(a) == len_bytes(b) <==> a == b,
{
    if len_bytes(a) == len_bytes(b) {
        assert(len_bytes(a)[0] == len_bytes(b)[0]);
        assert(len_bytes(a)[1] == len_bytes(b)[1]);
        assert(len_bytes(a)[2] == len_bytes(b)[2]);
        assert(len_bytes(a)[3] == len_bytes(b)[3]);
        assert(len_bytes(a)[4] == len_bytes(b)[4]);
        assert(len_bytes(a)[5] == len_bytes(b)[5]);
        assert(len_bytes(a)[6] == len_bytes(b)[6]);
        assert(len_bytes(a)[7] == len_bytes(b)[7]);
        assert(((a as u8) == (b as u8) && ((a >> 8u64) as u8) == ((b >> 8u64) as u8) && ((a
            >> 16u64) as u8) == ((b >> 16u64) as u8) && ((a >> 24u64) as u8) == ((b >> 24u64) as u8)
            && ((a >> 32u64) as u8) == ((b >> 32u64) as u8) && ((a >> 40u64) as u8) == ((b
            >> 40u64) as u8) && ((a >> 48u64) as u8) == ((b >> 48u64) as u8) && ((a >> 56u64) as u8)
            == ((b >> 56u64) as u8)) ==> a == b) by (bit_vector);
    }
}

} // verus!

verus! {

/// `raw` is an engine scan of the map `m`: the stored forms of exactly the
/// keys of `m`, each with its value, in strictly ascending byte order.
pub open spec fn scan_of(raw: Seq<(Vec<u8>, Vec<u8>)>, m: Map<u64, Seq<u8>>) -> bool {
    &&& scan_keys_ascending(raw)
    &&& forall|i: int|
        0 <= i < raw.len() ==> exists|k: u64|
            m.contains_key(k) && key_bytes(k) == (#[trigger] raw[i]).0@ && m[k] == raw[i].1@
    &&& forall|k: u64| #[trigger]
        m.contains_key(k) ==> exists|i: int| 0 <= i < raw.len() && (#[trigger] raw[i]).0@ == key_bytes(k)
}

proof fn lemma_adjacent_to_all(es: Seq<(u64, Vec<u8>)>, i: int, j: int)
    requires
        forall|t: int| 0 <= t < es.len() - 1 ==> (#[trigger] es[t]).0 < es[t + 1].0,
        0 <= i < j < es.len(),
    ensures
        es[i].0 < es[j].0,
    decreases j - i,
{
    if j - i > 1 {
        lemma_adjacent_to_all(es, i, j - 1);
        assert(es[j - 1].0 < es[j].0);
    } else {
        assert(es[i].0 < es[i + 1].0);
    }
}

/// Ordering law: whatever inserts and removes left the map `m`, a scan of
/// its stored form is accepted by `decode_entries`, and the entries decoded
/// from it are exactly those of `m`, in strictly ascending key order.
pub proof fn lemma_scan_lists_map(
    raw: Seq<(Vec<u8>, Vec<u8>)>,
    m: Map<u64, Seq<u8>>,
    es: Seq<(u64, Vec<u8>)>,
)
    requires
        scan_of(raw, m),
        es.len() == raw.len(),
        forall|i: int|
            0 <= i < es.len() ==> key_bytes((#[trigger] es[i]).0) == raw[i].0@ && es[i].1@
                == raw[i].1@,
    ensures
        scan_keys_sized(raw),
        keys_ascending(es),
        forall|i: int|
            0 <= i < es.len() ==> m.contains_key((#[trigger] es[i]).0) && m[es[i].0] == es[i].1@,
        forall|k: u64| #[trigger]
            m.contains_key(k) ==> exists|i: int| 0 <= i < es.len() && (#[trigger] es[i]).0 == k,
{
    assert forall|i: int| 0 <= i < raw.len() implies (#[trigger] raw[i]).0@.len() == 8 by {
        assert(key_bytes(es[i].0) == raw[i].0@);
    }
    assert forall|t: int| 0 <= t < es.len() - 1 implies (#[trigger] es[t]).0 < es[t + 1].0 by {
        assert(bytes_lt(raw[t].0@, raw[t + 1].0@));
        lemma_key_order(es[t].0, es[t + 1].0);
    }
    assert forall|i: int, j: int| 0 <= i < j < es.len() implies (#[trigger] es[i]).0
        < (#[trigger] es[j]).0 by {
        lemma_adjacent_to_all(es, i, j);
    }
    assert forall|i: int| 0 <= i < es.len() implies m.contains_key((#[trigger] es[i]).0) && m[es[i].0]
        == es[i].1@ by {
        let k = choose|k: u64| m.contains_key(k) && key_bytes(k) == (#[trigger] raw[i]).0@ && m[k] == raw[i].1@;
        lemma_key_order(k, es[i].0);
    }
    assert forall|k: u64| #[trigger] m.contains_key(k) implies exists|i: int|
        0 <= i < es.len() && (#[trigger] es[i]).0 == k by {
        let i = choose|i: int| 0 <= i < raw.len() && (#[trigger] raw[i]).0@ == key_bytes(k);
        lemma_key_order(k, es[i].0);
    }
}

} // verus!
