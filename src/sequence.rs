//! Slot bookkeeping of a persistent sequence: which index a write lands on,
//! and the logical length that the side file records.
use vstd::prelude::*;

use crate::codec::{decode_len, encode_len, len_bytes, len_of_bytes, lemma_len_record_round_trip};
use crate::error::StoreError;

verus! {

/// How a slot write changes the sequence.
#[derive(Debug, Clone, Copy, PartialEq, Eq, Structural)]
pub enum SlotWrite {
    /// The slot exists and its value is replaced.
    Overwrite,
    /// The slot is the one just past the end: the sequence grows by one.
    Append,
}

/// The contents after writing `v` at `index` in the way `w` says.
pub open spec fn apply_write<V>(s: Seq<V>, index: int, v: V, w: SlotWrite) -> Seq<V> {
    match w {
        SlotWrite::Overwrite => s.update(index, v),
        SlotWrite::Append => s.push(v),
    }
}

/// The logical length of a sequence, as its side file records it.
pub struct SeqLength {
    len: u64,
}

impl View for SeqLength {
    type V = nat;

    closed spec fn view(&self) -> nat {
        self.len as nat
    }
}

impl SeqLength {
    /// A sequence of `len` slots.
    pub fn new(len: u64) -> (r: Self)
        ensures
            r@ == len,
    {
        SeqLength { len }
    }

    /// Reads the side file's contents; a `Codec` error where they are too
    /// short to hold a length.
    pub fn from_record(b: &[u8]) -> (r: Result<Self, StoreError>)
        ensures
            r is Ok <==> b@.len() >= 8,
            r is Ok ==> r->Ok_0@ == len_of_bytes(b@[0], b@[1], b@[2], b@[3], b@[4], b@[5], b@[6], b@[7]),
            r is Ok ==> len_bytes(r->Ok_0@ as u64) == b@.subrange(0, 8),
            r is Err ==> r->Err_0 == StoreError::Codec,
    {
        match decode_len(b) {
            Ok(len) => Ok(SeqLength { len }),
            Err(e) => Err(e),
        }
    }

    /// The side file's contents for this length.
    pub fn record(&self) -> (r: Vec<u8>)
        ensures
            r@ == len_bytes(self@ as u64),
    {
        encode_len(self.len)
    }

    pub fn len(&self) -> (r: u64)
        ensures
            r == self@,
    {
        self.len
    }

    pub fn is_empty(&self) -> (r: bool)
        ensures
            r == (self@ == 0),
    {
        self.len == 0
    }

    /// Whether `index` names an occupied slot.
    pub fn contains(&self, index: u64) -> (r: bool)
        ensures
            r == (index < self@),
    {
        index < self.len
    }

    /// The index of the last slot, if there is one.
    pub fn last(&self) -> (r: Option<u64>)
        ensures
            self@ == 0 ==> r is None,
            self@ > 0 ==> r == Some((self@ - 1) as u64),
    {
        if self.len == 0 {
            None
        } else {
            Some(self.len - 1)
        }
    }

    /// Claims the slot just past the end: returns its index, and the length
    /// grows by one.
    pub fn push(&mut self) -> (index: u64)
        requires
            old(self)@ < u64::MAX,
        ensures
            index == old(self)@,
            final(self)@ == old(self)@ + 1,
    {
        let index = self.len;
        self.len = self.len + 1;
        index
    }

    /// Decides a write at `index`: an overwrite below the length, an append
    /// at the length (the length grows by one), an `IndexGap` error beyond
    /// it, where nothing changes.
    pub fn set_value(&mut self, index: u64) -> (r: Result<SlotWrite, StoreError>)
        requires
            index == old(self)@ ==> old(self)@ < u64::MAX,
        ensures
            index < old(self)@ ==> r == Ok::<SlotWrite, StoreError>(SlotWrite::Overwrite)
                && final(self)@ == old(self)@,
            index == old(self)@ ==> r == Ok::<SlotWrite, StoreError>(SlotWrite::Append)
                && final(self)@ == old(self)@ + 1,
            index > old(self)@ ==> r == Err::<SlotWrite, StoreError>(StoreError::IndexGap)
                && final(self)@ == old(self)@,
    {
        if index < self.len {
            Ok(SlotWrite::Overwrite)
        } else if index == self.len {
            self.len = self.len + 1;
            Ok(SlotWrite::Append)
        } else {
            Err(StoreError::IndexGap)
        }
    }
}

/// Growth law: for contents `s` whose length the record holds, pushing `v`
/// and writing `v` at index `len` give the same contents and the same
/// length; the new length is one more, and its last slot holds `v`.
pub proof fn lemma_push_is_set_at_len<V>(s: Seq<V>, v: V)
    ensures
        apply_write(s, s.len() as int, v, SlotWrite::Append) == s.push(v),
        s.push(v).len() == s.len() + 1,
        s.push(v)[s.len() as int] == v,
{
}

/// Side-file law: the record of a length reads back as that length, so
/// after a push from `n`, or a write at index `n`, the side file holds a
/// record that `from_record` reads as `n + 1`.
pub proof fn lemma_grown_record(n: u64)
    requires
        n < u64::MAX,
    ensures
        ({
            let b = len_bytes((n + 1) as u64);
            len_of_bytes(b[0], b[1], b[2], b[3], b[4], b[5], b[6], b[7]) == n + 1
        }),
{
    lemma_len_record_round_trip((n + 1) as u64);
}

/// An overwrite below the length keeps the length and puts `v` at `index`,
/// leaving the other slots as they were.
pub proof fn lemma_overwrite_keeps_len<V>(s: Seq<V>, index: int, v: V)
    requires
        0 <= index < s.len(),
    ensures
        apply_write(s, index, v, SlotWrite::Overwrite).len() == s.len(),
        apply_write(s, index, v, SlotWrite::Overwrite)[index] == v,
        forall|j: int|
            0 <= j < s.len() && j != index ==> #[trigger] apply_write(
                s,
                index,
                v,
                SlotWrite::Overwrite,
            )[j] == s[j],
{
}

} // verus!
