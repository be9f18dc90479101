//! The write-back guard: a value taken out of a collection for mutation,
//! which goes back under its key when the guard is handed in.
use vstd::prelude::*;

verus! {

/// A key (or slot index) together with a copy of its value, taken out for
/// mutation. It is to be committed once, by `Mapi::write_back` or
/// `clone_inner`; committing consumes it, so no guard commits twice.
pub struct ValueMut {
    key: u64,
    value: Vec<u8>,
}

impl ValueMut {
    pub closed spec fn key(&self) -> u64 {
        self.key
    }

    pub closed spec fn value(&self) -> Seq<u8> {
        self.value@
    }

    pub fn new(key: u64, value: Vec<u8>) -> (r: Self)
        ensures
            r.key() == key,
            r.value() == value@,
    {
        ValueMut { key, value }
    }

    pub fn key_of(&self) -> (r: u64)
        ensures
            r == self.key(),
    {
        self.key
    }

    /// Read access to the held value.
    pub fn get(&self) -> (r: &Vec<u8>)
        ensures
            r@ == self.value(),
    {
        &self.value
    }

    /// Replaces the held value; the key stays.
    pub fn set(&mut self, value: Vec<u8>)
        ensures
            final(self).key() == old(self).key(),
            final(self).value() == value@,
    {
        self.value = value;
    }

    /// Gives up the guard: its key and its value, moved out, for the one
    /// write-back.
    pub fn into_parts(self) -> (r: (u64, Vec<u8>))
        ensures
            r.0 == self.key(),
            r.1@ == self.value(),
    {
        (self.key, self.value)
    }
}

/// A key of a collection, whose value may or may not be there yet.
pub struct Entry {
    key: u64,
}

impl Entry {
    pub closed spec fn key(&self) -> u64 {
        self.key
    }

    pub fn new(key: u64) -> (r: Self)
        ensures
            r.key() == key,
    {
        Entry { key }
    }

    pub fn key_of(&self) -> (r: u64)
        ensures
            r == self.key(),
    {
        self.key
    }

    /// Settles an insert-if-absent, given the value that the key holds now:
    /// where it holds none, `default` is the value to write; either way the
    /// guard holds the key's value after that write.
    pub fn settle(self, current: Option<Vec<u8>>, default: Vec<u8>) -> (r: (
        Option<Vec<u8>>,
        ValueMut,
    ))
        ensures
            current is Some ==> r.0 is None && r.1.value() == current->Some_0@,
            current is None ==> r.0 is Some && r.0->Some_0@ == default@ && r.1.value()
                == default@,
            r.1.key() == self.key(),
    {
        match current {
            Some(v) => (None, ValueMut::new(self.key, v)),
            None => {
                let c = default.clone();
                assert(c@ =~= default@);
                (Some(default), ValueMut::new(self.key, c))
            },
        }
    }

    /// As `settle`, with the default made by `make`, which is called only
    /// where the key holds no value.
    pub fn settle_with<F: FnOnce() -> Vec<u8>>(self, current: Option<Vec<u8>>, make: F) -> (r: (
        Option<Vec<u8>>,
        ValueMut,
    ))
        requires
            current is None ==> make.requires(()),
        ensures
            current is Some ==> r.0 is None && r.1.value() == current->Some_0@,
            current is None ==> r.0 is Some && make.ensures((), r.0->Some_0) && r.1.value()
                == r.0->Some_0@,
            r.1.key() == self.key(),
    {
        match current {
            Some(v) => (None, ValueMut::new(self.key, v)),
            None => {
                let d = make();
                let c = d.clone();
                assert(c@ =~= d@);
                (Some(d), ValueMut::new(self.key, c))
            },
        }
    }
}

/// Write-back law: committing a guard's value makes a fresh lookup of its
/// key see that value, and leaves every other key as it was; committing the
/// value that was read leaves the map unchanged.
pub proof fn lemma_write_back<V>(m: Map<u64, V>, k: u64, v: V)
    ensures
        m.insert(k, v).contains_key(k),
        m.insert(k, v)[k] == v,
        forall|j: u64| j != k ==> #[trigger] m.insert(k, v).contains_key(j) == m.contains_key(j),
        forall|j: u64| j != k && m.contains_key(j) ==> #[trigger] m.insert(k, v)[j] == m[j],
        m.contains_key(k) && m[k] == v ==> m.insert(k, v) == m,
{
    if m.contains_key(k) && m[k] == v {
        assert(m.insert(k, v) =~= m);
    }
}

} // verus!
