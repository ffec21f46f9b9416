//! Byte strings: the plain value behind addresses, token identifiers,
//! 32-byte codes, storage keys and big unsigned amounts.
use vstd::prelude::*;

verus! {

/// A byte string. Addresses, token identifiers, referral codes, storage keys
/// and big-endian token amounts are all held as one.
#[derive(Clone, Debug, PartialEq, Eq)]
pub struct Bytes {
    pub data: Vec<u8>,
}

impl View for Bytes {
    type V = Seq<u8>;

    open spec fn view(&self) -> Seq<u8> {
        self.data@
    }
}

/// A value that can be copied out of a store with its view kept.
pub trait Stored: View + Sized {
    fn dup(&self) -> (r: Self)
        ensures
            r@ == self@,
    ;
}

/// A value that can serve as a key: equality is decided on the view.
pub trait KeyEq: Stored {
    fn key_eq(&self, other: &Self) -> (r: bool)
        ensures
            r == (self@ == other@),
    ;
}

impl Bytes {
    /// Builds a byte string holding a copy of `s`.
    pub fn from_slice(s: &[u8]) -> (r: Bytes)
        ensures
            r@ == s@,
    {
        let mut data: Vec<u8> = Vec::new();
        let n = s.len();
        for i in 0..n
            invariant
                n == s@.len(),
                data@ == s@.subrange(0, i as int),
        {
            data.push(s[i]);
            assert(data@ =~= s@.subrange(0, i + 1));
        }
        assert(data@ =~= s@);
        Bytes { data }
    }

    /// Number of bytes.
    pub fn len(&self) -> (r: usize)
        ensures
            r == self@.len(),
    {
        self.data.len()
    }
}

impl Stored for Bytes {
    fn dup(&self) -> (r: Bytes) {
        Bytes::from_slice(self.data.as_slice())
    }
}

impl KeyEq for Bytes {
    fn key_eq(&self, other: &Bytes) -> (r: bool) {
        let n = self.data.len();
        if n != other.data.len() {
            return false;
        }
        for i in 0..n
            invariant
                n == self@.len(),
                n == other@.len(),
                forall|j: int| 0 <= j < i ==> self@[j] == other@[j],
        {
            if self.data[i] != other.data[i] {
                return false;
            }
        }
        assert(self@ =~= other@);
        true
    }
}

impl Stored for u64 {
    fn dup(&self) -> (r: u64) {
        *self
    }
}

impl KeyEq for u64 {
    fn key_eq(&self, other: &u64) -> (r: bool) {
        *self == *other
    }
}

impl Stored for u32 {
    fn dup(&self) -> (r: u32) {
        *self
    }
}

impl KeyEq for u32 {
    fn key_eq(&self, other: &u32) -> (r: bool) {
        *self == *other
    }
}

} // verus!
