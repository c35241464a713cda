//! Hash values: byte strings written as unpadded URL-safe base64.

use vstd::prelude::*;
use crate::ext::{b64_decode, b64_encode, base64url_decode, base64url_encode, random_bytes, sha512, sha512_digest};

verus! {

/// A copy of a byte slice.
pub fn copy_bytes(b: &[u8]) -> (r: Vec<u8>)
    ensures
        r@ == b@,
{
    let mut r: Vec<u8> = Vec::new();
    let mut i: usize = 0;
    while i < b.len()
        invariant
            i <= b@.len(),
            r@ == b@.take(i as int),
        decreases b@.len() - i,
    {
        r.push(b[i]);
        proof {
            assert(r@ =~= b@.take(i + 1));
        }
        i = i + 1;
    }
    proof {
        assert(b@.take(b@.len() as int) =~= b@);
    }
    r
}

/// `b[lo..hi]` as a new vector.
pub fn slice_bytes(b: &[u8], lo: usize, hi: usize) -> (r: Vec<u8>)
    requires
        lo <= hi <= b@.len(),
    ensures
        r@ == b@.subrange(lo as int, hi as int),
{
    let mut r: Vec<u8> = Vec::new();
    let mut i: usize = lo;
    while i < hi
        invariant
            lo <= i <= hi <= b@.len(),
            r@ == b@.subrange(lo as int, i as int),
        decreases hi - i,
    {
        r.push(b[i]);
        proof {
            assert(r@ =~= b@.subrange(lo as int, i + 1));
        }
        i = i + 1;
    }
    r
}

/// True if two byte strings are equal.
pub fn bytes_eq(a: &[u8], b: &[u8]) -> (r: bool)
    ensures
        r == (a@ == b@),
{
    if a.len() != b.len() {
        return false;
    }
    let mut i: usize = 0;
    while i < a.len()
        invariant
            a@.len() == b@.len(),
            i <= a@.len(),
            forall|j: int| 0 <= j < i ==> a@[j] == b@[j],
        decreases a@.len() - i,
    {
        if a[i] != b[i] {
            return false;
        }
        i = i + 1;
    }
    proof {
        assert(a@ =~= b@);
    }
    true
}

/// A hash value.
#[derive(Debug)]
pub struct Hash(Vec<u8>);

impl View for Hash {
    type V = Seq<u8>;

    closed spec fn view(&self) -> Seq<u8> {
        self.0@
    }
}

impl Clone for Hash {
    fn clone(&self) -> (r: Self)
        ensures
            r@ == self@,
    {
        Hash(self.0.clone())
    }
}

impl Default for Hash {
    fn default() -> (r: Self)
        ensures
            r@ == Seq::<u8>::empty(),
    {
        Hash(Vec::new())
    }
}

impl Hash {
    /// A hash holding the given bytes.
    pub fn from_static(input: &[u8]) -> (h: Hash)
        ensures
            h@ == input@,
    {
        Hash(copy_bytes(input))
    }

    /// A hash holding the given bytes.
    pub fn from_vec(v: Vec<u8>) -> (h: Hash)
        ensures
            h@ == v@,
    {
        Hash(v)
    }

    /// The bytes of this hash.
    pub fn as_bytes(&self) -> (r: &[u8])
        ensures
            r@ == self@,
    {
        self.0.as_slice()
    }

    /// The number of bytes.
    pub fn len(&self) -> (n: usize)
        ensures
            n == self@.len(),
    {
        self.0.len()
    }

    /// True if the hash holds no bytes.
    pub fn is_empty(&self) -> (r: bool)
        ensures
            r == (self@.len() == 0),
    {
        self.0.len() == 0
    }

    /// `len` cryptographically random bytes.
    pub fn rand(len: usize) -> (h: Hash)
        ensures
            h@.len() == len,
    {
        Hash(random_bytes(len))
    }

    /// 24 random bytes.
    pub fn nonce() -> (h: Hash)
        ensures
            h@.len() == 24,
    {
        Hash::rand(24)
    }

    /// The SHA-512 hash of some bytes.
    pub fn sha2_512(input: &[u8]) -> (h: Hash)
        ensures
            h@ == sha512(input@),
            h@.len() == 64,
    {
        Hash(sha512_digest(input))
    }

    /// The first `len` bytes of this hash.
    pub fn truncated(&self, len: usize) -> (h: Hash)
        requires
            len <= self@.len(),
        ensures
            h@ == self@.take(len as int),
    {
        let r = slice_bytes(self.0.as_slice(), 0, len);
        proof {
            assert(self@.subrange(0, len as int) =~= self@.take(len as int));
        }
        Hash(r)
    }

    /// The base64url text of this hash; it parses back to this hash.
    pub fn to_string(&self) -> (s: String)
        ensures
            s@ == base64url_encode(self@),
            base64url_decode(s@) == Some(self@),
    {
        b64_encode(self.0.as_slice())
    }

    /// The hash that a base64url text denotes; `InvalidData` for text that
    /// is not base64url.
    pub fn parse(s: &str) -> (r: crate::Result<Hash>)
        ensures
            match base64url_decode(s@) {
                Some(b) => r matches Ok(h) && h@ == b,
                None => r matches Err(e) && e.kind == crate::ErrorKind::InvalidData,
            },
    {
        match b64_decode(s) {
            Some(v) => Ok(Hash(v)),
            None => Err(crate::Error::new(crate::ErrorKind::InvalidData, "invalid base64url")),
        }
    }
}

} // verus!
