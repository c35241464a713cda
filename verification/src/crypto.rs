//! Cryptographic signing of prehashed data, and the registry of signing
//! algorithms.

use vstd::prelude::*;
use std::sync::Arc;
use crate::error::{Error, ErrorKind, Result};
use crate::ext::share;
use crate::ext::{
    p256_generate, p256_public, p256_sign_hash, p256_sign_prehash, p256_verify_hash,
    p256_verify_prehash,
};
use crate::text::str_eq;

verus! {

/// Signing secret material.
pub struct CryptoSignSecret(Vec<u8>);

impl View for CryptoSignSecret {
    type V = Seq<u8>;

    closed spec fn view(&self) -> Seq<u8> {
        self.0@
    }
}

impl Clone for CryptoSignSecret {
    fn clone(&self) -> (r: Self)
        ensures
            r@ == self@,
    {
        CryptoSignSecret(self.0.clone())
    }
}

impl From<Vec<u8>> for CryptoSignSecret {
    fn from(f: Vec<u8>) -> (r: Self) {
        CryptoSignSecret(f)
    }
}

impl vstd::std_specs::convert::FromSpecImpl<Vec<u8>> for CryptoSignSecret {
    open spec fn obeys_from_spec() -> bool {
        true
    }

    closed spec fn from_spec(v: Vec<u8>) -> Self {
        CryptoSignSecret(v)
    }
}

impl CryptoSignSecret {
    /// Secret material holding these bytes.
    pub fn new(v: Vec<u8>) -> (r: Self)
        ensures
            r@ == v@,
    {
        CryptoSignSecret(v)
    }

    /// The secret bytes.
    pub fn as_bytes(&self) -> (r: &[u8])
        ensures
            r@ == self@,
    {
        self.0.as_slice()
    }
}

/// Cryptographic signatures over 512-bit prehashed data, one algorithm per
/// implementation.
pub trait CryptoSign {
    /// The algorithm identifier.
    spec fn alg_name(&self) -> Seq<char>;

    /// `pk` is the public key that belongs to the secret `sk`.
    spec fn key_pair(&self, pk: Seq<u8>, sk: Seq<u8>) -> bool;

    /// `sig` is the signature that `sk` makes over `hash`.
    spec fn signs(&self, sk: Seq<u8>, hash: Seq<u8>, sig: Seq<u8>) -> bool;

    /// `sig` over `hash` checks against the public key `pk`.
    spec fn accepts(&self, pk: Seq<u8>, sig: Seq<u8>, hash: Seq<u8>) -> bool;

    /// Generating a key pair cannot fail.
    spec fn generates(&self) -> bool;

    /// Signing `hash` with the secret `sk` succeeds.
    spec fn signs_ok(&self, sk: Seq<u8>, hash: Seq<u8>) -> bool;

    /// Algorithm identifier.
    fn alg(&self) -> (r: &'static str)
        ensures
            r@ == self.alg_name();

    /// Generates a new signing keypair: the public key and the secret.
    fn generate(&self) -> (r: Result<(crate::hash::Hash, CryptoSignSecret)>)
        ensures
            self.generates() ==> r is Ok,
            r matches Ok((pk, sk)) ==> self.key_pair(pk@, sk@);

    /// Signs prehashed data; the data must be a 512-bit hash. The
    /// signature checks against the public key of the secret.
    fn sign_prehashed_512_bits(&self, sk: &CryptoSignSecret, hash: &[u8]) -> (r: Result<
        crate::hash::Hash,
    >)
        ensures
            hash@.len() != 64 ==> r is Err,
            r is Ok <==> self.signs_ok(sk@, hash@),
            r matches Ok(sig) ==> self.signs(sk@, hash@, sig@),
            r matches Ok(sig) ==> forall|pk: Seq<u8>|
                #[trigger] self.key_pair(pk, sk@) ==> self.accepts(pk, sig@, hash@);

    /// Verifies prehashed data; the data must be a 512-bit hash.
    fn verify_prehashed_512_bits(
        &self,
        pk: &crate::hash::Hash,
        signature: &crate::hash::Hash,
        hash: &[u8],
    ) -> (r: Result<()>)
        ensures
            r is Ok <==> (hash@.len() == 64 && self.accepts(pk@, signature@, hash@));
}

/// A shared signing algorithm, of any implementation.
pub struct DynCryptoSign(pub Arc<Box<dyn CryptoSign>>);

impl Clone for DynCryptoSign {
    fn clone(&self) -> (r: Self)
        ensures
            r == *self,
    {
        DynCryptoSign(share(&self.0))
    }
}

impl DynCryptoSign {
    /// The algorithm identifier.
    pub open spec fn alg_name(&self) -> Seq<char> {
        self.0.alg_name()
    }

    /// `pk` is the public key that belongs to the secret `sk`.
    pub open spec fn key_pair(&self, pk: Seq<u8>, sk: Seq<u8>) -> bool {
        self.0.key_pair(pk, sk)
    }

    /// `sig` is the signature that `sk` makes over `hash`.
    pub open spec fn signs(&self, sk: Seq<u8>, hash: Seq<u8>, sig: Seq<u8>) -> bool {
        self.0.signs(sk, hash, sig)
    }

    /// `sig` over `hash` checks against the public key `pk`.
    pub open spec fn accepts(&self, pk: Seq<u8>, sig: Seq<u8>, hash: Seq<u8>) -> bool {
        self.0.accepts(pk, sig, hash)
    }

    /// Generating a key pair cannot fail.
    pub open spec fn generates(&self) -> bool {
        self.0.generates()
    }

    /// Signing `hash` with the secret `sk` succeeds.
    pub open spec fn signs_ok(&self, sk: Seq<u8>, hash: Seq<u8>) -> bool {
        self.0.signs_ok(sk, hash)
    }

    /// Algorithm identifier.
    pub fn alg(&self) -> (r: &'static str)
        ensures
            r@ == self.alg_name(),
    {
        self.0.alg()
    }

    /// Generates a new signing keypair: the public key and the secret.
    pub fn generate(&self) -> (r: Result<(crate::hash::Hash, CryptoSignSecret)>)
        ensures
            self.generates() ==> r is Ok,
            r matches Ok((pk, sk)) ==> self.key_pair(pk@, sk@),
    {
        self.0.generate()
    }

    /// Signs prehashed data; the data must be a 512-bit hash. The
    /// signature checks against the public key of the secret.
    pub fn sign_prehashed_512_bits(&self, sk: &CryptoSignSecret, hash: &[u8]) -> (r: Result<
        crate::hash::Hash,
    >)
        ensures
            hash@.len() != 64 ==> r is Err,
            r is Ok <==> self.signs_ok(sk@, hash@),
            r matches Ok(sig) ==> self.signs(sk@, hash@, sig@),
            r matches Ok(sig) ==> forall|pk: Seq<u8>|
                #[trigger] self.key_pair(pk, sk@) ==> self.accepts(pk, sig@, hash@),
    {
        self.0.sign_prehashed_512_bits(sk, hash)
    }

    /// Verifies prehashed data; the data must be a 512-bit hash.
    pub fn verify_prehashed_512_bits(
        &self,
        pk: &crate::hash::Hash,
        signature: &crate::hash::Hash,
        hash: &[u8],
    ) -> (r: Result<()>)
        ensures
            r is Ok <==> (hash@.len() == 64 && self.accepts(pk@, signature@, hash@)),
    {
        self.0.verify_prehashed_512_bits(pk, signature, hash)
    }
}

/// Signing module implementing the p256 algorithm.
#[derive(Debug)]
pub struct CryptoSignP256;

impl CryptoSignP256 {
    /// Constructs a new [CryptoSignP256] instance; this never fails.
    pub fn new() -> (r: Result<Self>)
        ensures
            r is Ok,
    {
        Ok(CryptoSignP256)
    }
}

impl CryptoSign for CryptoSignP256 {
    open spec fn alg_name(&self) -> Seq<char> {
        "p256"@
    }

    open spec fn key_pair(&self, pk: Seq<u8>, sk: Seq<u8>) -> bool {
        p256_public(sk) == Some(pk)
    }

    open spec fn signs(&self, sk: Seq<u8>, hash: Seq<u8>, sig: Seq<u8>) -> bool {
        hash.len() == 64 && p256_sign_prehash(sk, hash) == Some(sig)
    }

    open spec fn accepts(&self, pk: Seq<u8>, sig: Seq<u8>, hash: Seq<u8>) -> bool {
        p256_verify_prehash(pk, sig, hash)
    }

    open spec fn generates(&self) -> bool {
        true
    }

    open spec fn signs_ok(&self, sk: Seq<u8>, hash: Seq<u8>) -> bool {
        hash.len() == 64 && p256_sign_prehash(sk, hash) is Some
    }

    fn alg(&self) -> (r: &'static str) {
        "p256"
    }

    /// A fresh key pair: a 32-byte secret scalar and its 33-byte compressed
    /// public key; this never fails.
    fn generate(&self) -> (r: Result<(crate::hash::Hash, CryptoSignSecret)>)
        ensures
            r matches Ok((pk, sk)) && sk@.len() == 32 && pk@.len() == 33,
    {
        let (secret, public) = p256_generate();
        Ok((crate::hash::Hash::from_vec(public), CryptoSignSecret::new(secret)))
    }

    /// The signature is the one the secret makes over the hash; it checks
    /// against the public key of the secret.
    fn sign_prehashed_512_bits(&self, sk: &CryptoSignSecret, hash: &[u8]) -> (r: Result<
        crate::hash::Hash,
    >)
        ensures
            hash@.len() != 64 ==> (r matches Err(e) && e.kind == ErrorKind::Other),
            hash@.len() == 64 ==> match p256_sign_prehash(sk@, hash@) {
                Some(s) => r matches Ok(sig) && sig@ == s,
                None => r matches Err(e) && e.kind == ErrorKind::Other,
            },
            r matches Ok(sig) ==> (p256_public(sk@) matches Some(pk) && p256_verify_prehash(
                pk,
                sig@,
                hash@,
            )),
    {
        if hash.len() != 64 {
            return Err(Error::other("to sign was not a 512 bit hash"));
        }
        match p256_sign_hash(sk.as_bytes(), hash) {
            Some(sig) => Ok(crate::hash::Hash::from_vec(sig)),
            None => Err(Error::other("p256 signing failed")),
        }
    }

    /// Every refusal is of kind `Other`.
    fn verify_prehashed_512_bits(
        &self,
        pk: &crate::hash::Hash,
        signature: &crate::hash::Hash,
        hash: &[u8],
    ) -> (r: Result<()>)
        ensures
            r matches Err(e) ==> e.kind == ErrorKind::Other,
    {
        if hash.len() != 64 {
            return Err(Error::other("to verify was not a 512 bit hash"));
        }
        if p256_verify_hash(pk.as_bytes(), signature.as_bytes(), hash) {
            Ok(())
        } else {
            Err(Error::other("p256 signature verification failed"))
        }
    }
}

} // verus!
