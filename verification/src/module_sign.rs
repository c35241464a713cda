//! Signing key and signature types.
//!
//! A sign type is `<alg: 3 bytes><type: 3 bytes><material>`; written as
//! base64url the first four characters name the algorithm and the next four
//! the type (`pub-`, `sec-` or `sig-`).

use vstd::prelude::*;
use crate::error::{Error, ErrorKind, Result};
use crate::ext::{b64_decode, b64_encode, base64url_decode, base64url_encode};
use crate::hash::{bytes_eq, copy_bytes, slice_bytes};

verus! {

/// Type bytes of a public key (`pub-` in base64url).
pub open spec fn b_pub() -> Seq<u8> { seq![166u8, 230u8, 254u8] }

/// Type bytes of a secret key (`sec-` in base64url).
pub open spec fn b_sec() -> Seq<u8> { seq![177u8, 231u8, 62u8] }

/// Type bytes of a signature (`sig-` in base64url).
pub open spec fn b_sig() -> Seq<u8> { seq![178u8, 40u8, 62u8] }

/// The type bytes of a public key.
pub fn b_pub_bytes() -> (r: Vec<u8>)
    ensures
        r@ == b_pub(),
{
    let r = vec![166u8, 230u8, 254u8];
    proof {
        assert(r@ =~= b_pub());
    }
    r
}

/// The type bytes of a secret key.
pub fn b_sec_bytes() -> (r: Vec<u8>)
    ensures
        r@ == b_sec(),
{
    let r = vec![177u8, 231u8, 62u8];
    proof {
        assert(r@ =~= b_sec());
    }
    r
}

/// The type bytes of a signature.
pub fn b_sig_bytes() -> (r: Vec<u8>)
    ensures
        r@ == b_sig(),
{
    let r = vec![178u8, 40u8, 62u8];
    proof {
        assert(r@ =~= b_sig());
    }
    r
}

/// The algorithm bytes of a sign type.
pub open spec fn alg_bytes(b: Seq<u8>) -> Seq<u8> {
    b.subrange(0, 3)
}

/// The type bytes of a sign type.
pub open spec fn typ_bytes(b: Seq<u8>) -> Seq<u8> {
    b.subrange(3, 6)
}

/// The key or signature material of a sign type.
pub open spec fn material_bytes(b: Seq<u8>) -> Seq<u8> {
    b.subrange(6, b.len() as int)
}

/// A base sign type.
#[derive(Debug)]
pub struct SignType(Vec<u8>);

impl View for SignType {
    type V = Seq<u8>;

    closed spec fn view(&self) -> Seq<u8> {
        self.0@
    }
}

impl Clone for SignType {
    fn clone(&self) -> (r: Self)
        ensures
            r@ == self@,
    {
        SignType(self.0.clone())
    }
}

impl SignType {
    /// A sign type holding these bytes.
    pub fn from_vec(v: Vec<u8>) -> (r: SignType)
        ensures
            r@ == v@,
    {
        SignType(v)
    }

    /// All bytes of this sign type.
    pub fn as_bytes(&self) -> (r: &[u8])
        ensures
            r@ == self@,
    {
        self.0.as_slice()
    }

    /// Concatenates algorithm, type and material.
    pub fn from_parts(alg: &[u8], type_: &[u8], material: &[u8]) -> (r: SignType)
        ensures
            r@ == alg@ + type_@ + material@,
    {
        let mut out = copy_bytes(alg);
        let mut t = copy_bytes(type_);
        let mut m = copy_bytes(material);
        out.append(&mut t);
        out.append(&mut m);
        SignType(out)
    }

    /// The algorithm name: the base64url text of the first three bytes.
    pub fn alg(&self) -> (r: String)
        requires
            self@.len() >= 3,
        ensures
            r@ == base64url_encode(alg_bytes(self@)),
    {
        let a = slice_bytes(self.0.as_slice(), 0, 3);
        b64_encode(a.as_slice())
    }

    /// The type bytes.
    pub fn typ(&self) -> (r: Vec<u8>)
        requires
            self@.len() >= 6,
        ensures
            r@ == typ_bytes(self@),
    {
        slice_bytes(self.0.as_slice(), 3, 6)
    }

    /// The material bytes.
    pub fn material(&self) -> (r: Vec<u8>)
        requires
            self@.len() >= 6,
        ensures
            r@ == material_bytes(self@),
    {
        slice_bytes(self.0.as_slice(), 6, self.0.len())
    }

    /// True if this is a public key.
    pub fn is_public(&self) -> (r: bool)
        requires
            self@.len() >= 6,
        ensures
            r == (typ_bytes(self@) == b_pub()),
    {
        bytes_eq(self.typ().as_slice(), b_pub_bytes().as_slice())
    }

    /// This as a public key, if it is one.
    pub fn to_public(&self) -> (r: Option<SignPublicKey>)
        requires
            self@.len() >= 6,
        ensures
            r is Some <==> typ_bytes(self@) == b_pub(),
            r matches Some(k) ==> k@ == self@,
    {
        if self.is_public() {
            Some(SignPublicKey(self.clone()))
        } else {
            None
        }
    }

    /// True if this is a secret key.
    pub fn is_secret(&self) -> (r: bool)
        requires
            self@.len() >= 6,
        ensures
            r == (typ_bytes(self@) == b_sec()),
    {
        bytes_eq(self.typ().as_slice(), b_sec_bytes().as_slice())
    }

    /// This as a secret key, if it is one.
    pub fn to_secret(&self) -> (r: Option<SignSecretKey>)
        requires
            self@.len() >= 6,
        ensures
            r is Some <==> typ_bytes(self@) == b_sec(),
            r matches Some(k) ==> k@ == self@,
    {
        if self.is_secret() {
            Some(SignSecretKey(self.clone()))
        } else {
            None
        }
    }

    /// True if this is a signature.
    pub fn is_signature(&self) -> (r: bool)
        requires
            self@.len() >= 6,
        ensures
            r == (typ_bytes(self@) == b_sig()),
    {
        bytes_eq(self.typ().as_slice(), b_sig_bytes().as_slice())
    }

    /// This as a signature, if it is one.
    pub fn to_signature(&self) -> (r: Option<Signature>)
        requires
            self@.len() >= 6,
        ensures
            r is Some <==> typ_bytes(self@) == b_sig(),
            r matches Some(k) ==> k@ == self@,
    {
        if self.is_signature() {
            Some(Signature(self.clone()))
        } else {
            None
        }
    }

    /// The base64url text of all bytes.
    pub fn to_string(&self) -> (s: String)
        ensures
            s@ == base64url_encode(self@),
            base64url_decode(s@) == Some(self@),
    {
        b64_encode(self.0.as_slice())
    }

    /// The text a secret key is shown with: the first six bytes in
    /// base64url followed by `<secret>`; other types show all bytes.
    pub fn debug_text(&self) -> (s: String)
        requires
            self@.len() >= 6,
        ensures
            typ_bytes(self@) == b_sec() ==> s@ == base64url_encode(self@.subrange(0, 6)) + "<secret>"@,
            typ_bytes(self@) != b_sec() ==> s@ == base64url_encode(self@),
    {
        if self.is_secret() {
            let head = slice_bytes(self.0.as_slice(), 0, 6);
            let t = b64_encode(head.as_slice());
            crate::text::concat(t.as_str(), "<secret>")
        } else {
            b64_encode(self.0.as_slice())
        }
    }

    /// The sign type that a base64url text denotes.
    pub fn parse(s: &str) -> (r: Result<SignType>)
        ensures
            match base64url_decode(s@) {
                Some(b) => r matches Ok(t) && t@ == b,
                None => r matches Err(e) && e.kind == ErrorKind::InvalidData,
            },
    {
        match b64_decode(s) {
            Some(v) => Ok(SignType(v)),
            None => Err(Error::new(ErrorKind::InvalidData, "invalid base64url")),
        }
    }
}

/// `s` is not base64url, or decodes to at least six bytes.
pub open spec fn sign_text_ok(s: Seq<char>) -> bool {
    base64url_decode(s) matches Some(b) ==> b.len() >= 6
}

/// What parsing a key or signature of type `typ` from text gives:
/// invalid base64url is `InvalidData`, a different type is `Other`.
pub open spec fn parse_typed_ok(s: Seq<char>, typ: Seq<u8>, r: Result<Seq<u8>>) -> bool {
    match base64url_decode(s) {
        None => r matches Err(e) && e.kind == ErrorKind::InvalidData,
        Some(b) => if typ_bytes(b) == typ {
            r == Ok::<Seq<u8>, Error>(b)
        } else {
            r matches Err(e) && e.kind == ErrorKind::Other
        },
    }
}

/// Parses a sign type and checks its type bytes.
fn parse_typed(s: &str, typ: &[u8]) -> (r: Result<SignType>)
    requires
        sign_text_ok(s@),
    ensures
        match base64url_decode(s@) {
            None => r matches Err(e) && e.kind == ErrorKind::InvalidData,
            Some(b) => if typ_bytes(b) == typ@ {
                r matches Ok(t) && t@ == b
            } else {
                r matches Err(e) && e.kind == ErrorKind::Other
            },
        },
{
    let out = match SignType::parse(s) {
        Ok(t) => t,
        Err(e) => return Err(e),
    };
    if !bytes_eq(out.typ().as_slice(), typ) {
        return Err(Error::other("invalid sign typ"));
    }
    Ok(out)
}

/// Like [parse_typed], but text that decodes to fewer than six bytes (too
/// short to hold an algorithm and a type) is refused with `InvalidData`.
fn try_parse_typed(s: &str, typ: &[u8]) -> (r: Result<SignType>)
    ensures
        match base64url_decode(s@) {
            None => r matches Err(e) && e.kind == ErrorKind::InvalidData,
            Some(b) => if b.len() < 6 {
                r matches Err(e) && e.kind == ErrorKind::InvalidData
            } else if typ_bytes(b) == typ@ {
                r matches Ok(t) && t@ == b
            } else {
                r matches Err(e) && e.kind == ErrorKind::Other
            },
        },
{
    match b64_decode(s) {
        None => Err(Error::new(ErrorKind::InvalidData, "invalid base64url")),
        Some(v) => {
            if v.len() < 6 {
                Err(Error::new(ErrorKind::InvalidData, "sign type too short"))
            } else {
                parse_typed(s, typ)
            }
        },
    }
}

/// Signing public key.
#[derive(Debug)]
pub struct SignPublicKey(SignType);

/// Signing secret key.
#[derive(Debug)]
pub struct SignSecretKey(SignType);

/// Signing signature.
#[derive(Debug)]
pub struct Signature(SignType);

impl View for SignPublicKey {
    type V = Seq<u8>;

    closed spec fn view(&self) -> Seq<u8> {
        self.0@
    }
}

impl View for SignSecretKey {
    type V = Seq<u8>;

    closed spec fn view(&self) -> Seq<u8> {
        self.0@
    }
}

impl View for Signature {
    type V = Seq<u8>;

    closed spec fn view(&self) -> Seq<u8> {
        self.0@
    }
}

impl Clone for SignPublicKey {
    fn clone(&self) -> (r: Self)
        ensures
            r@ == self@,
    {
        SignPublicKey(self.0.clone())
    }
}

impl Clone for SignSecretKey {
    fn clone(&self) -> (r: Self)
        ensures
            r@ == self@,
    {
        SignSecretKey(self.0.clone())
    }
}

impl Clone for Signature {
    fn clone(&self) -> (r: Self)
        ensures
            r@ == self@,
    {
        Signature(self.0.clone())
    }
}

impl SignPublicKey {
    /// The sign type underneath.
    pub fn as_sign_type(&self) -> (r: &SignType)
        ensures
            r@ == self@,
    {
        &self.0
    }

    /// A public key of an algorithm from its material.
    pub fn from_parts(alg: &[u8], material: &[u8]) -> (r: Self)
        ensures
            r@ == alg@ + b_pub() + material@,
    {
        SignPublicKey(SignType::from_parts(alg, b_pub_bytes().as_slice(), material))
    }

    /// The algorithm name.
    pub fn alg(&self) -> (r: String)
        requires
            self@.len() >= 3,
        ensures
            r@ == base64url_encode(alg_bytes(self@)),
    {
        self.0.alg()
    }

    /// The key material.
    pub fn material(&self) -> (r: Vec<u8>)
        requires
            self@.len() >= 6,
        ensures
            r@ == material_bytes(self@),
    {
        self.0.material()
    }

    /// The base64url text of the key.
    pub fn to_string(&self) -> (s: String)
        ensures
            s@ == base64url_encode(self@),
            base64url_decode(s@) == Some(self@),
    {
        self.0.to_string()
    }

    /// Parses a public key; `Other` when the text holds another type.
    pub fn parse(s: &str) -> (r: Result<Self>)
        requires
            sign_text_ok(s@),
        ensures
            parse_typed_ok(s@, b_pub(), match r { Ok(k) => Ok(k@), Err(e) => Err(e) }),
    {
        match parse_typed(s, b_pub_bytes().as_slice()) {
            Ok(t) => Ok(SignPublicKey(t)),
            Err(e) => Err(e),
        }
    }

    /// Parses a public key; text too short to hold a type is refused.
    pub fn try_parse(s: &str) -> (r: Result<Self>)
        ensures
            (base64url_decode(s@) matches Some(b) && b.len() < 6) ==> (r matches Err(e) && e.kind == ErrorKind::InvalidData),
            sign_text_ok(s@) ==> parse_typed_ok(s@, b_pub(), match r { Ok(k) => Ok(k@), Err(e) => Err(e) }),
    {
        match try_parse_typed(s, b_pub_bytes().as_slice()) {
            Ok(t) => Ok(SignPublicKey(t)),
            Err(e) => Err(e),
        }
    }
}

impl SignSecretKey {
    /// The sign type underneath.
    pub fn as_sign_type(&self) -> (r: &SignType)
        ensures
            r@ == self@,
    {
        &self.0
    }

    /// A secret key of an algorithm from its material.
    pub fn from_parts(alg: &[u8], material: &[u8]) -> (r: Self)
        ensures
            r@ == alg@ + b_sec() + material@,
    {
        SignSecretKey(SignType::from_parts(alg, b_sec_bytes().as_slice(), material))
    }

    /// The algorithm name.
    pub fn alg(&self) -> (r: String)
        requires
            self@.len() >= 3,
        ensures
            r@ == base64url_encode(alg_bytes(self@)),
    {
        self.0.alg()
    }

    /// The key material.
    pub fn material(&self) -> (r: Vec<u8>)
        requires
            self@.len() >= 6,
        ensures
            r@ == material_bytes(self@),
    {
        self.0.material()
    }

    /// The base64url text of the key.
    pub fn to_string(&self) -> (s: String)
        ensures
            s@ == base64url_encode(self@),
            base64url_decode(s@) == Some(self@),
    {
        self.0.to_string()
    }

    /// Parses a secret key; `Other` when the text holds another type.
    pub fn parse(s: &str) -> (r: Result<Self>)
        requires
            sign_text_ok(s@),
        ensures
            parse_typed_ok(s@, b_sec(), match r { Ok(k) => Ok(k@), Err(e) => Err(e) }),
    {
        match parse_typed(s, b_sec_bytes().as_slice()) {
            Ok(t) => Ok(SignSecretKey(t)),
            Err(e) => Err(e),
        }
    }

    /// Parses a secret key; text too short to hold a type is refused.
    pub fn try_parse(s: &str) -> (r: Result<Self>)
        ensures
            (base64url_decode(s@) matches Some(b) && b.len() < 6) ==> (r matches Err(e) && e.kind == ErrorKind::InvalidData),
            sign_text_ok(s@) ==> parse_typed_ok(s@, b_sec(), match r { Ok(k) => Ok(k@), Err(e) => Err(e) }),
    {
        match try_parse_typed(s, b_sec_bytes().as_slice()) {
            Ok(t) => Ok(SignSecretKey(t)),
            Err(e) => Err(e),
        }
    }
}

impl Signature {
    /// The sign type underneath.
    pub fn as_sign_type(&self) -> (r: &SignType)
        ensures
            r@ == self@,
    {
        &self.0
    }

    /// A signature of an algorithm from its material.
    pub fn from_parts(alg: &[u8], material: &[u8]) -> (r: Self)
        ensures
            r@ == alg@ + b_sig() + material@,
    {
        Signature(SignType::from_parts(alg, b_sig_bytes().as_slice(), material))
    }

    /// The algorithm name.
    pub fn alg(&self) -> (r: String)
        requires
            self@.len() >= 3,
        ensures
            r@ == base64url_encode(alg_bytes(self@)),
    {
        self.0.alg()
    }

    /// The signature material.
    pub fn material(&self) -> (r: Vec<u8>)
        requires
            self@.len() >= 6,
        ensures
            r@ == material_bytes(self@),
    {
        self.0.material()
    }

    /// The base64url text of the signature.
    pub fn to_string(&self) -> (s: String)
        ensures
            s@ == base64url_encode(self@),
            base64url_decode(s@) == Some(self@),
    {
        self.0.to_string()
    }

    /// Parses a signature; `Other` when the text holds another type.
    pub fn parse(s: &str) -> (r: Result<Self>)
        requires
            sign_text_ok(s@),
        ensures
            parse_typed_ok(s@, b_sig(), match r { Ok(k) => Ok(k@), Err(e) => Err(e) }),
    {
        match parse_typed(s, b_sig_bytes().as_slice()) {
            Ok(t) => Ok(Signature(t)),
            Err(e) => Err(e),
        }
    }

    /// Parses a signature; text too short to hold a type is refused.
    pub fn try_parse(s: &str) -> (r: Result<Self>)
        ensures
            (base64url_decode(s@) matches Some(b) && b.len() < 6) ==> (r matches Err(e) && e.kind == ErrorKind::InvalidData),
            sign_text_ok(s@) ==> parse_typed_ok(s@, b_sig(), match r { Ok(k) => Ok(k@), Err(e) => Err(e) }),
    {
        match try_parse_typed(s, b_sig_bytes().as_slice()) {
            Ok(t) => Ok(Signature(t)),
            Err(e) => Err(e),
        }
    }
}

impl std::str::FromStr for SignPublicKey {
    type Err = Error;

    fn from_str(s: &str) -> (r: Result<Self>)
        ensures
            (base64url_decode(s@) matches Some(b) && b.len() < 6) ==> (r matches Err(e) && e.kind == ErrorKind::InvalidData),
            sign_text_ok(s@) ==> parse_typed_ok(s@, b_pub(), match r { Ok(k) => Ok(k@), Err(e) => Err(e) }),
    {
        SignPublicKey::try_parse(s)
    }
}

impl std::str::FromStr for SignSecretKey {
    type Err = Error;

    fn from_str(s: &str) -> (r: Result<Self>)
        ensures
            (base64url_decode(s@) matches Some(b) && b.len() < 6) ==> (r matches Err(e) && e.kind == ErrorKind::InvalidData),
            sign_text_ok(s@) ==> parse_typed_ok(s@, b_sec(), match r { Ok(k) => Ok(k@), Err(e) => Err(e) }),
    {
        SignSecretKey::try_parse(s)
    }
}

impl std::str::FromStr for Signature {
    type Err = Error;

    fn from_str(s: &str) -> (r: Result<Self>)
        ensures
            (base64url_decode(s@) matches Some(b) && b.len() < 6) ==> (r matches Err(e) && e.kind == ErrorKind::InvalidData),
            sign_text_ok(s@) ==> parse_typed_ok(s@, b_sig(), match r { Ok(k) => Ok(k@), Err(e) => Err(e) }),
    {
        Signature::try_parse(s)
    }
}

/// A cryptographic signature over encoded data: the signing public key and
/// the signature.
#[derive(Debug)]
pub struct VmSignature {
    /// The signing public key.
    pub pk: SignPublicKey,
    /// The signature itself.
    pub sig: Signature,
}

/// A cryptographic signature module, implemented by each algorithm.
pub trait ModuleSign {
    /// The secret material is valid for this algorithm.
    spec fn secret_ok(&self, secret: Seq<u8>) -> bool;

    /// Signing `data` with the secret material succeeds.
    spec fn sign_ok(&self, secret: Seq<u8>, data: Seq<u8>) -> bool;

    /// The public key and signature material are well formed.
    spec fn verify_ok(&self, sig: Seq<u8>, pk: Seq<u8>, data: Seq<u8>) -> bool;

    /// The signature material over `data` checks against the public key
    /// material.
    spec fn verifies(&self, sig: Seq<u8>, pk: Seq<u8>, data: Seq<u8>) -> bool;

    /// The algorithm name.
    spec fn alg_name(&self) -> Seq<char>;

    /// The public key material that belongs to the secret material.
    spec fn public_of(&self, secret: Seq<u8>) -> Seq<u8>;

    /// The signature material that the secret material makes over `data`.
    spec fn signature_of(&self, secret: Seq<u8>, data: Seq<u8>) -> Seq<u8>;

    /// The type of algorithm used for signing.
    fn alg(&self) -> (r: &'static str)
        ensures
            r@ == self.alg_name();

    /// Creates a new signing secret key.
    fn gen_secret(&self) -> (r: SignSecretKey)
        ensures
            r@.len() >= 6,
            typ_bytes(r@) == b_sec(),
            self.secret_ok(material_bytes(r@));

    /// Derives the public key from a secret key.
    fn gen_public(&self, secret: &SignSecretKey) -> (r: SignPublicKey)
        requires
            secret@.len() >= 6,
            self.secret_ok(material_bytes(secret@)),
        ensures
            r@.len() >= 6,
            typ_bytes(r@) == b_pub(),
            material_bytes(r@) == self.public_of(material_bytes(secret@));

    /// Cryptographically signs some data.
    fn sign(&self, secret: &SignSecretKey, data: &[u8]) -> (r: Signature)
        requires
            secret@.len() >= 6,
            self.sign_ok(material_bytes(secret@), data@),
        ensures
            r@.len() >= 6,
            typ_bytes(r@) == b_sig(),
            base64url_encode(alg_bytes(r@)) == self.alg_name(),
            material_bytes(r@) == self.signature_of(material_bytes(secret@), data@),
            self.verify_ok(
                material_bytes(r@),
                self.public_of(material_bytes(secret@)),
                data@,
            ),
            self.verifies(
                material_bytes(r@),
                self.public_of(material_bytes(secret@)),
                data@,
            );

    /// Cryptographically verifies signed data.
    fn verify(&self, sig: &Signature, pk: &SignPublicKey, data: &[u8]) -> (r: bool)
        requires
            sig@.len() >= 6,
            pk@.len() >= 6,
            self.verify_ok(material_bytes(sig@), material_bytes(pk@), data@),
        ensures
            r == self.verifies(material_bytes(sig@), material_bytes(pk@), data@);
}

} // verus!
