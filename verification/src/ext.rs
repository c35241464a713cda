//! Calls into the outside crates that the library uses, with the contracts
//! that the library relies on. Nothing in this file is proved: each
//! contract restates what the called crate documents or its source shows.

use vstd::prelude::*;
use base64::Engine;
use p256::ecdsa::signature::Signer;
use p256::ecdsa::signature::Verifier;
use p256::ecdsa::signature::hazmat::PrehashSigner;
use p256::ecdsa::signature::hazmat::PrehashVerifier;
use rand::RngCore;
use sha2::Digest;

verus! {

/// The URL-safe base64 character of a six-bit value: `A`-`Z`, `a`-`z`,
/// `0`-`9`, `-`, `_`.
pub open spec fn b64url_digit(n: int) -> char {
    if n < 26 {
        (65 + n) as char
    } else if n < 52 {
        (97 + n - 26) as char
    } else if n < 62 {
        (48 + n - 52) as char
    } else if n == 62 {
        '-'
    } else {
        '_'
    }
}

proof fn lemma_digit_injective(n: int, m: int)
    requires
        0 <= n < 64,
        0 <= m < 64,
        b64url_digit(n) == b64url_digit(m),
    ensures
        n == m,
{
    assert(b64url_digit(n) as int == (if n < 26 { 65 + n } else if n < 52 { 71 + n } else if n < 62 { n - 4 } else if n == 62 { 45 } else { 95 }));
    assert(b64url_digit(m) as int == (if m < 26 { 65 + m } else if m < 52 { 71 + m } else if m < 62 { m - 4 } else if m == 62 { 45 } else { 95 }));
}

/// The unpadded URL-safe base64 text of some bytes: each group of three
/// bytes gives four characters, a last group of two bytes three, and a
/// last single byte two.
pub open spec fn base64url_encode(b: Seq<u8>) -> Seq<char>
    decreases b.len(),
{
    if b.len() == 0 {
        Seq::empty()
    } else {
        let x = b[0] as int;
        if b.len() == 1 {
            seq![b64url_digit(x / 4), b64url_digit((x % 4) * 16)]
        } else {
            let y = b[1] as int;
            if b.len() == 2 {
                seq![b64url_digit(x / 4), b64url_digit((x % 4) * 16 + y / 16), b64url_digit((y % 16) * 4)]
            } else {
                let z = b[2] as int;
                seq![
                    b64url_digit(x / 4),
                    b64url_digit((x % 4) * 16 + y / 16),
                    b64url_digit((y % 16) * 4 + z / 64),
                    b64url_digit(z % 64),
                ] + base64url_encode(b.subrange(3, b.len() as int))
            }
        }
    }
}

/// The length of the text of some bytes is at least that of its first
/// group: nothing for no bytes, two characters for one, three for two,
/// and more than three for three or more.
proof fn lemma_encode_len(b: Seq<u8>)
    ensures
        b.len() == 0 ==> base64url_encode(b).len() == 0,
        b.len() == 1 ==> base64url_encode(b).len() == 2,
        b.len() == 2 ==> base64url_encode(b).len() == 3,
        b.len() >= 3 ==> base64url_encode(b).len() >= 4,
{
}

/// The characters of the first group of the text of some bytes.
proof fn lemma_encode_head(b: Seq<u8>)
    requires
        b.len() >= 1,
    ensures
        base64url_encode(b)[0] == b64url_digit(b[0] as int / 4),
        b.len() == 1 ==> base64url_encode(b)[1] == b64url_digit((b[0] as int % 4) * 16),
        b.len() >= 2 ==> base64url_encode(b)[1] == b64url_digit((b[0] as int % 4) * 16 + b[1] as int / 16),
        b.len() == 2 ==> base64url_encode(b)[2] == b64url_digit((b[1] as int % 16) * 4),
        b.len() >= 3 ==> base64url_encode(b)[2] == b64url_digit((b[1] as int % 16) * 4 + b[2] as int / 64),
        b.len() >= 3 ==> base64url_encode(b)[3] == b64url_digit(b[2] as int % 64),
        b.len() >= 3 ==> base64url_encode(b).subrange(4, base64url_encode(b).len() as int) == base64url_encode(
            b.subrange(3, b.len() as int),
        ),
{
    let e = base64url_encode(b);
    if b.len() >= 3 {
        let g = seq![
            b64url_digit(b[0] as int / 4),
            b64url_digit((b[0] as int % 4) * 16 + b[1] as int / 16),
            b64url_digit((b[1] as int % 16) * 4 + b[2] as int / 64),
            b64url_digit(b[2] as int % 64),
        ];
        let rest = base64url_encode(b.subrange(3, b.len() as int));
        assert(e == g + rest);
        assert(e.subrange(4, e.len() as int) =~= rest);
    }
}

/// Different bytes have different texts.
pub proof fn lemma_encode_injective(a: Seq<u8>, b: Seq<u8>)
    requires
        base64url_encode(a) == base64url_encode(b),
    ensures
        a == b,
    decreases a.len(),
{
    let ea = base64url_encode(a);
    lemma_encode_len(a);
    lemma_encode_len(b);
    if a.len() > 0 {
        lemma_encode_head(a);
    }
    if b.len() > 0 {
        lemma_encode_head(b);
    }
    if a.len() == 0 {
        assert(b.len() == 0);
        assert(a =~= b);
    } else {
        let (x, y, z) = (a[0], if a.len() > 1 { a[1] } else { 0u8 }, if a.len() > 2 { a[2] } else { 0u8 });
        let (p, q, w) = (b[0], if b.len() > 1 { b[1] } else { 0u8 }, if b.len() > 2 { b[2] } else { 0u8 });
        assert(a.len() == b.len() || (a.len() >= 3 && b.len() >= 3));
        lemma_digit_injective(x as int / 4, p as int / 4);
        assert(x / 4 == p / 4);
        if a.len() == 1 {
            lemma_digit_injective((x as int % 4) * 16, (p as int % 4) * 16);
            assert(x == p) by (bit_vector)
                requires
                    x / 4 == p / 4,
                    (x % 4) * 16 == (p % 4) * 16,
            ;
            assert(a =~= b);
        } else {
            lemma_digit_injective((x as int % 4) * 16 + y as int / 16, (p as int % 4) * 16 + q as int / 16);
            if a.len() == 2 {
                lemma_digit_injective((y as int % 16) * 4, (q as int % 16) * 4);
                assert(x == p && y == q) by (bit_vector)
                    requires
                        x / 4 == p / 4,
                        (x % 4) * 16 + y / 16 == (p % 4) * 16 + q / 16,
                        (y % 16) * 4 == (q % 16) * 4,
                ;
                assert(a =~= b);
            } else {
                lemma_digit_injective((y as int % 16) * 4 + z as int / 64, (q as int % 16) * 4 + w as int / 64);
                lemma_digit_injective(z as int % 64, w as int % 64);
                assert(x == p && y == q && z == w) by (bit_vector)
                    requires
                        x / 4 == p / 4,
                        (x % 4) * 16 + y / 16 == (p % 4) * 16 + q / 16,
                        (y % 16) * 4 + z / 64 == (q % 16) * 4 + w / 64,
                        z % 64 == w % 64,
                ;
                let ra = a.subrange(3, a.len() as int);
                let rb = b.subrange(3, b.len() as int);
                lemma_encode_injective(ra, rb);
                assert(a =~= b) by {
                    assert(forall|i: int| 3 <= i < a.len() ==> a[i] == ra[i - 3]);
                    assert(forall|i: int| 3 <= i < b.len() ==> b[i] == rb[i - 3]);
                }
            }
        }
    }
}

/// The bytes that an unpadded URL-safe base64 text decodes to: the bytes
/// whose text it is, if any (no padding is allowed and the unused bits of
/// the last character must be zero, so each text has at most one).
pub open spec fn base64url_decode(s: Seq<char>) -> Option<Seq<u8>> {
    if exists|b: Seq<u8>| #[trigger] base64url_encode(b) == s {
        Some(choose|b: Seq<u8>| #[trigger] base64url_encode(b) == s)
    } else {
        None
    }
}

/// Decoding the text of some bytes gives those bytes.
pub proof fn lemma_decode_encode(b: Seq<u8>)
    ensures
        base64url_decode(base64url_encode(b)) == Some(b),
{
    let s = base64url_encode(b);
    assert(exists|c: Seq<u8>| #[trigger] base64url_encode(c) == s);
    let c = choose|c: Seq<u8>| #[trigger] base64url_encode(c) == s;
    lemma_encode_injective(c, b);
}

/// A character of the URL-safe base64 alphabet.
pub open spec fn is_b64url_char(c: char) -> bool {
    ||| ('A' <= c && c <= 'Z')
    ||| ('a' <= c && c <= 'z')
    ||| ('0' <= c && c <= '9')
    ||| c == '-'
    ||| c == '_'
}

/// Text made of the URL-safe base64 alphabet only.
pub open spec fn is_b64url_text(s: Seq<char>) -> bool {
    forall|i: int| 0 <= i < s.len() ==> is_b64url_char(#[trigger] s[i])
}

/// `base64::engine::Engine::encode` with `BASE64_URL_SAFE_NO_PAD`: the text
/// is the encoding stated above.
#[verifier::external_body]
fn b64_encode_text(b: &[u8]) -> (s: String)
    ensures
        s@ == base64url_encode(b@),
{
    base64::prelude::BASE64_URL_SAFE_NO_PAD.encode(b)
}

/// `base64::engine::Engine::decode` with `BASE64_URL_SAFE_NO_PAD`: it
/// decodes exactly the texts that the same engine encodes (no padding,
/// unused bits zero), to the bytes they encode.
#[verifier::external_body]
fn b64_decode_text(s: &str) -> (r: Option<Vec<u8>>)
    ensures
        r matches Some(v) ==> base64url_encode(v@) == s@,
        r is None ==> !exists|b: Seq<u8>| #[trigger] base64url_encode(b) == s@,
{
    base64::prelude::BASE64_URL_SAFE_NO_PAD.decode(s).ok()
}

/// The text of some bytes is made of the URL-safe alphabet, four
/// characters per three bytes without padding.
pub proof fn lemma_encode_shape(b: Seq<u8>)
    ensures
        is_b64url_text(base64url_encode(b)),
        base64url_encode(b).len() == (4 * b.len() + 2) / 3,
    decreases b.len(),
{
    if b.len() >= 3 {
        lemma_encode_shape(b.subrange(3, b.len() as int));
        lemma_encode_head(b);
    } else if b.len() >= 1 {
        lemma_encode_head(b);
    }
    let e = base64url_encode(b);
    assert forall|i: int| 0 <= i < e.len() implies is_b64url_char(#[trigger] e[i]) by {
        if b.len() >= 3 {
            let rest = base64url_encode(b.subrange(3, b.len() as int));
            if i >= 4 {
                assert(e[i] == rest[i - 4]);
            }
        }
    }
}

/// The unpadded URL-safe base64 text of some bytes: it decodes back to
/// them, is made of the URL-safe alphabet, and has four characters per
/// three bytes.
pub(crate) fn b64_encode(b: &[u8]) -> (s: String)
    ensures
        s@ == base64url_encode(b@),
        base64url_decode(s@) == Some(b@),
        is_b64url_text(s@),
        s@.len() == (4 * b@.len() + 2) / 3,
{
    proof {
        lemma_decode_encode(b@);
        lemma_encode_shape(b@);
    }
    b64_encode_text(b)
}

/// The bytes that an unpadded URL-safe base64 text decodes to, if any.
pub(crate) fn b64_decode(s: &str) -> (r: Option<Vec<u8>>)
    ensures
        r matches Some(v) ==> base64url_decode(s@) == Some(v@),
        r is None ==> base64url_decode(s@) is None,
{
    let r = b64_decode_text(s);
    proof {
        if r is Some {
            lemma_decode_encode(r->0@);
        }
    }
    r
}

/// The text that `String::from_utf8_lossy` makes of some bytes.
pub uninterp spec fn utf8_lossy_text(b: Seq<u8>) -> Seq<char>;

/// `String::from_utf8_lossy`: the named text; for valid UTF-8 it is the
/// text that the bytes encode, as the documentation promises.
#[verifier::external_body]
pub(crate) fn utf8_lossy(b: &[u8]) -> (s: String)
    ensures
        s@ == utf8_lossy_text(b@),
        vstd::utf8::valid_utf8(b@) ==> s@ == vstd::utf8::decode_utf8(b@),
{
    String::from_utf8_lossy(b).into_owned()
}

/// `Arc::clone`: another pointer to the same value.
#[verifier::external_body]
pub(crate) fn share<T>(a: &std::sync::Arc<T>) -> (r: std::sync::Arc<T>)
    ensures
        r == *a,
{
    std::sync::Arc::clone(a)
}

/// The SHA-512 digest of some bytes.
pub uninterp spec fn sha512(b: Seq<u8>) -> Seq<u8>;

/// `sha2::Sha512::digest`: the named digest, 64 bytes long.
#[verifier::external_body]
pub(crate) fn sha512_digest(b: &[u8]) -> (r: Vec<u8>)
    ensures
        r@ == sha512(b@),
        r@.len() == 64,
{
    sha2::Sha512::digest(b).to_vec()
}

/// The SHA-256 digest of some bytes.
pub uninterp spec fn sha256(b: Seq<u8>) -> Seq<u8>;

/// `sha2::Sha256::digest`: the named digest, 32 bytes long.
#[verifier::external_body]
pub(crate) fn sha256_digest(b: &[u8]) -> (r: Vec<u8>)
    ensures
        r@ == sha256(b@),
        r@.len() == 32,
{
    sha2::Sha256::digest(b).to_vec()
}

/// `rand::RngCore::fill_bytes` on the thread-local generator: `len` bytes
/// of chance; nothing else is stated of them.
#[verifier::external_body]
pub(crate) fn random_bytes(len: usize) -> (r: Vec<u8>)
    ensures
        r@.len() == len,
{
    let mut v = vec![0u8; len];
    rand::thread_rng().fill_bytes(&mut v);
    v
}

/// The compressed SEC1 public key that belongs to a P-256 secret scalar
/// given as bytes, if those bytes are a valid secret scalar.
pub uninterp spec fn p256_public(secret: Seq<u8>) -> Option<Seq<u8>>;

/// A fresh P-256 key pair from the thread-local generator
/// (`p256::ecdsa::SigningKey::random`): the secret scalar (32 bytes) and
/// the compressed public key (33 bytes) that belongs to it.
#[verifier::external_body]
pub(crate) fn p256_generate() -> (r: (Vec<u8>, Vec<u8>))
    ensures
        r.0@.len() == 32,
        r.1@.len() == 33,
        p256_public(r.0@) == Some(r.1@),
{
    let sk = p256::ecdsa::SigningKey::random(&mut rand::thread_rng());
    let pk = sk.verifying_key().to_encoded_point(true);
    (sk.to_bytes().to_vec(), pk.as_bytes().to_vec())
}

/// `SigningKey::from_slice` then `verifying_key().to_encoded_point(true)`:
/// the named public key of the secret, `None` when the bytes are not a
/// valid secret scalar.
#[verifier::external_body]
pub(crate) fn p256_public_of(secret: &[u8]) -> (r: Option<Vec<u8>>)
    ensures
        r matches Some(v) ==> p256_public(secret@) == Some(v@),
        r is None ==> p256_public(secret@) is None,
{
    match p256::ecdsa::SigningKey::from_slice(secret) {
        Ok(k) => Some(k.verifying_key().to_encoded_point(true).as_bytes().to_vec()),
        Err(_) => None,
    }
}

/// The deterministic (RFC 6979) ECDSA P-256 / SHA-256 signature of a
/// message under a secret scalar, if the scalar is valid and signing
/// succeeds.
pub uninterp spec fn p256_sign(secret: Seq<u8>, msg: Seq<u8>) -> Option<Seq<u8>>;

/// `SigningKey::from_slice` then `Signer::try_sign`: the named signature
/// (64 bytes), `None` on an invalid secret or a signing error. As ECDSA
/// promises, a signature made with a secret key checks against the public
/// key of that secret (`Verifier::verify` hashes the message with the same
/// SHA-256 and parses the 64 signature bytes back).
#[verifier::external_body]
pub(crate) fn p256_sign_msg(secret: &[u8], msg: &[u8]) -> (r: Option<Vec<u8>>)
    ensures
        r matches Some(v) ==> p256_sign(secret@, msg@) == Some(v@) && v@.len() == 64,
        r matches Some(v) ==> (p256_public(secret@) matches Some(pk) && p256_verify(pk, v@, msg@)
            == Some(true)),
        r is None ==> p256_sign(secret@, msg@) is None,
{
    let k = p256::ecdsa::SigningKey::from_slice(secret).ok()?;
    let sig: p256::ecdsa::Signature = k.try_sign(msg).ok()?;
    Some(sig.to_vec())
}

/// Whether an ECDSA P-256 / SHA-256 signature over a message checks
/// against a compressed or uncompressed SEC1 public key; `None` when the
/// key or the signature bytes do not parse.
pub uninterp spec fn p256_verify(public: Seq<u8>, sig: Seq<u8>, msg: Seq<u8>) -> Option<bool>;

/// `VerifyingKey::from_sec1_bytes`, `Signature::from_slice`, then
/// `Verifier::verify`: the named outcome.
#[verifier::external_body]
pub(crate) fn p256_verify_msg(public: &[u8], sig: &[u8], msg: &[u8]) -> (r: Option<bool>)
    ensures
        r == p256_verify(public@, sig@, msg@),
{
    let pk = p256::ecdsa::VerifyingKey::from_sec1_bytes(public).ok()?;
    let sig = p256::ecdsa::Signature::from_slice(sig).ok()?;
    Some(pk.verify(msg, &sig).is_ok())
}

/// The deterministic (RFC 6979) ECDSA P-256 signature of a prehashed
/// message, if the secret scalar is valid and signing succeeds.
pub uninterp spec fn p256_sign_prehash(secret: Seq<u8>, hash: Seq<u8>) -> Option<Seq<u8>>;

/// `SigningKey::from_slice` then `PrehashSigner::sign_prehash`: the named
/// signature (64 bytes), `None` on an invalid secret or a signing error.
/// As ECDSA promises, the signature checks against the public key of the
/// secret under `PrehashVerifier::verify_prehash` (both sides reduce the
/// prehash with the same `bits2field`).
#[verifier::external_body]
pub(crate) fn p256_sign_hash(secret: &[u8], hash: &[u8]) -> (r: Option<Vec<u8>>)
    ensures
        r matches Some(v) ==> p256_sign_prehash(secret@, hash@) == Some(v@) && v@.len() == 64,
        r matches Some(v) ==> (p256_public(secret@) matches Some(pk) && p256_verify_prehash(
            pk,
            v@,
            hash@,
        )),
        r is None ==> p256_sign_prehash(secret@, hash@) is None,
{
    let k = p256::ecdsa::SigningKey::from_slice(secret).ok()?;
    let sig: p256::ecdsa::Signature = k.sign_prehash(hash).ok()?;
    Some(sig.to_vec())
}

/// Whether a prehashed ECDSA P-256 signature checks against a SEC1 public
/// key: false also when the key or the signature bytes do not parse.
pub uninterp spec fn p256_verify_prehash(public: Seq<u8>, sig: Seq<u8>, hash: Seq<u8>) -> bool;

/// `VerifyingKey::from_sec1_bytes`, `Signature::from_slice`, then
/// `PrehashVerifier::verify_prehash`: the named outcome.
#[verifier::external_body]
pub(crate) fn p256_verify_hash(public: &[u8], sig: &[u8], hash: &[u8]) -> (r: bool)
    ensures
        r == p256_verify_prehash(public@, sig@, hash@),
{
    let pk = match p256::ecdsa::VerifyingKey::from_sec1_bytes(public) {
        Ok(pk) => pk,
        Err(_) => return false,
    };
    let sig = match p256::ecdsa::Signature::from_slice(sig) {
        Ok(sig) => sig,
        Err(_) => return false,
    };
    pk.verify_prehash(hash, &sig).is_ok()
}

/// The keys and values that `minimist::Minimist::parse` makes of an
/// argument list.
pub uninterp spec fn minimist_entries(args: Seq<Seq<char>>) -> Seq<(Seq<char>, Seq<Seq<char>>)>;

/// No key occurs twice.
pub open spec fn keys_distinct(o: Seq<(Seq<char>, Seq<Seq<char>>)>) -> bool {
    forall|i: int, j: int| 0 <= i < j < o.len() ==> (#[trigger] o[i]).0 != (#[trigger] o[j]).0
}

/// The view of a list of keys with values.
pub open spec fn entries_view(v: Seq<(String, Vec<String>)>) -> Seq<(Seq<char>, Seq<Seq<char>>)> {
    v.map_values(|e: (String, Vec<String>)| (e.0@, e.1.deep_view()))
}

/// `minimist::Minimist::parse`: the named entries, whose keys are distinct
/// (they come from a `BTreeMap`).
#[verifier::external_body]
pub(crate) fn minimist_parse(args: &Vec<String>) -> (r: Vec<(String, Vec<String>)>)
    ensures
        entries_view(r@) == minimist_entries(args.deep_view()),
        keys_distinct(entries_view(r@)),
{
    minimist::Minimist::parse(args.iter())
        .0
        .into_iter()
        .map(|(k, v)| (k, v.iter().map(|x| x.to_string_lossy().into_owned()).collect()))
        .collect()
}

} // verus!
