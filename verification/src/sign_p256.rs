//! The P-256 signing module.

use vstd::prelude::*;
use crate::ext::{
    p256_generate, p256_public, p256_public_of, p256_sign, p256_sign_msg, p256_verify,
    p256_verify_msg,
};
use crate::module_sign::{
    b_pub, b_sec, b_sig, material_bytes, typ_bytes, ModuleSign, SignPublicKey, SignSecretKey,
    Signature,
};

verus! {

/// The algorithm bytes of this module (`p256` in base64url).
pub open spec fn p256_alg() -> Seq<u8> {
    seq![167u8, 110u8, 122u8]
}

/// The algorithm bytes of this module.
pub fn p256_alg_bytes() -> (r: Vec<u8>)
    ensures
        r@ == p256_alg(),
{
    let r = vec![167u8, 110u8, 122u8];
    proof {
        assert(r@ =~= p256_alg());
    }
    r
}

/// The algorithm bytes of this module read `p256` in base64url.
proof fn lemma_p256_name()
    ensures
        crate::ext::base64url_encode(p256_alg()) == "p256"@,
{
    reveal_strlit("p256");
    let b = p256_alg();
    assert(b[0] == 167u8 && b[1] == 110u8 && b[2] == 122u8);
    assert(b.subrange(3, 3) =~= Seq::<u8>::empty());
    assert(crate::ext::b64url_digit(41) == 'p');
    assert(crate::ext::b64url_digit(54) == '2');
    assert(crate::ext::b64url_digit(57) == '5');
    assert(crate::ext::b64url_digit(58) == '6');
    assert(167int / 4 == 41 && 167int % 4 == 3 && 110int / 16 == 6 && 110int % 16 == 14) by (nonlinear_arith);
    assert(122int / 64 == 1 && 122int % 64 == 58) by (nonlinear_arith);
    assert(crate::ext::base64url_encode(Seq::<u8>::empty()) =~= Seq::<char>::empty());
    assert(crate::ext::base64url_encode(b) =~= seq!['p', '2', '5', '6'] + Seq::<char>::empty());
    assert("p256"@ =~= seq!['p', '2', '5', '6']);
}

proof fn lemma_parts(alg: Seq<u8>, typ: Seq<u8>, m: Seq<u8>)
    requires
        alg.len() == 3,
        typ.len() == 3,
    ensures
        (alg + typ + m).len() >= 6,
        typ_bytes(alg + typ + m) == typ,
        material_bytes(alg + typ + m) == m,
        (alg + typ + m).subrange(0, 3) == alg,
{
    assert(typ_bytes(alg + typ + m) =~= typ);
    assert(material_bytes(alg + typ + m) =~= m);
    assert((alg + typ + m).subrange(0, 3) =~= alg);
}

/// Creates a new random P-256 secret key: a valid 32-byte secret scalar.
pub fn gen_secret() -> (r: SignSecretKey)
    ensures
        exists|m: Seq<u8>|
            r@ == p256_alg() + b_sec() + m && m.len() == 32 && (#[trigger] p256_public(m)) is Some,
        r@.len() >= 6,
        typ_bytes(r@) == b_sec(),
        p256_public(material_bytes(r@)) is Some,
{
    let (secret, _public) = p256_generate();
    let alg = p256_alg_bytes();
    let r = SignSecretKey::from_parts(alg.as_slice(), secret.as_slice());
    proof {
        lemma_parts(p256_alg(), b_sec(), secret@);
    }
    r
}

/// Derives the compressed public key of a secret key.
pub fn gen_public(secret: &SignSecretKey) -> (r: SignPublicKey)
    requires
        secret@.len() >= 6,
        p256_public(material_bytes(secret@)) is Some,
    ensures
        r@ == p256_alg() + b_pub() + p256_public(material_bytes(secret@))->0,
{
    let m = secret.material();
    let public = p256_public_of(m.as_slice());
    match public {
        Some(p) => {
            let alg = p256_alg_bytes();
            SignPublicKey::from_parts(alg.as_slice(), p.as_slice())
        },
        None => {
            proof {
                assert(false);
            }
            SignPublicKey::from_parts(m.as_slice(), m.as_slice())
        },
    }
}

/// Derives the public key of a secret key; `None` when the secret key is
/// too short or its material is not a valid secret scalar.
pub fn try_gen_public(secret: &SignSecretKey) -> (r: Option<SignPublicKey>)
    ensures
        secret@.len() < 6 ==> r is None,
        secret@.len() >= 6 ==> match p256_public(material_bytes(secret@)) {
            Some(p) => r matches Some(k) && k@ == p256_alg() + b_pub() + p,
            None => r is None,
        },
{
    if secret.as_sign_type().as_bytes().len() < 6 {
        return None;
    }
    let m = secret.material();
    match p256_public_of(m.as_slice()) {
        Some(_) => Some(gen_public(secret)),
        None => None,
    }
}

/// Signs data with a secret key (ECDSA P-256 over SHA-256).
pub fn sign(secret: &SignSecretKey, data: &[u8]) -> (r: Signature)
    requires
        secret@.len() >= 6,
        p256_sign(material_bytes(secret@), data@) is Some,
    ensures
        r@ == p256_alg() + b_sig() + p256_sign(material_bytes(secret@), data@)->0,
        p256_public(material_bytes(secret@)) is Some,
        p256_verify(
            p256_public(material_bytes(secret@))->0,
            p256_sign(material_bytes(secret@), data@)->0,
            data@,
        ) == Some(true),
{
    let m = secret.material();
    match p256_sign_msg(m.as_slice(), data) {
        Some(s) => {
            let alg = p256_alg_bytes();
            Signature::from_parts(alg.as_slice(), s.as_slice())
        },
        None => {
            proof {
                assert(false);
            }
            Signature::from_parts(m.as_slice(), m.as_slice())
        },
    }
}

/// Signs data; `None` when the secret key is too short or signing fails.
pub fn try_sign(secret: &SignSecretKey, data: &[u8]) -> (r: Option<Signature>)
    ensures
        secret@.len() < 6 ==> r is None,
        secret@.len() >= 6 ==> match p256_sign(material_bytes(secret@), data@) {
            Some(s) => r matches Some(k) && k@ == p256_alg() + b_sig() + s,
            None => r is None,
        },
{
    if secret.as_sign_type().as_bytes().len() < 6 {
        return None;
    }
    let m = secret.material();
    match p256_sign_msg(m.as_slice(), data) {
        Some(_) => Some(sign(secret, data)),
        None => None,
    }
}

/// Verifies a signature over data against a public key.
pub fn verify(signature: &Signature, pk: &SignPublicKey, data: &[u8]) -> (r: bool)
    requires
        signature@.len() >= 6,
        pk@.len() >= 6,
        p256_verify(material_bytes(pk@), material_bytes(signature@), data@) is Some,
    ensures
        r == p256_verify(material_bytes(pk@), material_bytes(signature@), data@)->0,
{
    let pm = pk.material();
    let sm = signature.material();
    match p256_verify_msg(pm.as_slice(), sm.as_slice(), data) {
        Some(b) => b,
        None => {
            proof {
                assert(false);
            }
            false
        },
    }
}

/// Verifies a signature; `None` when either is too short, or the key or
/// the signature bytes do not parse.
pub fn try_verify(signature: &Signature, pk: &SignPublicKey, data: &[u8]) -> (r: Option<bool>)
    ensures
        (signature@.len() < 6 || pk@.len() < 6) ==> r is None,
        (signature@.len() >= 6 && pk@.len() >= 6) ==> r == p256_verify(
            material_bytes(pk@),
            material_bytes(signature@),
            data@,
        ),
{
    if signature.as_sign_type().as_bytes().len() < 6 || pk.as_sign_type().as_bytes().len() < 6 {
        return None;
    }
    let pm = pk.material();
    let sm = signature.material();
    match p256_verify_msg(pm.as_slice(), sm.as_slice(), data) {
        Some(_) => Some(verify(signature, pk, data)),
        None => None,
    }
}

/// P-256 signing functions.
#[derive(Debug)]
pub struct SignP256;

impl ModuleSign for SignP256 {
    open spec fn secret_ok(&self, secret: Seq<u8>) -> bool {
        p256_public(secret) is Some
    }

    open spec fn sign_ok(&self, secret: Seq<u8>, data: Seq<u8>) -> bool {
        p256_sign(secret, data) is Some
    }

    open spec fn verify_ok(&self, sig: Seq<u8>, pk: Seq<u8>, data: Seq<u8>) -> bool {
        p256_verify(pk, sig, data) is Some
    }

    open spec fn verifies(&self, sig: Seq<u8>, pk: Seq<u8>, data: Seq<u8>) -> bool {
        p256_verify(pk, sig, data) == Some(true)
    }

    open spec fn alg_name(&self) -> Seq<char> {
        "p256"@
    }

    open spec fn public_of(&self, secret: Seq<u8>) -> Seq<u8> {
        p256_public(secret)->0
    }

    open spec fn signature_of(&self, secret: Seq<u8>, data: Seq<u8>) -> Seq<u8> {
        p256_sign(secret, data)->0
    }

    fn alg(&self) -> &'static str {
        "p256"
    }

    fn gen_secret(&self) -> (r: SignSecretKey) {
        gen_secret()
    }

    fn gen_public(&self, secret: &SignSecretKey) -> (r: SignPublicKey) {
        let r = gen_public(secret);
        proof {
            lemma_parts(p256_alg(), b_pub(), p256_public(material_bytes(secret@))->0);
        }
        r
    }

    fn sign(&self, secret: &SignSecretKey, data: &[u8]) -> (r: Signature) {
        let r = sign(secret, data);
        proof {
            lemma_p256_name();
            lemma_parts(p256_alg(), b_sig(), p256_sign(material_bytes(secret@), data@)->0);
        }
        r
    }

    fn verify(&self, sig: &Signature, pk: &SignPublicKey, data: &[u8]) -> (r: bool) {
        verify(sig, pk, data)
    }
}

} // verus!
