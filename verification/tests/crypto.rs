use std::sync::Arc;
use voidmerge::crypto::{CryptoSign, CryptoSignP256, CryptoSignSecret, DynCryptoSign};
use voidmerge::crypto_utils::{CryptoSignRegistry, CryptoSigner, CryptoVerifier, SecretKey, SignedData, SysPk};

use voidmerge::ErrorKind;

fn p256() -> DynCryptoSign {
    DynCryptoSign(Arc::new(Box::new(CryptoSignP256)))
}

fn enc_syspk(pks: &Vec<SysPk>) -> voidmerge::Result<Vec<u8>> {
    let mut out = Vec::new();
    for k in pks {
        out.extend_from_slice(k.a.as_bytes());
        out.extend_from_slice(k.p.as_bytes());
    }
    Ok(out)
}

fn enc_data(ident: &voidmerge::hash::Hash, syspk: &Vec<u8>) -> voidmerge::Result<Vec<u8>> {
    let mut out = ident.as_bytes().to_vec();
    out.extend_from_slice(syspk);
    Ok(out)
}

fn generate(algs: Vec<DynCryptoSign>) -> CryptoSigner {
    CryptoSigner::generate(algs, enc_syspk, enc_data).unwrap()
}

#[test]
fn p256_signature() {
    let alg = CryptoSignP256;
    let (p, s) = alg.generate().unwrap();
    let sig = alg.sign_prehashed_512_bits(&s, &[2; 64]).unwrap();
    alg.verify_prehashed_512_bits(&p, &sig, &[2; 64]).unwrap();
    assert!(alg.verify_prehashed_512_bits(&p, &sig, &[3; 64]).is_err());
}

#[test]
fn p256_refuses_hashes_that_are_not_512_bits() {
    let alg = CryptoSignP256::new().unwrap();
    let (p, s) = alg.generate().unwrap();
    let e = alg.sign_prehashed_512_bits(&s, &[2; 32]).unwrap_err();
    assert_eq!(e.kind(), ErrorKind::Other);
    assert_eq!(e.to_string(), "to sign was not a 512 bit hash");
    let sig = alg.sign_prehashed_512_bits(&s, &[2; 64]).unwrap();
    let e = alg.verify_prehashed_512_bits(&p, &sig, &[2; 63]).unwrap_err();
    assert_eq!(e.to_string(), "to verify was not a 512 bit hash");
}

#[test]
fn p256_bad_secret_fails_to_sign() {
    let alg = CryptoSignP256;
    let sk = CryptoSignSecret::new(vec![0u8; 32]);
    assert!(alg.sign_prehashed_512_bits(&sk, &[1; 64]).is_err());
    let sk2: CryptoSignSecret = vec![1u8, 2, 3].into();
    assert_eq!(sk2.as_bytes(), &[1u8, 2, 3]);
}

#[test]
fn registry_keeps_the_last_of_a_name() {
    let reg = CryptoSignRegistry::new(vec![p256(), p256()]);
    assert_eq!(reg.alg_list(), vec!["p256"]);
    assert!(reg.crypto("p256").is_some());
    assert!(reg.crypto("ed25519").is_none());
    let empty = CryptoSignRegistry::new(vec![]);
    assert!(empty.alg_list().is_empty());
    let copy = reg.clone();
    assert_eq!(copy.alg_list(), vec!["p256"]);
}

#[test]
fn signer_signs_what_its_verifier_accepts() {
    let signer = generate(vec![p256(), p256()]);
    assert_eq!(signer.alg_list(), vec!["p256", "p256"]);
    let hash = [9u8; 64];
    let sigs = signer.sign_prehashed_512_bits(&hash).unwrap();
    assert_eq!(sigs.len(), 2);
    signer.get_verifier().verify_prehashed_512_bits(&sigs, &hash).unwrap();
    let other = [8u8; 64];
    assert!(signer.get_verifier().verify_prehashed_512_bits(&sigs, &other).is_err());
    let e = signer.get_verifier().verify_prehashed_512_bits(&sigs[..1].to_vec(), &hash).unwrap_err();
    assert_eq!(e.kind(), ErrorKind::Other);
    assert_eq!(e.to_string(), "signature count mismatch");
    assert!(signer.sign_prehashed_512_bits(&[1u8; 10]).is_err());
}

#[test]
fn signer_sign_data_hashes_and_signs() {
    let mut signer = generate(vec![p256()]);
    let data = signer.sign_data(b"sysuser record".to_vec()).unwrap();
    assert_eq!(data.sha512.as_bytes(), voidmerge::hash::Hash::sha2_512(b"sysuser record").as_bytes());
    assert_eq!(data.signature.len(), 1);
    signer.get_verifier().verify_prehashed_512_bits(&data.signature, data.sha512.as_bytes()).unwrap();
    signer.set_sysuser(data);
    assert_eq!(signer.sysuser().data, b"sysuser record".to_vec());
}

#[test]
fn signer_reloads_from_its_secrets() {
    let reg = CryptoSignRegistry::new(vec![p256()]);
    let mut signer = generate(vec![p256()]);
    let sysuser = signer.sign_data(b"u".to_vec()).unwrap();
    let copy = SignedData {
        data: sysuser.data.clone(),
        sha512: sysuser.sha512.clone(),
        signature: sysuser.signature.clone(),
    };
    signer.set_sysuser(sysuser);
    let keys = signer.secret_keys();
    assert_eq!(keys.len(), 1);
    assert_eq!(keys[0].a, "p256");
    let syspk = vec![SysPk { a: keys[0].a.clone(), p: keys[0].p.clone() }];
    let again = CryptoSigner::with_secrets(&reg, keys, copy.data, copy.signature, Some(syspk)).unwrap();
    assert_eq!(again.alg_list(), vec!["p256"]);
    let sigs = again.sign_prehashed_512_bits(&[5u8; 64]).unwrap();
    again.get_verifier().verify_prehashed_512_bits(&sigs, &[5u8; 64]).unwrap();
}

#[test]
fn with_sysuser_errors() {
    let reg = CryptoSignRegistry::new(vec![p256()]);
    let e = CryptoVerifier::with_sysuser(&reg, None, &vec![], &voidmerge::hash::Hash::from_vec(vec![0; 64])).err().unwrap();
    assert_eq!(e.to_string(), "invalid sysuser (no syspk app data)");
    let keys = vec![SysPk { a: "nope".to_string(), p: voidmerge::hash::Hash::from_vec(vec![1]) }];
    let e = CryptoVerifier::with_sysuser(&reg, Some(keys), &vec![], &voidmerge::hash::Hash::from_vec(vec![0; 64])).err().unwrap();
    assert_eq!(e.to_string(), "invalid signing algorithm: nope");
    let e = CryptoSigner::with_secrets(
        &reg,
        vec![SecretKey { a: "x".to_string(), p: voidmerge::hash::Hash::from_vec(vec![]), s: vec![] }],
        vec![],
        vec![],
        None,
    )
    .err()
    .unwrap();
    assert_eq!(e.to_string(), "invalid signing algorithm: x");
}

#[test]
fn generated_signer_carries_its_signed_sysuser() {
    let signer = generate(vec![p256()]);
    let keys = signer.secret_keys();
    let mut syspk = b"p256".to_vec();
    syspk.extend_from_slice(keys[0].p.as_bytes());
    let ident = voidmerge::crypto_utils::sysuser_ident(&syspk);
    assert_eq!(ident.as_bytes(), &voidmerge::hash::Hash::sha2_512(&syspk).as_bytes()[..24]);
    let u = signer.sysuser();
    let mut data = ident.as_bytes().to_vec();
    data.extend_from_slice(&syspk);
    assert_eq!(u.data, data);
    assert_eq!(u.sha512.as_bytes(), voidmerge::hash::Hash::sha2_512(&data).as_bytes());
    signer.get_verifier().verify_prehashed_512_bits(&u.signature, u.sha512.as_bytes()).unwrap();
    assert_eq!(u.short().as_bytes(), &u.sha512.as_bytes()[..24]);
    assert_eq!(u.canon_ident(&None).as_bytes(), &u.sha512.as_bytes()[..24]);
    assert_eq!(u.canon_ident(&Some(ident.clone())).as_bytes(), ident.as_bytes());
}

#[test]
fn default_registry_holds_p256() {
    let reg = CryptoSignRegistry::default();
    assert_eq!(reg.alg_list(), vec!["p256"]);
    assert_eq!(reg.crypto("p256").unwrap().alg(), "p256");
    assert!(reg.crypto("rsa").is_none());
}
