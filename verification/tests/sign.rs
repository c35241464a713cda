use voidmerge::module_sign::{ModuleSign, SignPublicKey, SignSecretKey, SignType, Signature};
use voidmerge::sign_p256::{gen_public, gen_secret, sign, try_gen_public, try_sign, try_verify, verify, SignP256};
use voidmerge::ErrorKind;

#[test]
fn p256() {
    let sk = gen_secret();
    let pk = gen_public(&sk);
    let sig = sign(&sk, b"hello");
    assert!(verify(&sig, &pk, b"hello"));
    assert!(!verify(&sig, &pk, b"world"));
}

#[test]
fn p256_fixture() {
    const PK: &str = "p256pub-As9a6YV1Nu884vcTXWa4aipyjdrDp1P8OFRssABzaFIu";
    const SIG: &str = "p256sig-Bbfc4x2laTzDTYl2wuZ103MmjR3wmZpscEMM9mbzNCwbRghbACVP5DNGMywWGulXm99McMDpTbReqRq4ofjlvA";
    const MSG: &[u8] = &[42, 39, 200];
    let pk: SignPublicKey = PK.parse().unwrap();
    let sig: Signature = SIG.parse().unwrap();
    assert!(verify(&sig, &pk, MSG));
}

#[test]
fn p256_keys_carry_alg_and_type() {
    let sk = gen_secret();
    let pk = gen_public(&sk);
    assert_eq!(sk.alg(), "p256");
    assert_eq!(pk.alg(), "p256");
    assert!(sk.to_string().starts_with("p256sec-"));
    assert!(pk.to_string().starts_with("p256pub-"));
    assert_eq!(sk.material().len(), 32);
    assert_eq!(pk.material().len(), 33);
    let sig = sign(&sk, b"data");
    assert!(sig.to_string().starts_with("p256sig-"));
    assert_eq!(sig.material().len(), 64);
}

#[test]
fn p256_module_trait() {
    let m = SignP256;
    assert_eq!(m.alg(), "p256");
    let sk = m.gen_secret();
    let pk = m.gen_public(&sk);
    let sig = m.sign(&sk, b"abc");
    assert!(m.verify(&sig, &pk, b"abc"));
    assert!(!m.verify(&sig, &pk, b"abd"));
}

#[test]
fn p256_try_forms_refuse_bad_material() {
    let bad = SignSecretKey::from_parts(&[167, 110, 122], &[0u8; 32]);
    assert!(try_gen_public(&bad).is_none());
    assert!(try_sign(&bad, b"x").is_none());
    let sk = gen_secret();
    let pk = try_gen_public(&sk).unwrap();
    let sig = try_sign(&sk, b"m").unwrap();
    assert_eq!(try_verify(&sig, &pk, b"m"), Some(true));
    let bad_pk = SignPublicKey::from_parts(&[167, 110, 122], &[1, 2, 3]);
    assert_eq!(try_verify(&sig, &bad_pk, b"m"), None);
}

#[test]
fn sign_type_parse_and_kinds() {
    let pk: SignPublicKey = "p256pub-As9a6YV1Nu884vcTXWa4aipyjdrDp1P8OFRssABzaFIu".parse().unwrap();
    let t = SignType::parse(&pk.to_string()).unwrap();
    assert!(t.is_public());
    assert!(!t.is_secret());
    assert!(!t.is_signature());
    assert!(t.to_public().is_some());
    assert!(t.to_secret().is_none());
    assert!(t.to_signature().is_none());
    assert_eq!(t.typ(), vec![166, 230, 254]);
    assert_eq!(t.alg(), "p256");
    assert_eq!(t.to_string(), "p256pub-As9a6YV1Nu884vcTXWa4aipyjdrDp1P8OFRssABzaFIu");
}

#[test]
fn sign_type_parse_errors() {
    let e = SignType::parse("not base64!").unwrap_err();
    assert_eq!(e.kind(), ErrorKind::InvalidData);
    let e = "p256sig-Bbfc4x2laTzDTYl2wuZ103MmjR3wmZpscEMM9mbzNCwbRghbACVP5DNGMywWGulXm99McMDpTbReqRq4ofjlvA"
        .parse::<SignPublicKey>()
        .unwrap_err();
    assert_eq!(e.kind(), ErrorKind::Other);
    let e = "AAAA".parse::<Signature>().unwrap_err();
    assert_eq!(e.kind(), ErrorKind::InvalidData);
}

#[test]
fn secret_debug_text_hides_material() {
    let sk = gen_secret();
    let t = SignType::parse(&sk.to_string()).unwrap();
    let d = t.debug_text();
    assert!(d.starts_with("p256sec-"));
    assert!(d.ends_with("<secret>"));
    assert_eq!(d.len(), 8 + 8);
}
