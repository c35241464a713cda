use std::sync::Arc;
use voidmerge::module_sign::{ModuleSign, SignPublicKey, Signature, VmSignature};
use voidmerge::multi_sign::{DynModuleSign, MultiSign};
use voidmerge::sign_p256::SignP256;

fn module() -> DynModuleSign {
    DynModuleSign(Arc::new(Box::new(SignP256)))
}

#[test]
fn multi_sign_round_trip() {
    let mut m = MultiSign::new();
    let sk = SignP256.gen_secret();
    let pk = SignP256.gen_public(&sk);
    m.add_sign(module(), sk, pk.clone());
    assert_eq!(m.public_keys().len(), 1);
    assert_eq!(m.public_keys()[0].to_string(), pk.to_string());
    let sigs = m.sign(b"data");
    assert_eq!(sigs.len(), 1);
    assert!(m.verify(b"data", &sigs));
    assert!(!m.verify(b"other", &sigs));
    assert!(!m.verify(b"data", &[]));
}

#[test]
fn multi_sign_needs_every_module() {
    let empty = MultiSign::new();
    let sk = SignP256.gen_secret();
    let pk = SignP256.gen_public(&sk);
    let sig = SignP256.sign(&sk, b"x");
    let v = VmSignature { pk, sig };
    assert!(!empty.verify(b"x", &[v]));
    assert!(empty.verify(b"x", &[]));
}

#[test]
fn multi_sign_refuses_short_unknown_signatures() {
    let mut m = MultiSign::new();
    let sk = SignP256.gen_secret();
    let pk = SignP256.gen_public(&sk);
    m.add_sign(module(), sk, pk.clone());
    let mut sigs = m.sign(b"data");
    let short = VmSignature {
        pk: SignPublicKey::from_parts(&[1, 2, 3], &[]),
        sig: Signature::from_parts(&[1, 2, 3], &[]),
    };
    sigs.push(short);
    assert!(!m.verify(b"data", &sigs));
    let mut superseded = vec![VmSignature {
        pk: SignPublicKey::from_parts(&[], &[]),
        sig: m.sign(b"data").remove(0).sig,
    }];
    superseded.extend(m.sign(b"data"));
    assert!(m.verify(b"data", &superseded));
}
