//! Signing with several signature modules at once, and checking a set of
//! signatures: one per algorithm, every algorithm covered.

use vstd::prelude::*;
use std::sync::Arc;
use crate::ext::{base64url_encode, share};
use crate::module_sign::{
    alg_bytes, b_sig, material_bytes, typ_bytes, ModuleSign, SignPublicKey, SignSecretKey, Signature,
    VmSignature,
};
use crate::text::str_eq;

verus! {

/// A shared signature module, of any implementation.
pub struct DynModuleSign(pub Arc<Box<dyn ModuleSign>>);

impl Clone for DynModuleSign {
    fn clone(&self) -> (r: Self)
        ensures
            r == *self,
    {
        DynModuleSign(share(&self.0))
    }
}

impl DynModuleSign {
    /// The algorithm name.
    pub open spec fn alg_name(&self) -> Seq<char> {
        self.0.alg_name()
    }

    /// Signing `data` with the secret material succeeds.
    pub open spec fn sign_ok(&self, secret: Seq<u8>, data: Seq<u8>) -> bool {
        self.0.sign_ok(secret, data)
    }

    /// The public key and signature material are well formed.
    pub open spec fn verify_ok(&self, sig: Seq<u8>, pk: Seq<u8>, data: Seq<u8>) -> bool {
        self.0.verify_ok(sig, pk, data)
    }

    /// The signature checks against the public key.
    pub open spec fn verifies(&self, sig: Seq<u8>, pk: Seq<u8>, data: Seq<u8>) -> bool {
        self.0.verifies(sig, pk, data)
    }

    /// The public key material of the secret material.
    pub open spec fn public_of(&self, secret: Seq<u8>) -> Seq<u8> {
        self.0.public_of(secret)
    }

    /// The signature material that the secret material makes over `data`.
    pub open spec fn signature_of(&self, secret: Seq<u8>, data: Seq<u8>) -> Seq<u8> {
        self.0.signature_of(secret, data)
    }
}

/// The algorithm a signature names: the base64url text of its first three
/// bytes.
pub open spec fn sig_alg(v: VmSignature) -> Seq<char> {
    base64url_encode(alg_bytes(v.sig@))
}

/// A module with its key pair.
struct SignData {
    sign: DynModuleSign,
    sk: SignSecretKey,
    pk: SignPublicKey,
}

/// Signs with several signature modules, each with its own key pair.
pub struct MultiSign {
    sign: Vec<SignData>,
}

/// Some module is of the algorithm `a`.
pub open spec fn has_module(m: Seq<(DynModuleSign, Seq<u8>, Seq<u8>)>, a: Seq<char>) -> bool {
    exists|j: int| 0 <= j < m.len() && (#[trigger] m[j]).0.alg_name() == a
}

/// `j` is the last module of the algorithm `a`.
pub open spec fn last_module(m: Seq<(DynModuleSign, Seq<u8>, Seq<u8>)>, a: Seq<char>, j: int) -> bool {
    &&& 0 <= j < m.len()
    &&& m[j].0.alg_name() == a
    &&& forall|k: int| j < k < m.len() ==> (#[trigger] m[k]).0.alg_name() != a
}

/// Some signature names the algorithm `a`.
pub open spec fn has_sig(s: Seq<VmSignature>, a: Seq<char>) -> bool {
    exists|i: int| 0 <= i < s.len() && sig_alg(#[trigger] s[i]) == a
}

/// `s[i]` is the last signature of its algorithm.
pub open spec fn last_sig(s: Seq<VmSignature>, i: int) -> bool {
    &&& 0 <= i < s.len()
    &&& forall|k: int| i < k < s.len() ==> sig_alg(#[trigger] s[k]) != sig_alg(s[i])
}

/// The last signature of each algorithm checks, with its public key,
/// against the last module of that algorithm.
pub open spec fn last_sigs_verify(
    m: Seq<(DynModuleSign, Seq<u8>, Seq<u8>)>,
    s: Seq<VmSignature>,
    data: Seq<u8>,
) -> bool {
    forall|i: int, j: int|
        last_sig(s, i) && #[trigger] last_module(m, sig_alg(#[trigger] s[i]), j) ==> m[j].0.verifies(
            material_bytes(s[i].sig@),
            material_bytes(s[i].pk@),
            data,
        )
}

/// The signatures cover exactly the algorithms of the modules, and the
/// last of each algorithm checks.
pub open spec fn multi_verifies(
    m: Seq<(DynModuleSign, Seq<u8>, Seq<u8>)>,
    s: Seq<VmSignature>,
    data: Seq<u8>,
) -> bool {
    &&& forall|i: int| 0 <= i < s.len() ==> has_module(m, sig_alg(#[trigger] s[i]))
    &&& forall|j: int| 0 <= j < m.len() ==> has_sig(s, (#[trigger] m[j]).0.alg_name())
    &&& last_sigs_verify(m, s, data)
}

/// Checking the signatures cannot fail on their form: each signature
/// holds an algorithm, and the last signature of each algorithm that a
/// module has, with its key, holds a type and is well formed for the last
/// module of that algorithm. Other signatures and keys are not read.
pub open spec fn verify_safe(
    m: Seq<(DynModuleSign, Seq<u8>, Seq<u8>)>,
    s: Seq<VmSignature>,
    data: Seq<u8>,
) -> bool {
    &&& forall|i: int| 0 <= i < s.len() ==> (#[trigger] s[i]).sig@.len() >= 3
    &&& forall|i: int, j: int|
        last_sig(s, i) && #[trigger] last_module(m, sig_alg(#[trigger] s[i]), j) ==> s[i].sig@.len() >= 6
            && s[i].pk@.len() >= 6 && m[j].0.verify_ok(material_bytes(s[i].sig@), material_bytes(s[i].pk@), data)
}

impl MultiSign {
    /// The modules with their public and secret keys, in order.
    pub closed spec fn modules(&self) -> Seq<(DynModuleSign, Seq<u8>, Seq<u8>)> {
        self.sign@.map_values(|d: SignData| (d.sign, d.pk@, d.sk@))
    }

    /// No module yet.
    pub fn new() -> (r: Self)
        ensures
            r.modules() == Seq::<(DynModuleSign, Seq<u8>, Seq<u8>)>::empty(),
    {
        let r = MultiSign { sign: Vec::new() };
        proof {
            assert(r.modules() =~= Seq::<(DynModuleSign, Seq<u8>, Seq<u8>)>::empty());
        }
        r
    }

    /// Adds a signature module with its key pair.
    pub fn add_sign(&mut self, sign: DynModuleSign, sk: SignSecretKey, pk: SignPublicKey)
        ensures
            final(self).modules() == old(self).modules().push((sign, pk@, sk@)),
    {
        let ghost before = self.modules();
        self.sign.push(SignData { sign, sk, pk });
        proof {
            assert(self.modules() =~= before.push((sign, pk@, sk@)));
        }
    }

    /// The public keys, in order.
    pub fn public_keys(&self) -> (r: Vec<SignPublicKey>)
        ensures
            r@.len() == self.modules().len(),
            forall|i: int| 0 <= i < r@.len() ==> (#[trigger] r@[i])@ == self.modules()[i].1,
    {
        let mut out: Vec<SignPublicKey> = Vec::new();
        let mut i: usize = 0;
        while i < self.sign.len()
            invariant
                i <= self.sign@.len(),
                out@.len() == i,
                forall|k: int| 0 <= k < i ==> (#[trigger] out@[k])@ == self.modules()[k].1,
            decreases self.sign@.len() - i,
        {
            out.push(self.sign[i].pk.clone());
            i = i + 1;
        }
        out
    }

    /// Signs data with every module, in order: at each position the
    /// module's signature of the data under its secret key, with the
    /// module's public key; it checks against the public key of the secret.
    pub fn sign(&self, data: &[u8]) -> (r: Vec<VmSignature>)
        requires
            forall|i: int|
                0 <= i < self.modules().len() ==> (#[trigger] self.modules()[i]).2.len() >= 6
                    && self.modules()[i].0.sign_ok(material_bytes(self.modules()[i].2), data@),
        ensures
            r@.len() == self.modules().len(),
            forall|i: int|
                0 <= i < r@.len() ==> (#[trigger] r@[i]).pk@ == self.modules()[i].1 && typ_bytes(r@[i].sig@)
                    == b_sig() && r@[i].sig@.len() >= 6,
            forall|i: int| 0 <= i < r@.len() ==> sig_alg(#[trigger] r@[i]) == self.modules()[i].0.alg_name(),
            forall|i: int|
                0 <= i < r@.len() ==> material_bytes((#[trigger] r@[i]).sig@) == self.modules()[i].0.signature_of(
                    material_bytes(self.modules()[i].2),
                    data@,
                ) && self.modules()[i].0.verifies(
                    material_bytes(r@[i].sig@),
                    self.modules()[i].0.public_of(material_bytes(self.modules()[i].2)),
                    data@,
                ) && self.modules()[i].0.verify_ok(
                    material_bytes(r@[i].sig@),
                    self.modules()[i].0.public_of(material_bytes(self.modules()[i].2)),
                    data@,
                ),
    {
        let mut out: Vec<VmSignature> = Vec::new();
        let mut i: usize = 0;
        while i < self.sign.len()
            invariant
                i <= self.sign@.len(),
                out@.len() == i,
                forall|k: int|
                    0 <= k < self.modules().len() ==> (#[trigger] self.modules()[k]).2.len() >= 6
                        && self.modules()[k].0.sign_ok(material_bytes(self.modules()[k].2), data@),
                forall|k: int|
                    0 <= k < i ==> (#[trigger] out@[k]).pk@ == self.modules()[k].1 && typ_bytes(out@[k].sig@)
                        == b_sig() && out@[k].sig@.len() >= 6,
                forall|k: int| 0 <= k < i ==> sig_alg(#[trigger] out@[k]) == self.modules()[k].0.alg_name(),
                forall|k: int|
                    0 <= k < i ==> material_bytes((#[trigger] out@[k]).sig@) == self.modules()[k].0.signature_of(
                        material_bytes(self.modules()[k].2),
                        data@,
                    ) && self.modules()[k].0.verifies(
                        material_bytes(out@[k].sig@),
                        self.modules()[k].0.public_of(material_bytes(self.modules()[k].2)),
                        data@,
                    ) && self.modules()[k].0.verify_ok(
                        material_bytes(out@[k].sig@),
                        self.modules()[k].0.public_of(material_bytes(self.modules()[k].2)),
                        data@,
                    ),
            decreases self.sign@.len() - i,
        {
            let d = &self.sign[i];
            proof {
                assert(self.modules()[i as int].0 == d.sign);
            }
            let sig = d.sign.0.sign(&d.sk, data);
            out.push(VmSignature { pk: d.pk.clone(), sig });
            i = i + 1;
        }
        out
    }

    /// The last module of an algorithm, if any.
    fn find_last_module(&self, a: &str) -> (r: Option<usize>)
        ensures
            r is None <==> !has_module(self.modules(), a@),
            r matches Some(j) ==> last_module(self.modules(), a@, j as int),
    {
        let mut i: usize = self.sign.len();
        while i > 0
            invariant
                i <= self.sign@.len(),
                forall|k: int| i <= k < self.modules().len() ==> (#[trigger] self.modules()[k]).0.alg_name() != a@,
            decreases i,
        {
            let j = i - 1;
            proof {
                assert(self.modules()[j as int].0 == self.sign@[j as int].sign);
            }
            if str_eq(self.sign[j].sign.0.alg(), a) {
                return Some(j);
            }
            i = j;
        }
        None
    }

    /// Verifies signatures over data: every signature names the algorithm
    /// of some module, every module's algorithm has a signature, and the
    /// last signature of each algorithm checks against the last module of
    /// that algorithm.
    pub fn verify(&self, data: &[u8], sigs: &[VmSignature]) -> (r: bool)
        requires
            verify_safe(self.modules(), sigs@, data@),
        ensures
            r == multi_verifies(self.modules(), sigs@, data@),
    {
        let ghost m = self.modules();
        let mut i: usize = 0;
        while i < sigs.len()
            invariant
                m == self.modules(),
                i <= sigs@.len(),
                verify_safe(m, sigs@, data@),
                forall|k: int| 0 <= k < i ==> has_module(m, sig_alg(#[trigger] sigs@[k])),
            decreases sigs@.len() - i,
        {
            let a = sigs[i].sig.alg();
            if self.find_last_module(a.as_str()).is_none() {
                return false;
            }
            i = i + 1;
        }
        let mut j: usize = 0;
        while j < self.sign.len()
            invariant
                m == self.modules(),
                j <= self.sign@.len(),
                verify_safe(m, sigs@, data@),
                forall|k: int| 0 <= k < sigs@.len() ==> has_module(m, sig_alg(#[trigger] sigs@[k])),
                forall|k: int| 0 <= k < j ==> has_sig(sigs@, (#[trigger] m[k]).0.alg_name()),
            decreases self.sign@.len() - j,
        {
            let name = self.sign[j].sign.0.alg();
            proof {
                assert(m[j as int].0 == self.sign@[j as int].sign);
            }
            let mut found = false;
            let mut k: usize = 0;
            while k < sigs.len()
                invariant
                    k <= sigs@.len(),
                    verify_safe(m, sigs@, data@),
                    found ==> has_sig(sigs@, name@),
                    !found ==> forall|q: int| 0 <= q < k ==> sig_alg(#[trigger] sigs@[q]) != name@,
                decreases sigs@.len() - k,
            {
                let a = sigs[k].sig.alg();
                if str_eq(a.as_str(), name) {
                    found = true;
                }
                k = k + 1;
            }
            if !found {
                return false;
            }
            j = j + 1;
        }
        let mut i: usize = 0;
        while i < sigs.len()
            invariant
                m == self.modules(),
                i <= sigs@.len(),
                verify_safe(m, sigs@, data@),
                forall|k: int| 0 <= k < sigs@.len() ==> has_module(m, sig_alg(#[trigger] sigs@[k])),
                forall|k: int| 0 <= k < m.len() ==> has_sig(sigs@, (#[trigger] m[k]).0.alg_name()),
                forall|p: int, q: int|
                    0 <= p < i && last_sig(sigs@, p) && #[trigger] last_module(m, sig_alg(#[trigger] sigs@[p]), q)
                        ==> m[q].0.verifies(material_bytes(sigs@[p].sig@), material_bytes(sigs@[p].pk@), data@),
            decreases sigs@.len() - i,
        {
            let a = sigs[i].sig.alg();
            let mut last = true;
            let mut k: usize = i + 1;
            while k < sigs.len()
                invariant
                    i < k <= sigs@.len(),
                    a@ == sig_alg(sigs@[i as int]),
                    verify_safe(m, sigs@, data@),
                    last <==> forall|q: int| i < q < k ==> sig_alg(#[trigger] sigs@[q]) != a@,
                decreases sigs@.len() - k,
            {
                let b = sigs[k].sig.alg();
                if str_eq(b.as_str(), a.as_str()) {
                    last = false;
                }
                k = k + 1;
            }
            if last {
                match self.find_last_module(a.as_str()) {
                    Some(q) => {
                        let d = &self.sign[q];
                        proof {
                            assert(m[q as int].0 == d.sign);
                            assert(last_sig(sigs@, i as int));
                        }
                        if !d.sign.0.verify(&sigs[i].sig, &sigs[i].pk, data) {
                            proof {
                                assert(last_module(m, sig_alg(sigs@[i as int]), q as int));
                            }
                            return false;
                        }
                        proof {
                            assert forall|p: int, q2: int|
                                0 <= p < i + 1 && last_sig(sigs@, p) && #[trigger] last_module(
                                    m,
                                    sig_alg(#[trigger] sigs@[p]),
                                    q2,
                                ) implies m[q2].0.verifies(
                                material_bytes(sigs@[p].sig@),
                                material_bytes(sigs@[p].pk@),
                                data@,
                            ) by {
                                if p == i {
                                    lemma_last_module_unique(m, a@, q as int, q2);
                                }
                            }
                        }
                    },
                    None => {
                        return false;
                    },
                }
            }
            i = i + 1;
        }
        true
    }
}

proof fn lemma_last_module_unique(m: Seq<(DynModuleSign, Seq<u8>, Seq<u8>)>, a: Seq<char>, j: int, k: int)
    requires
        last_module(m, a, j),
        last_module(m, a, k),
    ensures
        j == k,
{
    if j < k {
        assert(m[k].0.alg_name() != a);
    } else if k < j {
        assert(m[j].0.alg_name() != a);
    }
}

/// Law (what is signed verifies): with modules of distinct algorithms,
/// each holding the public key of its secret, the signatures that
/// [MultiSign::sign] gives (one per module, in order, each naming its
/// module's algorithm, well formed for it and checking against the public
/// key of its secret) can be checked and verify.
pub proof fn law_signed_verifies(
    m: Seq<(DynModuleSign, Seq<u8>, Seq<u8>)>,
    s: Seq<VmSignature>,
    data: Seq<u8>,
)
    requires
        forall|a: int, b: int| 0 <= a < m.len() && 0 <= b < m.len() && a != b ==> (#[trigger] m[a]).0.alg_name()
            != (#[trigger] m[b]).0.alg_name(),
        forall|i: int| 0 <= i < m.len() ==> material_bytes((#[trigger] m[i]).1) == m[i].0.public_of(
            material_bytes(m[i].2),
        ),
        s.len() == m.len(),
        forall|i: int| 0 <= i < m.len() ==> (#[trigger] m[i]).1.len() >= 6,
        forall|i: int| 0 <= i < s.len() ==> (#[trigger] s[i]).pk@ == m[i].1 && sig_alg(s[i]) == m[i].0.alg_name()
            && s[i].sig@.len() >= 6
            && m[i].0.verifies(material_bytes(s[i].sig@), m[i].0.public_of(material_bytes(m[i].2)), data)
            && m[i].0.verify_ok(material_bytes(s[i].sig@), m[i].0.public_of(material_bytes(m[i].2)), data),
    ensures
        verify_safe(m, s, data),
        multi_verifies(m, s, data),
{
    assert forall|i: int, j: int|
        last_sig(s, i) && #[trigger] last_module(m, sig_alg(#[trigger] s[i]), j) implies s[i].sig@.len() >= 6
            && s[i].pk@.len() >= 6 && m[j].0.verify_ok(material_bytes(s[i].sig@), material_bytes(s[i].pk@), data) by {
        assert(sig_alg(s[i]) == m[i].0.alg_name());
        if j != i {
            assert(m[j].0.alg_name() == m[i].0.alg_name());
        }
    }
    assert forall|i: int| 0 <= i < s.len() implies has_module(m, sig_alg(#[trigger] s[i])) by {
        assert(m[i].0.alg_name() == sig_alg(s[i]));
    }
    assert forall|j: int| 0 <= j < m.len() implies has_sig(s, (#[trigger] m[j]).0.alg_name()) by {
        assert(sig_alg(s[j]) == m[j].0.alg_name());
    }
    assert forall|i: int, j: int|
        last_sig(s, i) && #[trigger] last_module(m, sig_alg(#[trigger] s[i]), j) implies m[j].0.verifies(
            material_bytes(s[i].sig@),
            material_bytes(s[i].pk@),
            data,
        ) by {
        assert(sig_alg(s[i]) == m[i].0.alg_name());
        if j != i {
            assert(m[j].0.alg_name() == m[i].0.alg_name());
        }
    }
}

} // verus!
