//! The registry of signing algorithms, and verifiers that check a list of
//! signatures, one per algorithm.

use vstd::prelude::*;
use crate::crypto::{CryptoSign, CryptoSignP256, CryptoSignSecret, DynCryptoSign};
use crate::error::{Error, ErrorKind, Result};
use crate::text::concat;
use crate::text::str_eq;

verus! {

/// No two entries name the same algorithm.
pub open spec fn names_unique(s: Seq<DynCryptoSign>) -> bool {
    forall|i: int, j: int|
        0 <= i < j < s.len() ==> #[trigger] s[i].alg_name() != #[trigger] s[j].alg_name()
}

/// Some entry of `s` names the algorithm `n`.
pub open spec fn names(s: Seq<DynCryptoSign>, n: Seq<char>) -> bool {
    exists|i: int| 0 <= i < s.len() && #[trigger] s[i].alg_name() == n
}

/// `s[i]` is the last entry of `s` that names its algorithm.
pub open spec fn last_of_name(s: Seq<DynCryptoSign>, i: int) -> bool {
    &&& 0 <= i < s.len()
    &&& forall|j: int| i < j < s.len() ==> #[trigger] s[j].alg_name() != s[i].alg_name()
}

/// Registry for available crypto signing algorithms: one entry per
/// algorithm name.
pub struct CryptoSignRegistry {
    list: Vec<DynCryptoSign>,
}

impl Default for CryptoSignRegistry {
    /// The registry of the algorithms the library holds: the P-256 module
    /// alone (see [CryptoSignRegistry::default_registry]).
    fn default() -> (r: Self)
        ensures
            r.wf(),
            r.entries().len() == 1,
            forall|n: Seq<char>| #[trigger] r.lookup(n) == (if n == r.entries()[0].alg_name() {
                Some(r.entries()[0])
            } else {
                None
            }),
    {
        CryptoSignRegistry::default_registry()
    }
}

impl CryptoSignRegistry {
    /// The registered entries.
    pub closed spec fn entries(&self) -> Seq<DynCryptoSign> {
        self.list@
    }

    /// The registry is well formed: one entry per algorithm name.
    pub open spec fn wf(&self) -> bool {
        names_unique(self.entries())
    }

    /// The entry registered under the algorithm name `n`, if any.
    pub open spec fn lookup(&self, n: Seq<char>) -> Option<DynCryptoSign> {
        if names(self.entries(), n) {
            Some(self.entries()[choose|i: int| 0 <= i < self.entries().len()
                && #[trigger] self.entries()[i].alg_name() == n])
        } else {
            None
        }
    }

    /// The registry of the algorithms the library holds: the P-256 module
    /// (named `p256`) alone. The name is that module's; it is given here
    /// through the shared trait object, whose implementation Verus does not
    /// follow, so the contract speaks of the one module registered.
    pub fn default_registry() -> (r: Self)
        ensures
            r.wf(),
            r.entries().len() == 1,
            forall|n: Seq<char>| #[trigger] r.lookup(n) == (if n == r.entries()[0].alg_name() {
                Some(r.entries()[0])
            } else {
                None
            }),
    {
        let b: Box<dyn CryptoSign> = Box::new(CryptoSignP256);
        let d = DynCryptoSign(std::sync::Arc::new(b));
        let mut v: Vec<DynCryptoSign> = Vec::new();
        v.push(d);
        let r = CryptoSignRegistry { list: v };
        proof {
            let e = r.entries();
            assert(e.len() == 1);
            assert forall|n: Seq<char>| #[trigger] r.lookup(n) == (if n == e[0].alg_name() { Some(e[0]) } else { None }) by {
                if n == e[0].alg_name() {
                    assert(names(e, n));
                    let k = choose|i: int| 0 <= i < e.len() && #[trigger] e[i].alg_name() == n;
                    assert(k == 0);
                }
            }
        }
        r
    }

    /// Constructs a registry from a list of algorithms; where two name the
    /// same algorithm, the later one is kept.
    pub fn new(s: Vec<DynCryptoSign>) -> (r: Self)
        ensures
            r.wf(),
            forall|n: Seq<char>| #[trigger] r.lookup(n) is Some <==> names(s@, n),
            forall|i: int| last_of_name(s@, i) ==> r.lookup(#[trigger] s@[i].alg_name()) == Some(s@[i]),
    {
        let ghost sq = s@;
        let mut list: Vec<DynCryptoSign> = Vec::new();
        for item in it: s
            invariant
                it.seq() == sq,
                names_unique(list@),
                forall|n: Seq<char>| names(list@, n) <==> named_before(sq, it.index() as int, n),
                forall|i: int|
                    #[trigger] last_before(sq, it.index() as int, i) ==> exists|j: int|
                        0 <= j < list@.len() && #[trigger] list@[j] == sq[i],
        {
            let ghost k = it.index() as int;
            let name = item.alg();
            let mut found: Option<usize> = None;
            let mut j: usize = 0;
            while j < list.len()
                invariant
                    j <= list@.len(),
                    name@ == item.alg_name(),
                    found matches Some(f) ==> (f < list@.len() && list@[f as int].alg_name() == name@),
                    found is None ==> forall|m: int|
                        0 <= m < j ==> #[trigger] list@[m].alg_name() != name@,
                decreases list@.len() - j,
            {
                if found.is_none() && str_eq(list[j].alg(), name) {
                    found = Some(j);
                }
                j = j + 1;
            }
            let ghost old_list = list@;
            match found {
                Some(f) => {
                    list.set(f, item);
                    proof {
                        lemma_register_replace(sq, k, old_list, list@, f as int);
                    }
                },
                None => {
                    list.push(item);
                    proof {
                        lemma_register_push(sq, k, old_list, list@);
                    }
                },
            }
        }
        proof {
            assert forall|n: Seq<char>| names(list@, n) <==> names(sq, n) by {
                assert(names(sq, n) <==> named_before(sq, sq.len() as int, n));
            }
            assert forall|i: int| last_of_name(sq, i) implies exists|j: int|
                0 <= j < list@.len() && #[trigger] list@[j] == sq[i] by {
                assert(last_before(sq, sq.len() as int, i));
            }
        }
        let r = CryptoSignRegistry { list };
        proof {
            assert forall|i: int| last_of_name(sq, i) implies r.lookup(
                #[trigger] sq[i].alg_name(),
            ) == Some(sq[i]) by {
                assert(last_before(sq, sq.len() as int, i));
                let j = choose|j: int| 0 <= j < list@.len() && #[trigger] list@[j] == sq[i];
                let n = sq[i].alg_name();
                assert(names(r.entries(), n));
                let c = choose|c: int| 0 <= c < r.entries().len() && #[trigger] r.entries()[c].alg_name() == n;
                if c != j {
                    if c < j {
                        assert(r.entries()[c].alg_name() != r.entries()[j].alg_name());
                    } else {
                        assert(r.entries()[j].alg_name() != r.entries()[c].alg_name());
                    }
                }
            }
        }
        r
    }

    /// Lists the available algorithms: every registered name, once each.
    pub fn alg_list(&self) -> (r: Vec<&'static str>)
        requires
            self.wf(),
        ensures
            r@.len() == self.entries().len(),
            forall|i: int| 0 <= i < r@.len() ==> (#[trigger] r@[i])@ == self.entries()[i].alg_name(),
            forall|i: int| 0 <= i < r@.len() ==> self.lookup((#[trigger] r@[i])@) is Some,
            forall|n: Seq<char>| #[trigger] self.lookup(n) is Some ==> exists|i: int|
                0 <= i < r@.len() && (#[trigger] r@[i])@ == n,
            forall|i: int, j: int| 0 <= i < j < r@.len() ==> (#[trigger] r@[i])@ != (#[trigger] r@[j])@,
    {
        let mut out: Vec<&'static str> = Vec::new();
        let mut i: usize = 0;
        while i < self.list.len()
            invariant
                i <= self.list@.len(),
                out@.len() == i,
                forall|m: int| 0 <= m < i ==> (#[trigger] out@[m])@ == self.list@[m].alg_name(),
            decreases self.list@.len() - i,
        {
            out.push(self.list[i].alg());
            i = i + 1;
        }
        proof {
            assert forall|m: int| 0 <= m < out@.len() implies self.lookup((#[trigger] out@[m])@) is Some by {
                assert(self.entries()[m].alg_name() == out@[m]@);
            }
            assert forall|n: Seq<char>| #[trigger] self.lookup(n) is Some implies exists|m: int|
                0 <= m < out@.len() && (#[trigger] out@[m])@ == n by {
                let m = choose|m: int| 0 <= m < self.entries().len() && #[trigger] self.entries()[m].alg_name() == n;
                assert(out@[m]@ == n);
            }
            assert forall|a: int, b: int| 0 <= a < b < out@.len() implies (#[trigger] out@[a])@
                != (#[trigger] out@[b])@ by {
                assert(self.entries()[a].alg_name() != self.entries()[b].alg_name());
            }
        }
        out
    }

    /// The algorithm registered under a name, if any.
    pub fn crypto(&self, alg: &str) -> (r: Option<&DynCryptoSign>)
        requires
            self.wf(),
        ensures
            r is None <==> self.lookup(alg@) is None,
            r matches Some(d) ==> self.lookup(alg@) == Some(*d),
    {
        let mut i: usize = 0;
        while i < self.list.len()
            invariant
                self.wf(),
                i <= self.list@.len(),
                forall|m: int| 0 <= m < i ==> (#[trigger] self.list@[m]).alg_name() != alg@,
            decreases self.list@.len() - i,
        {
            if str_eq(self.list[i].alg(), alg) {
                proof {
                    let c = choose|c: int| 0 <= c < self.entries().len()
                        && #[trigger] self.entries()[c].alg_name() == alg@;
                    if c != i {
                        if c < i {
                            assert(self.entries()[c].alg_name() != self.entries()[i as int].alg_name());
                        } else {
                            assert(self.entries()[i as int].alg_name() != self.entries()[c].alg_name());
                        }
                    }
                }
                return Some(&self.list[i]);
            }
            i = i + 1;
        }
        None
    }
}

impl Clone for CryptoSignRegistry {
    fn clone(&self) -> (r: Self)
        ensures
            r.entries() == self.entries(),
    {
        let mut list: Vec<DynCryptoSign> = Vec::new();
        let mut i: usize = 0;
        while i < self.list.len()
            invariant
                i <= self.list@.len(),
                list@ == self.list@.take(i as int),
            decreases self.list@.len() - i,
        {
            list.push(self.list[i].clone());
            proof {
                assert(self.list@.take(i + 1) =~= self.list@.take(i as int).push(self.list@[i as int]));
            }
            i = i + 1;
        }
        proof {
            assert(self.list@.take(self.list@.len() as int) =~= self.list@);
        }
        CryptoSignRegistry { list }
    }
}

/// Some entry of `s` before index `k` names the algorithm `n`.
pub open spec fn named_before(s: Seq<DynCryptoSign>, k: int, n: Seq<char>) -> bool {
    exists|i: int| 0 <= i < k && #[trigger] s[i].alg_name() == n
}

/// `s[i]` is the last entry before index `k` that names its algorithm.
pub open spec fn last_before(s: Seq<DynCryptoSign>, k: int, i: int) -> bool {
    &&& 0 <= i < k
    &&& forall|j: int| i < j < k ==> #[trigger] s[j].alg_name() != s[i].alg_name()
}

/// Registering `s[k]` over the entry `f` of the same name keeps the
/// registry's invariant.
proof fn lemma_register_replace(
    s: Seq<DynCryptoSign>,
    k: int,
    old_list: Seq<DynCryptoSign>,
    list: Seq<DynCryptoSign>,
    f: int,
)
    requires
        0 <= k < s.len(),
        0 <= f < old_list.len(),
        old_list[f].alg_name() == s[k].alg_name(),
        list == old_list.update(f, s[k]),
        names_unique(old_list),
        forall|n: Seq<char>| names(old_list, n) <==> named_before(s, k, n),
        forall|i: int|
            #[trigger] last_before(s, k, i) ==> exists|j: int|
                0 <= j < old_list.len() && #[trigger] old_list[j] == s[i],
    ensures
        names_unique(list),
        forall|n: Seq<char>| names(list, n) <==> named_before(s, k + 1, n),
        forall|i: int|
            #[trigger] last_before(s, k + 1, i) ==> exists|j: int|
                0 <= j < list.len() && #[trigger] list[j] == s[i],
{
    assert forall|a: int, b: int| 0 <= a < b < list.len() implies #[trigger] list[a].alg_name()
        != #[trigger] list[b].alg_name() by {
        assert(old_list[a].alg_name() != old_list[b].alg_name());
    }
    assert forall|n: Seq<char>| names(list, n) <==> named_before(s, k + 1, n) by {
        if names(list, n) {
            let j = choose|j: int| 0 <= j < list.len() && #[trigger] list[j].alg_name() == n;
            if j == f {
                assert(s[k].alg_name() == n);
            } else {
                assert(old_list[j].alg_name() == n);
                assert(names(old_list, n));
                let i = choose|i: int| 0 <= i < k && #[trigger] s[i].alg_name() == n;
                assert(s[i].alg_name() == n);
            }
        }
        if named_before(s, k + 1, n) {
            let i = choose|i: int| 0 <= i < k + 1 && #[trigger] s[i].alg_name() == n;
            if i == k {
                assert(list[f].alg_name() == n);
            } else {
                assert(named_before(s, k, n));
                assert(names(old_list, n));
                let j = choose|j: int| 0 <= j < old_list.len() && #[trigger] old_list[j].alg_name() == n;
                if j == f {
                    assert(list[f].alg_name() == n);
                } else {
                    assert(list[j].alg_name() == n);
                }
            }
        }
    }
    assert forall|i: int| #[trigger] last_before(s, k + 1, i) implies exists|j: int|
        0 <= j < list.len() && #[trigger] list[j] == s[i] by {
        if i == k {
            assert(list[f] == s[k]);
        } else {
            assert(s[k].alg_name() != s[i].alg_name());
            assert(last_before(s, k, i));
            let j = choose|j: int| 0 <= j < old_list.len() && #[trigger] old_list[j] == s[i];
            assert(j != f);
            assert(list[j] == s[i]);
        }
    }
}

/// Registering `s[k]`, whose name no entry has, at the end keeps the
/// registry's invariant.
proof fn lemma_register_push(
    s: Seq<DynCryptoSign>,
    k: int,
    old_list: Seq<DynCryptoSign>,
    list: Seq<DynCryptoSign>,
)
    requires
        0 <= k < s.len(),
        forall|m: int| 0 <= m < old_list.len() ==> #[trigger] old_list[m].alg_name() != s[k].alg_name(),
        list == old_list.push(s[k]),
        names_unique(old_list),
        forall|n: Seq<char>| names(old_list, n) <==> named_before(s, k, n),
        forall|i: int|
            #[trigger] last_before(s, k, i) ==> exists|j: int|
                0 <= j < old_list.len() && #[trigger] old_list[j] == s[i],
    ensures
        names_unique(list),
        forall|n: Seq<char>| names(list, n) <==> named_before(s, k + 1, n),
        forall|i: int|
            #[trigger] last_before(s, k + 1, i) ==> exists|j: int|
                0 <= j < list.len() && #[trigger] list[j] == s[i],
{
    let last = old_list.len() as int;
    assert forall|a: int, b: int| 0 <= a < b < list.len() implies #[trigger] list[a].alg_name()
        != #[trigger] list[b].alg_name() by {
        if b == last {
            assert(old_list[a].alg_name() != s[k].alg_name());
        } else {
            assert(old_list[a].alg_name() != old_list[b].alg_name());
        }
    }
    assert forall|n: Seq<char>| names(list, n) <==> named_before(s, k + 1, n) by {
        if names(list, n) {
            let j = choose|j: int| 0 <= j < list.len() && #[trigger] list[j].alg_name() == n;
            if j == last {
                assert(s[k].alg_name() == n);
            } else {
                assert(old_list[j].alg_name() == n);
                assert(names(old_list, n));
                let i = choose|i: int| 0 <= i < k && #[trigger] s[i].alg_name() == n;
                assert(s[i].alg_name() == n);
            }
        }
        if named_before(s, k + 1, n) {
            let i = choose|i: int| 0 <= i < k + 1 && #[trigger] s[i].alg_name() == n;
            if i == k {
                assert(list[last].alg_name() == n);
            } else {
                assert(named_before(s, k, n));
                assert(names(old_list, n));
                let j = choose|j: int| 0 <= j < old_list.len() && #[trigger] old_list[j].alg_name() == n;
                assert(list[j].alg_name() == n);
            }
        }
    }
    assert forall|i: int| #[trigger] last_before(s, k + 1, i) implies exists|j: int|
        0 <= j < list.len() && #[trigger] list[j] == s[i] by {
        if i == k {
            assert(list[last] == s[k]);
        } else {
            assert(last_before(s, k, i));
            let j = choose|j: int| 0 <= j < old_list.len() && #[trigger] old_list[j] == s[i];
            assert(list[j] == s[i]);
        }
    }
}

/// The bytes of each hash in a list.
pub open spec fn hash_views(s: Seq<crate::hash::Hash>) -> Seq<Seq<u8>> {
    s.map_values(|h: crate::hash::Hash| h@)
}

/// One signature per item, in order, each over `hash` and accepted by the
/// item's algorithm under the item's public key; at least one signature.
pub open spec fn all_accept(
    items: Seq<(DynCryptoSign, Seq<u8>)>,
    sigs: Seq<Seq<u8>>,
    hash: Seq<u8>,
) -> bool {
    &&& sigs.len() > 0
    &&& sigs.len() == items.len()
    &&& hash.len() == 64
    &&& forall|i: int| 0 <= i < sigs.len() ==> #[trigger] items[i].0.accepts(items[i].1, sigs[i], hash)
}

/// An algorithm and a public key to verify with.
struct VerifierItem {
    sign: DynCryptoSign,
    pk: crate::hash::Hash,
}

/// A verifier of signature lists: one public key per algorithm.
pub struct CryptoVerifier {
    verify_list: Vec<VerifierItem>,
}

/// A public key of the system user: the algorithm name and the key.
pub struct SysPk {
    /// The algorithm name.
    pub a: String,
    /// The public key.
    pub p: crate::hash::Hash,
}

/// The system user's public key list names each key's algorithm and
/// public key, in order.
pub open spec fn syspk_matches(pks: Seq<SysPk>, keys: Seq<(DynCryptoSign, Seq<u8>, Seq<u8>)>) -> bool {
    &&& pks.len() == keys.len()
    &&& forall|i: int| 0 <= i < pks.len() ==> (#[trigger] pks[i]).a@ == keys[i].0.alg_name() && pks[i].p@ == keys[i].1
}

/// The identity of a system user: the SHA-512 hash of its encoded public
/// key list, truncated to 24 bytes.
pub open spec fn sysuser_ident_of(syspk: Seq<u8>) -> Seq<u8> {
    crate::ext::sha512(syspk).take(24)
}

/// The identity of a system user from its encoded public key list.
pub fn sysuser_ident(syspk: &[u8]) -> (r: crate::hash::Hash)
    ensures
        r@ == sysuser_ident_of(syspk@),
{
    crate::hash::Hash::sha2_512(syspk).truncated(24)
}

/// The verification items that a list of system public keys resolves to
/// in a registry.
pub open spec fn resolved(registry: CryptoSignRegistry, keys: Seq<SysPk>) -> Seq<(DynCryptoSign, Seq<u8>)> {
    keys.map_values(|k: SysPk| (registry.lookup(k.a@)->0, k.p@))
}

impl CryptoVerifier {
    /// The algorithms and public keys, in order.
    pub closed spec fn items(&self) -> Seq<(DynCryptoSign, Seq<u8>)> {
        self.verify_list@.map_values(|i: VerifierItem| (i.sign, i.pk@))
    }

    /// Verifies a list of signatures over prehashed data: one signature per
    /// public key, in order, each accepted.
    pub fn verify_prehashed_512_bits(&self, sigs: &Vec<crate::hash::Hash>, hash: &[u8]) -> (r: Result<()>)
        ensures
            r is Ok <==> all_accept(self.items(), hash_views(sigs@), hash@),
            (sigs@.len() == 0 || sigs@.len() != self.items().len()) ==> (r matches Err(e) && e.kind
                == ErrorKind::Other),
    {
        if sigs.len() == 0 || sigs.len() != self.verify_list.len() {
            return Err(Error::other("signature count mismatch"));
        }
        let mut i: usize = 0;
        while i < sigs.len()
            invariant
                sigs@.len() == self.verify_list@.len() > 0,
                i <= sigs@.len(),
                forall|m: int|
                    0 <= m < i ==> hash@.len() == 64 && #[trigger] self.items()[m].0.accepts(
                        self.items()[m].1,
                        hash_views(sigs@)[m],
                        hash@,
                    ),
            decreases sigs@.len() - i,
        {
            let item = &self.verify_list[i];
            match item.sign.verify_prehashed_512_bits(&item.pk, &sigs[i], hash) {
                Ok(()) => {},
                Err(e) => {
                    proof {
                        assert(!self.items()[i as int].0.accepts(
                            self.items()[i as int].1,
                            hash_views(sigs@)[i as int],
                            hash@,
                        ) || hash@.len() != 64);
                    }
                    return Err(e);
                },
            }
            i = i + 1;
        }
        proof {
            assert(self.items().len() == sigs@.len());
            assert(hash_views(sigs@).len() == sigs@.len());
            assert(self.items()[0].0.accepts(self.items()[0].1, hash_views(sigs@)[0], hash@));
        }
        Ok(())
    }

    /// Constructs a verifier from the system user's public keys and checks
    /// the system user's signatures over its SHA-512 hash. No keys (`None`)
    /// and an algorithm that the registry lacks are refused (`Other`).
    pub fn with_sysuser(
        registry: &CryptoSignRegistry,
        syspk: Option<Vec<SysPk>>,
        signature: &Vec<crate::hash::Hash>,
        sha512: &crate::hash::Hash,
    ) -> (r: Result<Self>)
        requires
            registry.wf(),
        ensures
            syspk is None ==> (r matches Err(e) && e.kind == ErrorKind::Other),
            syspk matches Some(keys) ==> {
                if exists|i: int| 0 <= i < keys@.len() && registry.lookup((#[trigger] keys@[i]).a@) is None {
                    r matches Err(e) && e.kind == ErrorKind::Other
                } else {
                    &&& (r is Ok <==> all_accept(resolved(*registry, keys@), hash_views(signature@), sha512@))
                    &&& (r matches Ok(v) ==> v.items() == resolved(*registry, keys@))
                }
            },
    {
        let ghost given = syspk;
        let keys = match syspk {
            Some(k) => k,
            None => {
                return Err(Error::other("invalid sysuser (no syspk app data)"));
            },
        };
        let ghost ks = keys@;
        assert(given matches Some(g) && g@ == ks);
        let mut verify_list: Vec<VerifierItem> = Vec::new();
        for k in it: keys
            invariant
                it.seq() == ks,
                given matches Some(g) && g@ == ks,
                syspk == given,
                registry.wf(),
                verify_list@.len() == it.index(),
                forall|m: int| 0 <= m < it.index() ==> registry.lookup((#[trigger] ks[m]).a@) is Some,
                forall|m: int|
                    0 <= m < it.index() ==> (#[trigger] verify_list@[m]).sign == registry.lookup(ks[m].a@)->0
                        && verify_list@[m].pk@ == ks[m].p@,
        {
            match registry.crypto(k.a.as_str()) {
                Some(sign) => {
                    verify_list.push(VerifierItem { sign: sign.clone(), pk: k.p });
                },
                None => {
                    proof {
                        let w = it.index() as int;
                        assert(0 <= w < ks.len());
                        assert(registry.lookup(ks[w].a@) is None);
                        assert(exists|i: int| 0 <= i < ks.len() && registry.lookup((#[trigger] ks[i]).a@) is None);
                    }
                    let msg = concat("invalid signing algorithm: ", k.a.as_str());
                    return Err(Error::other(msg.as_str()));
                },
            }
        }
        let this = CryptoVerifier { verify_list };
        proof {
            assert(this.items() =~= resolved(*registry, ks));
        }
        match this.verify_prehashed_512_bits(signature, sha512.as_bytes()) {
            Ok(()) => Ok(this),
            Err(e) => Err(e),
        }
    }
}

/// A secret key of the system user: the algorithm name, the public key and
/// the secret.
pub struct SecretKey {
    /// The algorithm name.
    pub a: String,
    /// The public key.
    pub p: crate::hash::Hash,
    /// The secret.
    pub s: Vec<u8>,
}

/// A signed record: the encoded data, its SHA-512 hash, and one signature
/// over that hash per signing algorithm.
pub struct SignedData {
    /// The encoded data.
    pub data: Vec<u8>,
    /// The SHA-512 hash of the data.
    pub sha512: crate::hash::Hash,
    /// The signatures, one per algorithm of the signer.
    pub signature: Vec<crate::hash::Hash>,
}

impl SignedData {
    /// The short hash of the record: its SHA-512 hash truncated to 24
    /// bytes.
    pub fn short(&self) -> (r: crate::hash::Hash)
        requires
            self.sha512@.len() >= 24,
        ensures
            r@ == self.sha512@.take(24),
    {
        self.sha512.truncated(24)
    }

    /// The canonical identity of the record: the identity it names, else
    /// its short hash.
    pub fn canon_ident(&self, ident: &Option<crate::hash::Hash>) -> (r: crate::hash::Hash)
        requires
            self.sha512@.len() >= 24,
        ensures
            r@ == match ident {
                Some(i) => i@,
                None => self.sha512@.take(24),
            },
    {
        match ident {
            Some(i) => i.clone(),
            None => self.short(),
        }
    }

    /// An empty record: no data, no hash, no signature.
    pub fn empty() -> (r: Self)
        ensures
            r.data@.len() == 0,
            r.sha512@.len() == 0,
            r.signature@.len() == 0,
    {
        SignedData { data: Vec::new(), sha512: crate::hash::Hash::from_vec(Vec::new()), signature: Vec::new() }
    }
}

/// An algorithm with the key pair it signs with.
struct SignerItem {
    sign: DynCryptoSign,
    sk: CryptoSignSecret,
    pk: crate::hash::Hash,
}

/// A signer that makes one signature per algorithm, with the system user
/// record and the verifier of its signatures.
pub struct CryptoSigner {
    sign_list: Vec<SignerItem>,
    sysuser: SignedData,
    verifier: CryptoVerifier,
}

impl CryptoSigner {
    /// The algorithms with their public and secret keys, in order.
    pub closed spec fn keys(&self) -> Seq<(DynCryptoSign, Seq<u8>, Seq<u8>)> {
        self.sign_list@.map_values(|i: SignerItem| (i.sign, i.pk@, i.sk@))
    }

    /// The encoded data of the system user record.
    pub closed spec fn sysuser_data(&self) -> Seq<u8> {
        self.sysuser.data@
    }

    /// The SHA-512 hash held in the system user record.
    pub closed spec fn sysuser_sha512(&self) -> Seq<u8> {
        self.sysuser.sha512@
    }

    /// The signatures held in the system user record.
    pub closed spec fn sysuser_signature(&self) -> Seq<Seq<u8>> {
        hash_views(self.sysuser.signature@)
    }

    /// The verifier of this signer.
    pub closed spec fn verifier_items(&self) -> Seq<(DynCryptoSign, Seq<u8>)> {
        self.verifier.items()
    }

    /// Every algorithm's secret signs `hash` successfully.
    pub open spec fn all_sign(&self, hash: Seq<u8>) -> bool {
        forall|i: int|
            0 <= i < self.keys().len() ==> #[trigger] self.keys()[i].0.signs_ok(self.keys()[i].2, hash)
    }

    /// The verifier checks exactly this signer's algorithms and public
    /// keys, and each public key belongs to its secret.
    pub open spec fn paired(&self) -> bool {
        &&& self.verifier_items().len() == self.keys().len()
        &&& forall|i: int|
            0 <= i < self.keys().len() ==> #[trigger] self.verifier_items()[i] == (
                self.keys()[i].0,
                self.keys()[i].1,
            )
        &&& forall|i: int|
            0 <= i < self.keys().len() ==> #[trigger] self.keys()[i].0.key_pair(
                self.keys()[i].1,
                self.keys()[i].2,
            )
    }

    /// Generates a signer: a key pair for each algorithm, in order, and the
    /// system user record, signed by the signer. The record's bytes come
    /// from `enc_data`, given the record's identity and the public key list
    /// as `enc_syspk` encodes it (each key's algorithm and public key, in
    /// order); the identity is [sysuser_ident] of that list's bytes.
    pub fn generate<FS, FD>(alg_list: Vec<DynCryptoSign>, enc_syspk: FS, enc_data: FD) -> (r: Result<Self>)
        where
            FS: Fn(&Vec<SysPk>) -> Result<Vec<u8>>,
            FD: Fn(&crate::hash::Hash, &Vec<u8>) -> Result<Vec<u8>>,
        requires
            forall|p: &Vec<SysPk>| #[trigger] call_requires(enc_syspk, (p,)),
            forall|h: &crate::hash::Hash, b: &Vec<u8>| #[trigger] call_requires(enc_data, (h, b)),
        ensures
            r matches Ok(s) ==> {
                &&& s.paired()
                &&& s.keys().len() == alg_list@.len()
                &&& forall|i: int| 0 <= i < alg_list@.len() ==> #[trigger] s.keys()[i].0 == alg_list@[i]
                &&& exists|pks: Vec<SysPk>, syspk: Vec<u8>, ident: crate::hash::Hash, data: Vec<u8>| {
                    &&& syspk_matches(pks@, s.keys())
                    &&& #[trigger] call_ensures(enc_syspk, (&pks,), Ok::<Vec<u8>, Error>(syspk))
                    &&& ident@ == sysuser_ident_of(syspk@)
                    &&& #[trigger] call_ensures(enc_data, (&ident, &syspk), Ok::<Vec<u8>, Error>(data))
                    &&& s.sysuser_data() == data@
                }
                &&& s.sysuser_sha512() == crate::ext::sha512(s.sysuser_data())
                &&& s.sysuser_signature().len() == s.keys().len()
                &&& s.keys().len() > 0 ==> all_accept(s.verifier_items(), s.sysuser_signature(), s.sysuser_sha512())
            },
    {
        let mut signer = match Self::generate_keys(alg_list) {
            Ok(s) => s,
            Err(e) => {
                return Err(e);
            },
        };
        let pks = signer.sys_public_keys();
        let syspk = match enc_syspk(&pks) {
            Ok(b) => b,
            Err(e) => {
                return Err(e);
            },
        };
        let ident = sysuser_ident(syspk.as_slice());
        let data = match enc_data(&ident, &syspk) {
            Ok(d) => d,
            Err(e) => {
                return Err(e);
            },
        };
        let signed = match signer.sign_data(data) {
            Ok(d) => d,
            Err(e) => {
                return Err(e);
            },
        };
        signer.set_sysuser(signed);
        Ok(signer)
    }

    /// The public keys of this signer as the system user lists them: each
    /// algorithm's name and public key, in order.
    fn sys_public_keys(&self) -> (r: Vec<SysPk>)
        ensures
            syspk_matches(r@, self.keys()),
    {
        let mut out: Vec<SysPk> = Vec::new();
        let mut i: usize = 0;
        while i < self.sign_list.len()
            invariant
                i <= self.sign_list@.len(),
                out@.len() == i,
                forall|m: int|
                    0 <= m < i ==> (#[trigger] out@[m]).a@ == self.keys()[m].0.alg_name() && out@[m].p@
                        == self.keys()[m].1,
            decreases self.sign_list@.len() - i,
        {
            let item = &self.sign_list[i];
            out.push(SysPk { a: String::from_str(item.sign.alg()), p: item.pk.clone() });
            i = i + 1;
        }
        out
    }

    /// Generates a key pair for each algorithm, in order, with an empty
    /// system user record.
    fn generate_keys(alg_list: Vec<DynCryptoSign>) -> (r: Result<Self>)
        ensures
            (forall|i: int| 0 <= i < alg_list@.len() ==> #[trigger] alg_list@[i].generates()) ==> r is Ok,
            r matches Ok(s) ==> {
                &&& s.paired()
                &&& s.keys().len() == alg_list@.len()
                &&& forall|i: int| 0 <= i < alg_list@.len() ==> #[trigger] s.keys()[i].0 == alg_list@[i]
                &&& s.sysuser_data().len() == 0
                &&& s.sysuser_sha512().len() == 0
                &&& s.sysuser_signature().len() == 0
            },
    {
        let ghost algs = alg_list@;
        let mut sign_list: Vec<SignerItem> = Vec::new();
        let mut verify_list: Vec<VerifierItem> = Vec::new();
        for sign in it: alg_list
            invariant
                it.seq() == algs,
                sign_list@.len() == it.index(),
                verify_list@.len() == it.index(),
                forall|m: int| 0 <= m < it.index() ==> (#[trigger] sign_list@[m]).sign == algs[m],
                forall|m: int| 0 <= m < it.index() ==> (#[trigger] verify_list@[m]).sign == algs[m],
                forall|m: int|
                    0 <= m < it.index() ==> (#[trigger] verify_list@[m]).pk@ == sign_list@[m].pk@,
                forall|m: int|
                    0 <= m < it.index() ==> algs[m].key_pair(
                        (#[trigger] sign_list@[m]).pk@,
                        sign_list@[m].sk@,
                    ),
        {
            let (pk, sk) = match sign.generate() {
                Ok(kp) => kp,
                Err(e) => {
                    return Err(e);
                },
            };
            let ghost idx = it.index() as int;
            assert(sign == algs[idx]);
            assert(sign.key_pair(pk@, sk@));
            verify_list.push(VerifierItem { sign: sign.clone(), pk: pk.clone() });
            sign_list.push(SignerItem { sign, sk, pk });
        }
        let this = CryptoSigner {
            sign_list,
            sysuser: SignedData::empty(),
            verifier: CryptoVerifier { verify_list },
        };
        proof {
            assert forall|i: int| 0 <= i < this.keys().len() implies #[trigger] this.verifier_items()[i] == (
                this.keys()[i].0,
                this.keys()[i].1,
            ) by {
                assert(this.sign_list@[i].sign == algs[i]);
            }
            assert forall|i: int| 0 <= i < algs.len() implies #[trigger] this.keys()[i].0 == algs[i] by {
                assert(this.sign_list@[i].sign == algs[i]);
            }
            assert forall|i: int| 0 <= i < this.keys().len() implies #[trigger] this.keys()[i].0.key_pair(
                this.keys()[i].1,
                this.keys()[i].2,
            ) by {
                assert(this.sign_list@[i].sign == algs[i]);
            }
        }
        Ok(this)
    }

    /// Signs a 512-bit hash with each algorithm, in order. When the
    /// verifier is paired with the keys, it accepts what this returns.
    pub fn sign_prehashed_512_bits(&self, hash: &[u8]) -> (r: Result<Vec<crate::hash::Hash>>)
        ensures
            (hash@.len() != 64 && self.keys().len() > 0) ==> r is Err,
            r is Ok <==> self.all_sign(hash@),
            r matches Ok(sigs) ==> {
                &&& sigs@.len() == self.keys().len()
                &&& forall|i: int|
                    0 <= i < sigs@.len() ==> #[trigger] self.keys()[i].0.signs(
                        self.keys()[i].2,
                        hash@,
                        sigs@[i]@,
                    )
                &&& (self.paired() && self.keys().len() > 0) ==> all_accept(
                    self.verifier_items(),
                    hash_views(sigs@),
                    hash@,
                )
            },
    {
        let mut out: Vec<crate::hash::Hash> = Vec::new();
        let mut i: usize = 0;
        while i < self.sign_list.len()
            invariant
                i <= self.sign_list@.len(),
                out@.len() == i,
                i > 0 ==> hash@.len() == 64,
                forall|m: int|
                    0 <= m < i ==> #[trigger] self.keys()[m].0.signs(self.keys()[m].2, hash@, out@[m]@),
                forall|m: int|
                    0 <= m < i ==> #[trigger] self.keys()[m].0.signs_ok(self.keys()[m].2, hash@),
                forall|m: int, pk: Seq<u8>|
                    0 <= m < i && #[trigger] self.keys()[m].0.key_pair(pk, self.keys()[m].2)
                        ==> self.keys()[m].0.accepts(pk, out@[m]@, hash@),
            decreases self.sign_list@.len() - i,
        {
            let item = &self.sign_list[i];
            match item.sign.sign_prehashed_512_bits(&item.sk, hash) {
                Ok(sig) => {
                    out.push(sig);
                },
                Err(e) => {
                    proof {
                        assert(self.keys()[i as int] == (item.sign, item.pk@, item.sk@));
                        assert(!self.keys()[i as int].0.signs_ok(self.keys()[i as int].2, hash@));
                    }
                    return Err(e);
                },
            }
            i = i + 1;
        }
        proof {
            if self.paired() && self.keys().len() > 0 {
                assert forall|m: int| 0 <= m < out@.len() implies #[trigger] self.verifier_items()[m].0.accepts(
                    self.verifier_items()[m].1,
                    hash_views(out@)[m],
                    hash@,
                ) by {
                    assert(self.keys()[m].0.key_pair(self.keys()[m].1, self.keys()[m].2));
                    assert(self.verifier_items()[m] == (self.keys()[m].0, self.keys()[m].1));
                }
            }
        }
        Ok(out)
    }

    /// Encodes nothing itself: hashes encoded data with SHA-512 and signs
    /// the hash, giving the signed record.
    pub fn sign_data(&self, data: Vec<u8>) -> (r: Result<SignedData>)
        ensures
            r is Ok <==> self.all_sign(crate::ext::sha512(data@)),
            r matches Ok(d) ==> {
                &&& d.data@ == data@
                &&& d.sha512@ == crate::ext::sha512(data@)
                &&& d.signature@.len() == self.keys().len()
                &&& (self.paired() && self.keys().len() > 0) ==> all_accept(
                    self.verifier_items(),
                    hash_views(d.signature@),
                    d.sha512@,
                )
            },
    {
        let sha512 = crate::hash::Hash::sha2_512(data.as_slice());
        let signature = match self.sign_prehashed_512_bits(sha512.as_bytes()) {
            Ok(s) => s,
            Err(e) => {
                return Err(e);
            },
        };
        Ok(SignedData { data, sha512, signature })
    }

    /// Replaces the system user record.
    pub fn set_sysuser(&mut self, sysuser: SignedData)
        ensures
            final(self).keys() == old(self).keys(),
            final(self).verifier_items() == old(self).verifier_items(),
            final(self).sysuser_data() == sysuser.data@,
            final(self).sysuser_sha512() == sysuser.sha512@,
            final(self).sysuser_signature() == hash_views(sysuser.signature@),
    {
        self.sysuser = sysuser;
    }

    /// Loads a signer from a registry, its secret keys and its system user
    /// record (its encoded data, whose SHA-512 hash is computed here, and
    /// its signatures) with the system user's public keys. An algorithm that the
    /// registry lacks is refused (`Other`); the verifier comes from
    /// [CryptoVerifier::with_sysuser].
    pub fn with_secrets(
        registry: &CryptoSignRegistry,
        keys: Vec<SecretKey>,
        sysuser_data: Vec<u8>,
        sysuser_signature: Vec<crate::hash::Hash>,
        syspk: Option<Vec<SysPk>>,
    ) -> (r: Result<Self>)
        requires
            registry.wf(),
        ensures
            (exists|i: int| 0 <= i < keys@.len() && registry.lookup((#[trigger] keys@[i]).a@) is None)
                ==> (r matches Err(e) && e.kind == ErrorKind::Other),
            !(exists|i: int| 0 <= i < keys@.len() && registry.lookup((#[trigger] keys@[i]).a@) is None)
                ==> match syspk {
                None => r matches Err(e) && e.kind == ErrorKind::Other,
                Some(ks) => if exists|i: int| 0 <= i < ks@.len() && registry.lookup((#[trigger] ks@[i]).a@) is None {
                    r matches Err(e) && e.kind == ErrorKind::Other
                } else {
                    r is Ok <==> all_accept(resolved(*registry, ks@), hash_views(sysuser_signature@), crate::ext::sha512(sysuser_data@))
                },
            },
            r matches Ok(s) ==> {
                &&& syspk matches Some(ks) && s.verifier_items() == resolved(*registry, ks@)
                &&& s.sysuser_sha512() == crate::ext::sha512(sysuser_data@)
                &&& s.sysuser_signature() == hash_views(sysuser_signature@)
                &&& s.keys().len() == keys@.len()
                &&& forall|i: int|
                    0 <= i < keys@.len() ==> #[trigger] s.keys()[i] == (
                        registry.lookup(keys@[i].a@)->0,
                        keys@[i].p@,
                        keys@[i].s@,
                    )
                &&& s.sysuser_data() == sysuser_data@
                &&& all_accept(s.verifier_items(), hash_views(sysuser_signature@), crate::ext::sha512(sysuser_data@))
            },
    {
        let ghost ks = keys@;
        let sha512 = crate::hash::Hash::sha2_512(sysuser_data.as_slice());
        let sysuser = SignedData { data: sysuser_data, sha512, signature: sysuser_signature };
        let mut sign_list: Vec<SignerItem> = Vec::new();
        for k in it: keys
            invariant
                it.seq() == ks,
                registry.wf(),
                sign_list@.len() == it.index(),
                forall|m: int| 0 <= m < it.index() ==> registry.lookup((#[trigger] ks[m]).a@) is Some,
                forall|m: int|
                    0 <= m < it.index() ==> (#[trigger] sign_list@[m]).sign == registry.lookup(ks[m].a@)->0
                        && sign_list@[m].pk@ == ks[m].p@ && sign_list@[m].sk@ == ks[m].s@,
        {
            match registry.crypto(k.a.as_str()) {
                Some(sign) => {
                    sign_list.push(SignerItem { sign: sign.clone(), sk: CryptoSignSecret::new(k.s), pk: k.p });
                },
                None => {
                    let msg = concat("invalid signing algorithm: ", k.a.as_str());
                    return Err(Error::other(msg.as_str()));
                },
            }
        }
        let verifier = match CryptoVerifier::with_sysuser(registry, syspk, &sysuser.signature, &sysuser.sha512) {
            Ok(v) => v,
            Err(e) => {
                return Err(e);
            },
        };
        let this = CryptoSigner { sign_list, sysuser, verifier };
        proof {
            assert forall|i: int| 0 <= i < ks.len() implies #[trigger] this.keys()[i] == (
                registry.lookup(ks[i].a@)->0,
                ks[i].p@,
                ks[i].s@,
            ) by {
                assert(this.sign_list@[i].sign == registry.lookup(ks[i].a@)->0);
            }
        }
        Ok(this)
    }

    /// Lists the signing algorithms used by this signer, in order.
    pub fn alg_list(&self) -> (r: Vec<&'static str>)
        ensures
            r@.len() == self.keys().len(),
            forall|i: int| 0 <= i < r@.len() ==> (#[trigger] r@[i])@ == self.keys()[i].0.alg_name(),
    {
        let mut out: Vec<&'static str> = Vec::new();
        let mut i: usize = 0;
        while i < self.sign_list.len()
            invariant
                i <= self.sign_list@.len(),
                out@.len() == i,
                forall|m: int| 0 <= m < i ==> (#[trigger] out@[m])@ == self.keys()[m].0.alg_name(),
            decreases self.sign_list@.len() - i,
        {
            out.push(self.sign_list[i].sign.alg());
            i = i + 1;
        }
        out
    }

    /// The system user record of this signer.
    pub fn sysuser(&self) -> (r: &SignedData)
        ensures
            r.data@ == self.sysuser_data(),
            r.sha512@ == self.sysuser_sha512(),
            hash_views(r.signature@) == self.sysuser_signature(),
    {
        &self.sysuser
    }

    /// The verifier of this signer's signatures.
    pub fn get_verifier(&self) -> (r: &CryptoVerifier)
        ensures
            r.items() == self.verifier_items(),
    {
        &self.verifier
    }

    /// The secret keys, in order: what [CryptoSigner::with_secrets] loads
    /// back.
    pub fn secret_keys(&self) -> (r: Vec<SecretKey>)
        ensures
            r@.len() == self.keys().len(),
            forall|i: int|
                0 <= i < r@.len() ==> (#[trigger] r@[i]).a@ == self.keys()[i].0.alg_name() && r@[i].p@
                    == self.keys()[i].1 && r@[i].s@ == self.keys()[i].2,
    {
        let mut out: Vec<SecretKey> = Vec::new();
        let mut i: usize = 0;
        while i < self.sign_list.len()
            invariant
                i <= self.sign_list@.len(),
                out@.len() == i,
                forall|m: int|
                    0 <= m < i ==> (#[trigger] out@[m]).a@ == self.keys()[m].0.alg_name() && out@[m].p@
                        == self.keys()[m].1 && out@[m].s@ == self.keys()[m].2,
            decreases self.sign_list@.len() - i,
        {
            let item = &self.sign_list[i];
            out.push(SecretKey {
                a: String::from_str(item.sign.alg()),
                p: item.pk.clone(),
                s: crate::hash::copy_bytes(item.sk.as_bytes()),
            });
            i = i + 1;
        }
        out
    }
}

} // verus!
