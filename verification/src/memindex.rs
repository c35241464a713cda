//! A memory-backed object index.
//!
//! Objects are kept in order of their creation time; at most one object is
//! kept per identity `<sys>/<ctx>/<app_path>`, the one created last. Objects
//! that are displaced or that have expired are moved to a delete list, from
//! which the owner of the index removes their stored data.

use vstd::prelude::*;
use crate::obj::{ObjMeta, ObjMetaView, Pfx, pfx_of};
use crate::secs::{total_key, order_key};
use crate::text::str_eq;

verus! {

/// An entry of an [OrderMap] as seen by specifications:
/// (identity, order, value).
pub type Slot<T> = (Seq<char>, u64, T);

/// Entries are in non-decreasing total order of their order values.
pub open spec fn key_sorted<T>(s: Seq<Slot<T>>) -> bool {
    forall|i: int, j: int| 0 <= i <= j < s.len() ==> total_key(#[trigger] s[i].1) <= total_key(#[trigger] s[j].1)
}

/// No identity occurs twice.
pub open spec fn pfx_unique<T>(s: Seq<Slot<T>>) -> bool {
    forall|i: int, j: int| 0 <= i < s.len() && 0 <= j < s.len() && i != j ==> #[trigger] s[i].0 != #[trigger] s[j].0
}

/// Some entry has identity `p`.
pub open spec fn has_pfx<T>(s: Seq<Slot<T>>, p: Seq<char>) -> bool {
    exists|i: int| 0 <= i < s.len() && #[trigger] s[i].0 == p
}

/// The position of the entry with identity `p` (meaningful if [has_pfx]).
pub open spec fn pfx_index<T>(s: Seq<Slot<T>>, p: Seq<char>) -> int {
    choose|i: int| 0 <= i < s.len() && #[trigger] s[i].0 == p
}

/// The value stored under identity `p`, if any.
pub open spec fn found<T>(s: Seq<Slot<T>>, p: Seq<char>) -> Option<T> {
    if has_pfx(s, p) {
        Some(s[pfx_index(s, p)].2)
    } else {
        None
    }
}

/// The entries without the one of identity `p`.
pub open spec fn removed<T>(s: Seq<Slot<T>>, p: Seq<char>) -> Seq<Slot<T>> {
    if has_pfx(s, p) {
        s.remove(pfx_index(s, p))
    } else {
        s
    }
}

/// How many leading entries have a total order key of at most `k`.
pub open spec fn upper<T>(s: Seq<Slot<T>>, k: int) -> int
    decreases s.len(),
{
    if s.len() == 0 {
        0
    } else if total_key(s[0].1) <= k {
        1 + upper(s.drop_first(), k)
    } else {
        0
    }
}

/// How many leading entries have a total order key below `k`.
pub open spec fn lower<T>(s: Seq<Slot<T>>, k: int) -> int
    decreases s.len(),
{
    if s.len() == 0 {
        0
    } else if total_key(s[0].1) < k {
        1 + lower(s.drop_first(), k)
    } else {
        0
    }
}

/// The entries with `(p, o, v)` placed after all entries ordered at or
/// before `o`.
pub open spec fn inserted<T>(s: Seq<Slot<T>>, p: Seq<char>, o: u64, v: T) -> Seq<Slot<T>> {
    s.insert(upper(s, total_key(o)), (p, o, v))
}

proof fn lemma_upper_bounds<T>(s: Seq<Slot<T>>, k: int)
    ensures
        0 <= upper(s, k) <= s.len(),
        forall|j: int| 0 <= j < upper(s, k) ==> total_key(#[trigger] s[j].1) <= k,
        upper(s, k) < s.len() ==> total_key(s[upper(s, k)].1) > k,
    decreases s.len(),
{
    if s.len() > 0 && total_key(s[0].1) <= k {
        lemma_upper_bounds(s.drop_first(), k);
        assert forall|j: int| 0 <= j < upper(s, k) implies total_key(#[trigger] s[j].1) <= k by {
            if j > 0 {
                assert(s[j] == s.drop_first()[j - 1]);
            }
        }
    }
}

proof fn lemma_lower_bounds<T>(s: Seq<Slot<T>>, k: int)
    ensures
        0 <= lower(s, k) <= s.len(),
        forall|j: int| 0 <= j < lower(s, k) ==> total_key(#[trigger] s[j].1) < k,
        lower(s, k) < s.len() ==> total_key(s[lower(s, k)].1) >= k,
    decreases s.len(),
{
    if s.len() > 0 && total_key(s[0].1) < k {
        lemma_lower_bounds(s.drop_first(), k);
        assert forall|j: int| 0 <= j < lower(s, k) implies total_key(#[trigger] s[j].1) < k by {
            if j > 0 {
                assert(s[j] == s.drop_first()[j - 1]);
            }
        }
    }
}

/// In a sorted sequence the entries at or after [lower] have keys of at
/// least `k`, and those at or after [upper] keys above `k`.
proof fn lemma_sorted_split<T>(s: Seq<Slot<T>>, k: int)
    requires
        key_sorted(s),
    ensures
        forall|j: int| lower(s, k) <= j < s.len() ==> total_key(#[trigger] s[j].1) >= k,
        forall|j: int| upper(s, k) <= j < s.len() ==> total_key(#[trigger] s[j].1) > k,
        lower(s, k) <= upper(s, k),
{
    lemma_lower_bounds(s, k);
    lemma_upper_bounds(s, k);
    assert forall|j: int| lower(s, k) <= j < s.len() implies total_key(#[trigger] s[j].1) >= k by {
        assert(total_key(s[lower(s, k)].1) <= total_key(s[j].1));
    }
    assert forall|j: int| upper(s, k) <= j < s.len() implies total_key(#[trigger] s[j].1) > k by {
        assert(total_key(s[upper(s, k)].1) <= total_key(s[j].1));
    }
    if lower(s, k) > upper(s, k) {
        assert(total_key(s[upper(s, k)].1) < k);
    }
}

/// One entry of an [OrderMap].
#[derive(Debug)]
pub struct OrderEntry<T> {
    /// The identity.
    pub pfx: Pfx,
    /// The order value (a double bit pattern).
    pub order: u64,
    /// The stored value.
    pub val: T,
}

/// Values keyed by identity and kept in total order of an order value.
#[derive(Debug)]
pub struct OrderMap<T> {
    entries: Vec<OrderEntry<T>>,
}

/// The specification view of an entry.
pub open spec fn slot_of<T>(e: OrderEntry<T>) -> Slot<T> {
    (e.pfx.0@, e.order, e.val)
}

impl<T> OrderMap<T> {
    /// The entries, in order.
    pub closed spec fn slots(&self) -> Seq<Slot<T>> {
        self.entries@.map_values(|e: OrderEntry<T>| slot_of(e))
    }

    /// Sorted by order and no identity twice.
    pub open spec fn wf(&self) -> bool {
        key_sorted(self.slots()) && pfx_unique(self.slots())
    }

    /// An empty map.
    pub fn new() -> (m: Self)
        ensures
            m.slots() == Seq::<Slot<T>>::empty(),
            m.wf(),
    {
        let m = OrderMap { entries: Vec::new() };
        proof {
            assert(m.slots() =~= Seq::<Slot<T>>::empty());
        }
        m
    }

    /// The number of entries.
    pub fn len(&self) -> (n: usize)
        ensures
            n == self.slots().len(),
    {
        self.entries.len()
    }

    /// The position of the entry with identity `pfx`, if any.
    fn position(&self, pfx: &Pfx) -> (r: Option<usize>)
        requires
            self.wf(),
        ensures
            r is Some <==> has_pfx(self.slots(), pfx.0@),
            r matches Some(i) ==> i == pfx_index(self.slots(), pfx.0@) && i < self.slots().len(),
    {
        let mut i: usize = 0;
        while i < self.entries.len()
            invariant
                self.wf(),
                i <= self.entries@.len(),
                forall|j: int| 0 <= j < i ==> #[trigger] self.slots()[j].0 != pfx.0@,
            decreases self.entries@.len() - i,
        {
            if str_eq(self.entries[i].pfx.0.as_str(), pfx.0.as_str()) {
                proof {
                    assert(self.slots()[i as int].0 == pfx.0@);
                    let k = pfx_index(self.slots(), pfx.0@);
                    assert(self.slots()[k].0 == pfx.0@);
                }
                return Some(i);
            }
            i = i + 1;
        }
        None
    }

    /// Removes and returns the value stored under `pfx`.
    pub fn remove(&mut self, pfx: &Pfx) -> (r: Option<T>)
        requires
            old(self).wf(),
        ensures
            final(self).wf(),
            r == found(old(self).slots(), pfx.0@),
            final(self).slots() == removed(old(self).slots(), pfx.0@),
    {
        match self.position(pfx) {
            None => None,
            Some(i) => {
                let ghost s = self.slots();
                let e = self.entries.remove(i);
                proof {
                    assert(self.slots() =~= s.remove(i as int));
                    assert forall|a: int, b: int| 0 <= a <= b < self.slots().len() implies total_key(#[trigger] self.slots()[a].1) <= total_key(#[trigger] self.slots()[b].1) by {
                        let a2 = if a < i { a } else { a + 1 };
                        let b2 = if b < i { b } else { b + 1 };
                        assert(self.slots()[a] == s[a2]);
                        assert(self.slots()[b] == s[b2]);
                    }
                    assert forall|a: int, b: int| 0 <= a < self.slots().len() && 0 <= b < self.slots().len() && a != b implies #[trigger] self.slots()[a].0 != #[trigger] self.slots()[b].0 by {
                        let a2 = if a < i { a } else { a + 1 };
                        let b2 = if b < i { b } else { b + 1 };
                        assert(self.slots()[a] == s[a2]);
                        assert(self.slots()[b] == s[b2]);
                    }
                }
                Some(e.val)
            },
        }
    }

    /// The first position whose order key exceeds `k` (entries must be sorted).
    fn upper_pos(&self, k: u64) -> (r: usize)
        requires
            self.wf(),
        ensures
            r == upper(self.slots(), k as int),
    {
        let ghost s = self.slots();
        let mut i: usize = 0;
        proof {
            assert(s.skip(0) =~= s);
        }
        while i < self.entries.len()
            invariant
                s == self.slots(),
                i <= s.len(),
                upper(s, k as int) == i + upper(s.skip(i as int), k as int),
            decreases s.len() - i,
        {
            proof {
                assert(s.skip(i as int)[0] == s[i as int]);
                assert(s.skip(i as int).drop_first() =~= s.skip(i + 1));
            }
            if order_key(self.entries[i].order) > k {
                return i;
            }
            i = i + 1;
        }
        proof {
            assert(s.skip(i as int).len() == 0);
        }
        i
    }

    /// The first position whose order key is at least `k`.
    fn lower_pos(&self, k: u64) -> (r: usize)
        requires
            self.wf(),
        ensures
            r == lower(self.slots(), k as int),
    {
        let ghost s = self.slots();
        let mut i: usize = 0;
        proof {
            assert(s.skip(0) =~= s);
        }
        while i < self.entries.len()
            invariant
                s == self.slots(),
                i <= s.len(),
                lower(s, k as int) == i + lower(s.skip(i as int), k as int),
            decreases s.len() - i,
        {
            proof {
                assert(s.skip(i as int)[0] == s[i as int]);
                assert(s.skip(i as int).drop_first() =~= s.skip(i + 1));
            }
            if order_key(self.entries[i].order) >= k {
                return i;
            }
            i = i + 1;
        }
        proof {
            assert(s.skip(i as int).len() == 0);
        }
        i
    }

    /// Stores `val` under `pfx` at order `order`, after every entry ordered
    /// at or before it; returns the value that was stored under `pfx` before.
    pub fn insert(&mut self, order: u64, pfx: Pfx, val: T) -> (r: Option<T>)
        requires
            old(self).wf(),
        ensures
            final(self).wf(),
            r == found(old(self).slots(), pfx.0@),
            final(self).slots() == inserted(removed(old(self).slots(), pfx.0@), pfx.0@, order, val),
    {
        let out = self.remove(&pfx);
        let ghost s = self.slots();
        let ghost p = pfx.0@;
        let k = order_key(order);
        let pos = self.upper_pos(k);
        proof {
            lemma_upper_bounds(s, k as int);
            lemma_sorted_split(s, k as int);
            assert(!has_pfx(s, p)) by {
                if has_pfx(s, p) {
                    let old_s = old(self).slots();
                    let j = pfx_index(s, p);
                    let i0 = pfx_index(old_s, p);
                    assert(s =~= old_s.remove(i0));
                    let j2 = if j < i0 { j } else { j + 1 };
                    assert(s[j] == old_s[j2]);
                    assert(old_s[i0].0 == p);
                }
            }
        }
        self.entries.insert(pos, OrderEntry { pfx, order, val });
        proof {
            let t = self.slots();
            assert(t =~= s.insert(pos as int, (p, order, val)));
            assert forall|a: int, b: int| 0 <= a <= b < t.len() implies total_key(#[trigger] t[a].1) <= total_key(#[trigger] t[b].1) by {
                if a < pos && b < pos {
                    assert(t[a] == s[a] && t[b] == s[b]);
                } else if a < pos && b == pos {
                    assert(t[a] == s[a]);
                } else if a < pos {
                    assert(t[a] == s[a] && t[b] == s[b - 1]);
                } else if a == pos && b > pos {
                    assert(t[b] == s[b - 1]);
                } else if a > pos {
                    assert(t[a] == s[a - 1] && t[b] == s[b - 1]);
                }
            }
            assert forall|a: int, b: int| 0 <= a < t.len() && 0 <= b < t.len() && a != b implies #[trigger] t[a].0 != #[trigger] t[b].0 by {
                if a != pos && b != pos {
                    let a2 = if a < pos { a } else { a - 1 };
                    let b2 = if b < pos { b } else { b - 1 };
                    assert(t[a] == s[a2] && t[b] == s[b2]);
                } else if a == pos {
                    let b2 = if b < pos { b } else { b - 1 };
                    assert(t[b] == s[b2]);
                } else {
                    let a2 = if a < pos { a } else { a - 1 };
                    assert(t[a] == s[a2]);
                }
            }
        }
        out
    }

    /// The value stored under `pfx`, if any.
    pub fn get(&self, pfx: &Pfx) -> (r: Option<&T>)
        requires
            self.wf(),
        ensures
            r matches Some(v) ==> found(self.slots(), pfx.0@) == Some(*v),
            r is None ==> found(self.slots(), pfx.0@) is None,
    {
        match self.position(pfx) {
            None => None,
            Some(i) => Some(&self.entries[i].val),
        }
    }

    /// The positions `lo..hi` of the entries whose order lies in the total
    /// order range `[start, end)`.
    pub fn range(&self, start: u64, end: u64) -> (r: (usize, usize))
        requires
            self.wf(),
        ensures
            r.0 == lower(self.slots(), total_key(start)),
            r.1 == lower(self.slots(), total_key(end)),
    {
        (self.lower_pos(order_key(start)), self.lower_pos(order_key(end)))
    }
}


/// An indexed object: its meta-data and the owner's information about it.
pub type Item<Info> = (ObjMeta, Info);

/// `m` carries an expiry time that lies before `now`.
pub open spec fn expired(m: ObjMeta, now: u64) -> bool {
    crate::secs::lt(crate::secs::ZERO, m.expires) && crate::secs::lt(m.expires, now)
}

/// An entry survives pruning when it never expires or expires after `now`.
pub open spec fn live<Info>(now: u64) -> spec_fn(Slot<Item<Info>>) -> bool {
    |e: Slot<Item<Info>>| crate::secs::eq(e.2.0.expires, crate::secs::ZERO) || crate::secs::lt(now, e.2.0.expires)
}

/// An entry is filed under the identity and the creation time of its path.
pub open spec fn slot_consistent<Info>(e: Slot<Item<Info>>) -> bool {
    e.0 == pfx_of(e.2.0.path@) && e.1 == e.2.0.created
}

/// The items of the entries that pruning at `now` removes, in order.
pub open spec fn dead_items<Info>(s: Seq<Slot<Item<Info>>>, now: u64) -> Seq<Item<Info>> {
    s.filter(|e: Slot<Item<Info>>| !live::<Info>(now)(e)).map_values(|e: Slot<Item<Info>>| e.2)
}

/// The entries and the delete list after `put(meta, info, now)`.
pub open spec fn put_result<Info>(
    es: Seq<Slot<Item<Info>>>,
    del: Seq<Item<Info>>,
    meta: ObjMeta,
    info: Info,
    now: u64,
) -> (Seq<Slot<Item<Info>>>, Seq<Item<Info>>) {
    if expired(meta, now) {
        (es, del.push((meta, info)))
    } else {
        let p = pfx_of(meta.path@);
        let es2 = inserted(removed(es, p), p, meta.created, (meta, info));
        match found(es, p) {
            None => (es2, del),
            Some(orig) => if expired(orig.0, now) {
                (es2, del.push(orig))
            } else if crate::secs::le(meta.created, orig.0.created) {
                (inserted(removed(es2, p), p, orig.0.created, orig), del.push((meta, info)))
            } else {
                (es2, del.push(orig))
            },
        }
    }
}

/// A memory-backed object index.
#[derive(Debug)]
pub struct MemIndex<Info> {
    map: OrderMap<Item<Info>>,
    delete: Vec<Item<Info>>,
}

impl<Info> MemIndex<Info> {
    /// The indexed entries in creation order.
    pub closed spec fn entries(&self) -> Seq<Slot<Item<Info>>> {
        self.map.slots()
    }

    /// The items waiting to be deleted.
    pub closed spec fn deleted(&self) -> Seq<Item<Info>> {
        self.delete@
    }

    /// Entries sorted by creation time, one per identity, each filed under
    /// its own identity and creation time.
    pub open spec fn wf(&self) -> bool {
        &&& key_sorted(self.entries())
        &&& pfx_unique(self.entries())
        &&& forall|i: int| 0 <= i < self.entries().len() ==> slot_consistent(#[trigger] self.entries()[i])
    }

    /// An empty index.
    pub fn new() -> (m: Self)
        ensures
            m.wf(),
            m.entries() == Seq::<Slot<Item<Info>>>::empty(),
            m.deleted() == Seq::<Item<Info>>::empty(),
    {
        MemIndex { map: OrderMap::new(), delete: Vec::new() }
    }

    /// Takes the items that mutations have marked for deletion.
    pub fn get_delete(&mut self) -> (r: Vec<Item<Info>>)
        requires
            old(self).wf(),
        ensures
            final(self).wf(),
            r@ == old(self).deleted(),
            final(self).deleted() == Seq::<Item<Info>>::empty(),
            final(self).entries() == old(self).entries(),
    {
        let mut out: Vec<Item<Info>> = Vec::new();
        std::mem::swap(&mut out, &mut self.delete);
        out
    }

    /// Puts an item into the index. An item that has already expired goes
    /// straight to the delete list; otherwise it replaces the item of the
    /// same identity unless that one was created at the same time or later.
    /// Whatever is displaced goes to the delete list.
    pub fn put(&mut self, meta: ObjMeta, info: Info, now: u64)
        requires
            old(self).wf(),
        ensures
            final(self).wf(),
            (final(self).entries(), final(self).deleted()) == put_result(
                old(self).entries(),
                old(self).deleted(),
                meta,
                info,
                now,
            ),
    {
        let mx = meta.expires;
        if crate::secs::less(crate::secs::ZERO, mx) && crate::secs::less(mx, now) {
            self.delete.push((meta, info));
            return;
        }
        let pfx = Pfx::new(&meta);
        let created = meta.created;
        let ghost p = pfx.0@;
        let ghost es = self.entries();
        let ghost m0 = meta;
        let ghost i0 = info;
        let prev = self.map.insert(created, pfx, (meta, info));
        proof {
            self.lemma_after_insert(es, p, m0, i0);
        }
        if let Some((orig_meta, orig_info)) = prev {
            let ox = orig_meta.expires;
            if crate::secs::less(crate::secs::ZERO, ox) && crate::secs::less(ox, now) {
                self.delete.push((orig_meta, orig_info));
                return;
            }
            if crate::secs::less_eq(created, orig_meta.created) {
                let opfx = Pfx::new(&orig_meta);
                let ocreated = orig_meta.created;
                let ghost es2 = self.entries();
                let ghost om = orig_meta;
                let ghost oi = orig_info;
                proof {
                    let k = pfx_index(es, p);
                    assert(slot_consistent(es[k]));
                    assert(opfx.0@ == p);
                    self.lemma_found_new(es2, p, m0, i0);
                }
                let back = self.map.insert(ocreated, opfx, (orig_meta, orig_info));
                proof {
                    self.lemma_after_insert(es2, p, om, oi);
                }
                if let Some(b) = back {
                    self.delete.push(b);
                }
            } else {
                self.delete.push((orig_meta, orig_info));
            }
        }
    }

    /// Moves every expired entry to the delete list: an entry stays when it
    /// never expires or expires after `now`.
    pub fn prune(&mut self, now: u64)
        requires
            old(self).wf(),
        ensures
            final(self).wf(),
            final(self).entries() == old(self).entries().filter(live::<Info>(now)),
            final(self).deleted() == old(self).deleted() + dead_items(old(self).entries(), now),
    {
        let mut old_entries: Vec<OrderEntry<Item<Info>>> = Vec::new();
        std::mem::swap(&mut old_entries, &mut self.map.entries);
        let ghost s = old_entries@.map_values(|e: OrderEntry<Item<Info>>| slot_of(e));
        let ghost del0 = self.delete@;
        proof {
            assert(s == old(self).entries());
            assert(s.take(0) =~= Seq::<Slot<Item<Info>>>::empty());
            reveal(Seq::filter);
            assert(self.map.slots() =~= s.take(0).filter(live::<Info>(now)));
            assert(self.delete@ =~= del0 + dead_items(s.take(0), now));
        }
        for e in it: old_entries.into_iter()
            invariant
                s == it.seq().map_values(|e: OrderEntry<Item<Info>>| slot_of(e)),
                key_sorted(s),
                pfx_unique(s),
                forall|j: int| 0 <= j < s.len() ==> slot_consistent(#[trigger] s[j]),
                self.map.slots() == s.take(it.index() as int).filter(live::<Info>(now)),
                self.delete@ == del0 + dead_items(s.take(it.index() as int), now),
                key_sorted(self.map.slots()),
                pfx_unique(self.map.slots()),
                forall|a: int| 0 <= a < self.map.slots().len() ==> slot_consistent(#[trigger] self.map.slots()[a]),
                forall|a: int, j: int| 0 <= a < self.map.slots().len() && it.index() <= j < s.len()
                    ==> total_key(#[trigger] self.map.slots()[a].1) <= total_key(#[trigger] s[j].1)
                        && self.map.slots()[a].0 != s[j].0,
        {
            let ghost idx = it.index() as int;
            let ghost before = self.map.slots();
            proof {
                assert(s[idx] == slot_of(e));
                assert(s.take(idx + 1).drop_last() =~= s.take(idx));
                assert(s.take(idx + 1).last() == s[idx]);
                reveal(Seq::filter);
            }
            let keep = crate::secs::equal(e.val.0.expires, crate::secs::ZERO)
                || crate::secs::less(now, e.val.0.expires);
            if keep {
                self.map.entries.push(e);
                proof {
                    let t = self.map.slots();
                    assert(t =~= before.push(s[idx]));
                    assert forall|a: int, b: int| 0 <= a <= b < t.len() implies total_key(#[trigger] t[a].1) <= total_key(#[trigger] t[b].1) by {
                        if b == before.len() && a < b {
                            assert(t[a] == before[a]);
                        } else if b < before.len() {
                            assert(t[a] == before[a] && t[b] == before[b]);
                        }
                    }
                    assert forall|a: int, b: int| 0 <= a < t.len() && 0 <= b < t.len() && a != b implies #[trigger] t[a].0 != #[trigger] t[b].0 by {
                        if a < before.len() && b < before.len() {
                            assert(t[a] == before[a] && t[b] == before[b]);
                        } else if a < before.len() {
                            assert(t[a] == before[a]);
                        } else {
                            assert(t[b] == before[b]);
                        }
                    }
                    assert forall|a: int| 0 <= a < t.len() implies slot_consistent(#[trigger] t[a]) by {
                        if a < before.len() {
                            assert(t[a] == before[a]);
                        }
                    }
                    assert forall|a: int, j: int| 0 <= a < t.len() && idx + 1 <= j < s.len() implies total_key(#[trigger] t[a].1) <= total_key(#[trigger] s[j].1) && t[a].0 != s[j].0 by {
                        if a < before.len() {
                            assert(t[a] == before[a]);
                        }
                    }
                    assert(self.delete@ =~= del0 + dead_items(s.take(idx + 1), now));
                }
            } else {
                self.delete.push(e.val);
                proof {
                    assert(self.delete@ =~= del0 + dead_items(s.take(idx + 1), now));
                }
            }
        }
        proof {
            assert(s.take(s.len() as int) =~= s);
        }
    }

    proof fn lemma_found_new(&self, es2: Seq<Slot<Item<Info>>>, p: Seq<char>, m: ObjMeta, i: Info)
        requires
            self.entries() == es2,
            pfx_unique(es2),
            exists|k: int| 0 <= k < es2.len() && #[trigger] es2[k] == (p, m.created, (m, i)),
        ensures
            found(es2, p) == Some((m, i)),
    {
        let k = choose|k: int| 0 <= k < es2.len() && #[trigger] es2[k] == (p, m.created, (m, i));
        assert(es2[k].0 == p);
        assert(has_pfx(es2, p));
        let j = pfx_index(es2, p);
        assert(es2[j].0 == p);
        assert(j == k);
    }

    /// After inserting a consistent entry into a well-formed index whose
    /// older state was well formed, the index is well formed again and holds
    /// the entry.
    proof fn lemma_after_insert(&self, es: Seq<Slot<Item<Info>>>, p: Seq<char>, m: ObjMeta, i: Info)
        requires
            key_sorted(self.entries()),
            pfx_unique(self.entries()),
            forall|j: int| 0 <= j < es.len() ==> slot_consistent(#[trigger] es[j]),
            p == pfx_of(m.path@),
            self.entries() == inserted(removed(es, p), p, m.created, (m, i)),
        ensures
            self.wf(),
            exists|k: int| 0 <= k < self.entries().len() && #[trigger] self.entries()[k] == (p, m.created, (m, i)),
    {
        let r = removed(es, p);
        let pos = upper(r, total_key(m.created));
        lemma_upper_bounds(r, total_key(m.created));
        let t = self.entries();
        assert forall|j: int| 0 <= j < r.len() implies slot_consistent(#[trigger] r[j]) by {
            if has_pfx(es, p) {
                let i0 = pfx_index(es, p);
                let j2 = if j < i0 { j } else { j + 1 };
                assert(r[j] == es[j2]);
            }
        }
        assert forall|j: int| 0 <= j < t.len() implies slot_consistent(#[trigger] t[j]) by {
            if j < pos {
                assert(t[j] == r[j]);
            } else if j > pos {
                assert(t[j] == r[j - 1]);
            }
        }
        assert(t[pos] == (p, m.created, (m, i)));
    }
}

/// The paths `list` returns: scanning the entries `i..hi` in order, stop
/// at the first entry created strictly after the previous one once `limit`
/// paths are collected; collect each path that starts with `prefix` and was
/// created after `gt`.
pub open spec fn list_scan<Info>(
    s: Seq<Slot<Item<Info>>>,
    i: int,
    hi: int,
    prefix: Seq<char>,
    gt: u64,
    limit: nat,
    out: Seq<Seq<char>>,
    last: u64,
) -> Seq<Seq<char>>
    decreases hi - i,
{
    if i >= hi || i < 0 || i >= s.len() {
        out
    } else {
        let m = s[i].2.0;
        if out.len() >= limit && crate::secs::lt(last, m.created) {
            out
        } else {
            let out2 = if crate::secs::lt(gt, m.created) && prefix.is_prefix_of(m.path@) {
                out.push(m.path@)
            } else {
                out
            };
            list_scan(s, i + 1, hi, prefix, gt, limit, out2, m.created)
        }
    }
}

/// The result of `list(prefix, created_gt, limit)` on the given entries:
/// the scan covers the entries created at or after `created_gt` and before
/// `f64::MAX` in total order.
pub open spec fn list_result<Info>(
    s: Seq<Slot<Item<Info>>>,
    prefix: Seq<char>,
    created_gt: u64,
    limit: nat,
) -> Seq<Seq<char>> {
    list_scan(
        s,
        lower(s, total_key(created_gt)),
        lower(s, total_key(crate::secs::MAX)),
        prefix,
        created_gt,
        limit,
        Seq::empty(),
        crate::secs::ZERO,
    )
}

impl<Info> MemIndex<Info> {
    /// Lists the paths of indexed items under a path prefix that were created
    /// after `created_gt`, in creation order. Once `limit` paths are found
    /// the listing stops before the next later creation time, so items that
    /// share a creation time are never split between pages.
    pub fn list(&self, prefix: &str, created_gt: u64, limit: u32) -> (r: Vec<String>)
        requires
            self.wf(),
        ensures
            r@.map_values(|x: String| x@) == list_result(self.entries(), prefix@, created_gt, limit as nat),
    {
        let ghost s = self.entries();
        let (lo, hi) = self.map.range(created_gt, crate::secs::MAX);
        let mut out: Vec<String> = Vec::new();
        let mut last: u64 = crate::secs::ZERO;
        let mut i = lo;
        proof {
            lemma_lower_bounds(s, total_key(crate::secs::MAX));
            lemma_lower_bounds(s, total_key(created_gt));
            assert(out@.map_values(|x: String| x@) =~= Seq::<Seq<char>>::empty());
        }
        while i < hi
            invariant
                s == self.entries(),
                hi <= s.len(),
                lo <= i,
                list_result(s, prefix@, created_gt, limit as nat) == list_scan(
                    s, i as int, hi as int, prefix@, created_gt, limit as nat,
                    out@.map_values(|x: String| x@), last),
            decreases hi - i,
        {
            let m = &self.map.entries[i].val.0;
            proof {
                assert(s[i as int].2.0 == *m);
            }
            let c = m.created;
            if out.len() >= limit as usize && crate::secs::less(last, c) {
                return out;
            }
            last = c;
            if crate::secs::less(created_gt, c) && crate::text::starts_with(m.path.as_str(), prefix) {
                let ghost before = out@.map_values(|x: String| x@);
                out.push(m.path.clone());
                proof {
                    assert(out@.map_values(|x: String| x@) =~= before.push(m.path@));
                }
            }
            i = i + 1;
        }
        out
    }
}

impl<Info: Clone> MemIndex<Info> {
    /// The item filed under the identity of `meta` (whatever the times in
    /// `meta`); an error of kind `NotFound` when there is none.
    pub fn get(&self, meta: &ObjMeta) -> (r: crate::Result<Item<Info>>)
        requires
            self.wf(),
        ensures
            match found(self.entries(), pfx_of(meta.path@)) {
                Some(v) => r matches Ok(x) && x.0@ == v.0@ && cloned(v.1, x.1),
                None => r matches Err(e) && e.kind == crate::ErrorKind::NotFound,
            },
    {
        let pfx = Pfx::new(meta);
        match self.map.get(&pfx) {
            Some(v) => Ok((v.0.clone(), v.1.clone())),
            None => {
                let msg = crate::text::concat("Could not locate meta: ", meta.path.as_str());
                Err(crate::Error::not_found(msg.as_str()))
            },
        }
    }
}

/// `acc` with `n` added (saturating) to the total of `ctx`, which is
/// appended when not yet present.
pub open spec fn meter_add(acc: Seq<(Seq<char>, u64)>, ctx: Seq<char>, n: u64) -> Seq<(Seq<char>, u64)> {
    if exists|i: int| 0 <= i < acc.len() && #[trigger] acc[i].0 == ctx {
        let i = choose|i: int| 0 <= i < acc.len() && #[trigger] acc[i].0 == ctx;
        acc.update(i, (ctx, if acc[i].1 + n > u64::MAX { u64::MAX } else { (acc[i].1 + n) as u64 }))
    } else {
        acc.push((ctx, n))
    }
}

/// Totals of the entries `i..hi` that hold context data (`c` paths),
/// grouped by context.
pub open spec fn meter_scan<Info>(s: Seq<Slot<Item<Info>>>, i: int, hi: int, acc: Seq<(Seq<char>, u64)>) -> Seq<(Seq<char>, u64)>
    decreases hi - i,
{
    if i >= hi || i < 0 || i >= s.len() {
        acc
    } else {
        let path = s[i].2.0.path@;
        let acc2 = if crate::obj::sys_prefix_of(path) == crate::obj::sys_ctx_text() {
            meter_add(acc, crate::obj::ctx_of(path), crate::obj::byte_length_of(path))
        } else {
            acc
        };
        meter_scan(s, i + 1, hi, acc2)
    }
}

/// Stored bytes per context: over the entries created in the total order
/// range `[f64::MIN, f64::MAX)`.
pub open spec fn meter_result<Info>(s: Seq<Slot<Item<Info>>>) -> Seq<(Seq<char>, u64)> {
    meter_scan(s, lower(s, total_key(crate::secs::MIN)), lower(s, total_key(crate::secs::MAX)), Seq::empty())
}

/// No context occurs twice.
pub open spec fn ctx_unique(acc: Seq<(Seq<char>, u64)>) -> bool {
    forall|i: int, j: int| 0 <= i < acc.len() && 0 <= j < acc.len() && i != j ==> #[trigger] acc[i].0 != #[trigger] acc[j].0
}

fn meter_add_exec(acc: &mut Vec<(String, u64)>, ctx: String, n: u64)
    requires
        ctx_unique(old(acc)@.map_values(|x: (String, u64)| (x.0@, x.1))),
    ensures
        final(acc)@.map_values(|x: (String, u64)| (x.0@, x.1)) == meter_add(old(acc)@.map_values(|x: (String, u64)| (x.0@, x.1)), ctx@, n),
        ctx_unique(final(acc)@.map_values(|x: (String, u64)| (x.0@, x.1))),
{
    let ghost v = acc@.map_values(|x: (String, u64)| (x.0@, x.1));
    let mut i: usize = 0;
    while i < acc.len()
        invariant
            v == acc@.map_values(|x: (String, u64)| (x.0@, x.1)),
            v == old(acc)@.map_values(|x: (String, u64)| (x.0@, x.1)),
            ctx_unique(v),
            i <= acc@.len(),
            forall|j: int| 0 <= j < i ==> #[trigger] v[j].0 != ctx@,
        decreases acc@.len() - i,
    {
        if str_eq(acc[i].0.as_str(), ctx.as_str()) {
            proof {
                assert(v[i as int].0 == ctx@);
                let k = choose|k: int| 0 <= k < v.len() && #[trigger] v[k].0 == ctx@;
                assert(k == i);
            }
            let total = acc[i].1.saturating_add(n);
            acc.set(i, (ctx, total));
            proof {
                let w = acc@.map_values(|x: (String, u64)| (x.0@, x.1));
                assert(w =~= meter_add(v, ctx@, n));
                assert forall|a: int| 0 <= a < w.len() implies #[trigger] w[a].0 == v[a].0 by {
                    if a == i {
                        assert(w[a].0 == ctx@);
                    } else {
                        assert(w[a] == v[a]);
                    }
                }
            }
            return;
        }
        i = i + 1;
    }
    acc.push((ctx, n));
    proof {
        let w = acc@.map_values(|x: (String, u64)| (x.0@, x.1));
        assert(w =~= v.push((ctx@, n)));
        assert forall|a: int, b: int| 0 <= a < w.len() && 0 <= b < w.len() && a != b implies #[trigger] w[a].0 != #[trigger] w[b].0 by {
            if a < v.len() && b < v.len() {
                assert(w[a] == v[a] && w[b] == v[b]);
            } else if a < v.len() {
                assert(w[a] == v[a]);
            } else {
                assert(w[b] == v[b]);
            }
        }
    }
}

impl<Info> MemIndex<Info> {
    /// Stored bytes per context, over the context data (`c`) entries.
    pub fn meter(&self) -> (r: Vec<(String, u64)>)
        requires
            self.wf(),
        ensures
            r@.map_values(|x: (String, u64)| (x.0@, x.1)) == meter_result(self.entries()),
            ctx_unique(r@.map_values(|x: (String, u64)| (x.0@, x.1))),
    {
        let ghost s = self.entries();
        let (lo, hi) = self.map.range(crate::secs::MIN, crate::secs::MAX);
        let mut acc: Vec<(String, u64)> = Vec::new();
        let mut i = lo;
        proof {
            lemma_lower_bounds(s, total_key(crate::secs::MAX));
            lemma_lower_bounds(s, total_key(crate::secs::MIN));
            assert(acc@.map_values(|x: (String, u64)| (x.0@, x.1)) =~= Seq::<(Seq<char>, u64)>::empty());
        }
        while i < hi
            invariant
                s == self.entries(),
                hi <= s.len(),
                lo <= i,
                ctx_unique(acc@.map_values(|x: (String, u64)| (x.0@, x.1))),
                meter_result(s) == meter_scan(s, i as int, hi as int, acc@.map_values(|x: (String, u64)| (x.0@, x.1))),
            decreases hi - i,
        {
            let m = &self.map.entries[i].val.0;
            proof {
                assert(s[i as int].2.0 == *m);
                reveal_strlit("c");
                assert("c"@ =~= crate::obj::sys_ctx_text());
            }
            if crate::text::str_eq(m.sys_prefix(), "c") {
                meter_add_exec(&mut acc, m.ctx(), m.byte_length());
            }
            i = i + 1;
        }
        acc
    }
}

/// The values held by a sequence of entries, in order.
pub open spec fn values_of<T>(s: Seq<Slot<T>>) -> Seq<T> {
    s.map_values(|e: Slot<T>| e.2)
}

/// Removing an identity keeps the other identities' values and gives back
/// exactly the removed value.
pub proof fn lemma_removed<T>(s: Seq<Slot<T>>, p: Seq<char>)
    requires
        pfx_unique(s),
    ensures
        pfx_unique(removed(s, p)),
        !has_pfx(removed(s, p), p),
        forall|q: Seq<char>| q != p ==> #[trigger] found(removed(s, p), q) == found(s, q),
        found(s, p) matches Some(v) ==> values_of(s).to_multiset() == values_of(removed(s, p)).to_multiset().insert(v),
        found(s, p) is None ==> removed(s, p) == s,
{
    broadcast use vstd::seq_lib::group_to_multiset_ensures;
    let r = removed(s, p);
    if has_pfx(s, p) {
        let i = pfx_index(s, p);
        assert(s[i].0 == p);
        assert(r == s.remove(i));
        assert forall|a: int, b: int| 0 <= a < r.len() && 0 <= b < r.len() && a != b implies #[trigger] r[a].0 != #[trigger] r[b].0 by {
            let a2 = if a < i { a } else { a + 1 };
            let b2 = if b < i { b } else { b + 1 };
            assert(r[a] == s[a2] && r[b] == s[b2]);
        }
        assert(!has_pfx(r, p)) by {
            if has_pfx(r, p) {
                let j = pfx_index(r, p);
                let j2 = if j < i { j } else { j + 1 };
                assert(r[j] == s[j2]);
            }
        }
        assert forall|q: Seq<char>| q != p implies #[trigger] found(r, q) == found(s, q) by {
            if has_pfx(s, q) {
                let k = pfx_index(s, q);
                assert(s[k].0 == q);
                let k2 = if k < i { k } else { k - 1 };
                assert(r[k2] == s[k]);
                assert(has_pfx(r, q));
                let m = pfx_index(r, q);
                let m2 = if m < i { m } else { m + 1 };
                assert(r[m] == s[m2]);
                assert(s[m2].0 == q);
            } else if has_pfx(r, q) {
                let m = pfx_index(r, q);
                let m2 = if m < i { m } else { m + 1 };
                assert(r[m] == s[m2]);
            }
        }
        assert(values_of(r) =~= values_of(s).remove(i));
        assert(values_of(s)[i] == s[i].2);
        assert(values_of(s).to_multiset().count(s[i].2) > 0) by {
            assert(values_of(s).contains(s[i].2));
        }
        assert(values_of(s).to_multiset() =~= values_of(r).to_multiset().insert(s[i].2));
    }
}

/// Inserting a new identity makes it hold the given value and keeps every
/// other identity's value.
pub proof fn lemma_inserted<T>(r: Seq<Slot<T>>, p: Seq<char>, o: u64, v: T)
    requires
        pfx_unique(r),
        !has_pfx(r, p),
    ensures
        pfx_unique(inserted(r, p, o, v)),
        found(inserted(r, p, o, v), p) == Some(v),
        forall|q: Seq<char>| q != p ==> #[trigger] found(inserted(r, p, o, v), q) == found(r, q),
        values_of(inserted(r, p, o, v)).to_multiset() == values_of(r).to_multiset().insert(v),
{
    broadcast use vstd::seq_lib::group_to_multiset_ensures;
    let pos = upper(r, total_key(o));
    lemma_upper_bounds(r, total_key(o));
    let t = inserted(r, p, o, v);
    assert(t == r.insert(pos, (p, o, v)));
    assert(t[pos] == (p, o, v));
    assert forall|a: int, b: int| 0 <= a < t.len() && 0 <= b < t.len() && a != b implies #[trigger] t[a].0 != #[trigger] t[b].0 by {
        if a != pos && b != pos {
            let a2 = if a < pos { a } else { a - 1 };
            let b2 = if b < pos { b } else { b - 1 };
            assert(t[a] == r[a2] && t[b] == r[b2]);
        } else if a == pos {
            let b2 = if b < pos { b } else { b - 1 };
            assert(t[b] == r[b2]);
        } else {
            let a2 = if a < pos { a } else { a - 1 };
            assert(t[a] == r[a2]);
        }
    }
    assert(t[pos].0 == p);
    assert(has_pfx(t, p));
    let j = pfx_index(t, p);
    assert(t[j].0 == p);
    assert(j == pos);
    assert forall|q: Seq<char>| q != p implies #[trigger] found(t, q) == found(r, q) by {
        if has_pfx(r, q) {
            let k = pfx_index(r, q);
            assert(r[k].0 == q);
            let k2 = if k < pos { k } else { k + 1 };
            assert(t[k2] == r[k]);
            assert(has_pfx(t, q));
            let m = pfx_index(t, q);
            assert(t[m].0 == q);
            assert(m != pos);
            let m2 = if m < pos { m } else { m - 1 };
            assert(t[m] == r[m2]);
        } else if has_pfx(t, q) {
            let m = pfx_index(t, q);
            assert(t[m].0 == q);
            assert(m != pos);
            let m2 = if m < pos { m } else { m - 1 };
            assert(t[m] == r[m2]);
        }
    }
    assert(values_of(t).remove(pos) =~= values_of(r));
    assert(values_of(t)[pos] == v);
    assert(values_of(t).to_multiset().count(v) > 0) by {
        assert(values_of(t).contains(v));
    }
    assert(values_of(t).to_multiset() =~= values_of(r).to_multiset().insert(v));
}

/// Law (read after write): putting an item that has not expired makes it the
/// item filed under its identity, unless an unexpired item of that identity
/// created at the same time or later is already there.
pub proof fn law_put_newer_is_found<Info>(
    es: Seq<Slot<Item<Info>>>,
    del: Seq<Item<Info>>,
    meta: ObjMeta,
    info: Info,
    now: u64,
)
    requires
        pfx_unique(es),
        !expired(meta, now),
        match found(es, pfx_of(meta.path@)) {
            None => true,
            Some(orig) => expired(orig.0, now) || !crate::secs::le(meta.created, orig.0.created),
        },
    ensures
        found(put_result(es, del, meta, info, now).0, pfx_of(meta.path@)) == Some((meta, info)),
{
    let p = pfx_of(meta.path@);
    lemma_removed(es, p);
    lemma_inserted(removed(es, p), p, meta.created, (meta, info));
}

/// Law (older write loses): putting an item older than, or as old as, the
/// unexpired item of the same identity keeps that item and sends the new
/// one to the delete list.
pub proof fn law_put_older_is_discarded<Info>(
    es: Seq<Slot<Item<Info>>>,
    del: Seq<Item<Info>>,
    meta: ObjMeta,
    info: Info,
    now: u64,
)
    requires
        pfx_unique(es),
        !expired(meta, now),
        found(es, pfx_of(meta.path@)) matches Some(orig) && !expired(orig.0, now)
            && crate::secs::le(meta.created, orig.0.created),
    ensures
        found(put_result(es, del, meta, info, now).0, pfx_of(meta.path@)) == found(es, pfx_of(meta.path@)),
        put_result(es, del, meta, info, now).1 == del.push((meta, info)),
{
    let p = pfx_of(meta.path@);
    let orig = found(es, p)->0;
    lemma_removed(es, p);
    let es2 = inserted(removed(es, p), p, meta.created, (meta, info));
    lemma_inserted(removed(es, p), p, meta.created, (meta, info));
    lemma_removed(es2, p);
    lemma_inserted(removed(es2, p), p, orig.0.created, orig);
}

/// Law (isolation): putting an item leaves every other identity as it was.
pub proof fn law_put_other_unchanged<Info>(
    es: Seq<Slot<Item<Info>>>,
    del: Seq<Item<Info>>,
    meta: ObjMeta,
    info: Info,
    now: u64,
    q: Seq<char>,
)
    requires
        pfx_unique(es),
        q != pfx_of(meta.path@),
    ensures
        found(put_result(es, del, meta, info, now).0, q) == found(es, q),
{
    let p = pfx_of(meta.path@);
    if !expired(meta, now) {
        lemma_removed(es, p);
        let es2 = inserted(removed(es, p), p, meta.created, (meta, info));
        lemma_inserted(removed(es, p), p, meta.created, (meta, info));
        if let Some(orig) = found(es, p) {
            lemma_removed(es2, p);
            lemma_inserted(removed(es2, p), p, orig.0.created, orig);
        }
    }
}

/// Law (nothing is lost): after a put, the indexed items and the delete list
/// together hold exactly what they held before plus the new item.
pub proof fn law_put_conserves<Info>(
    es: Seq<Slot<Item<Info>>>,
    del: Seq<Item<Info>>,
    meta: ObjMeta,
    info: Info,
    now: u64,
)
    requires
        pfx_unique(es),
    ensures
        values_of(put_result(es, del, meta, info, now).0).to_multiset().add(
            put_result(es, del, meta, info, now).1.to_multiset(),
        ) == values_of(es).to_multiset().add(del.to_multiset()).insert((meta, info)),
{
    broadcast use vstd::seq_lib::group_to_multiset_ensures;
    broadcast use vstd::multiset::group_multiset_axioms;
    let p = pfx_of(meta.path@);
    let x = (meta, info);
    if expired(meta, now) {
        assert(values_of(es).to_multiset().add(del.push(x).to_multiset()) =~= values_of(es).to_multiset().add(del.to_multiset()).insert(x));
    } else {
        lemma_removed(es, p);
        let r = removed(es, p);
        let es2 = inserted(r, p, meta.created, x);
        lemma_inserted(r, p, meta.created, x);
        match found(es, p) {
            None => {
                assert(values_of(es2).to_multiset().add(del.to_multiset()) =~= values_of(es).to_multiset().add(del.to_multiset()).insert(x));
            },
            Some(orig) => {
                if expired(orig.0, now) || !crate::secs::le(meta.created, orig.0.created) {
                    assert(values_of(es2).to_multiset().add(del.push(orig).to_multiset()) =~= values_of(es).to_multiset().add(del.to_multiset()).insert(x));
                } else {
                    lemma_removed(es2, p);
                    let r2 = removed(es2, p);
                    lemma_inserted(r2, p, orig.0.created, orig);
                    let es4 = inserted(r2, p, orig.0.created, orig);
                    assert(found(es2, p) == Some(x));
                    assert(values_of(es2).to_multiset() == values_of(r2).to_multiset().insert(x));
                    assert(values_of(es2).to_multiset() == values_of(r).to_multiset().insert(x));
                    assert forall|y: Item<Info>| values_of(r2).to_multiset().count(y) == values_of(r).to_multiset().count(y) by {
                        assert(values_of(r2).to_multiset().insert(x).count(y) == values_of(r).to_multiset().insert(x).count(y));
                    }
                    assert(values_of(r2).to_multiset() =~= values_of(r).to_multiset());
                    assert(values_of(es4).to_multiset().add(del.push(x).to_multiset()) =~= values_of(es).to_multiset().add(del.to_multiset()).insert(x));
                }
            },
        }
    }
}

/// Law (expired writes are discarded): an item already expired at `now`
/// leaves the entries unchanged and goes to the delete list.
pub proof fn law_put_expired_is_discarded<Info>(
    es: Seq<Slot<Item<Info>>>,
    del: Seq<Item<Info>>,
    meta: ObjMeta,
    info: Info,
    now: u64,
)
    requires
        expired(meta, now),
    ensures
        put_result(es, del, meta, info, now) == (es, del.push((meta, info))),
{
}

/// Law (pruning): after pruning at `now` every remaining entry is live, and
/// the remaining items plus the delete list hold exactly what was held before.
pub proof fn law_prune_keeps_live_and_conserves<Info>(
    es: Seq<Slot<Item<Info>>>,
    del: Seq<Item<Info>>,
    now: u64,
)
    ensures
        forall|i: int| 0 <= i < es.filter(live::<Info>(now)).len() ==> live::<Info>(now)(#[trigger] es.filter(live::<Info>(now))[i]),
        values_of(es.filter(live::<Info>(now))).to_multiset().add((del + dead_items(es, now)).to_multiset())
            == values_of(es).to_multiset().add(del.to_multiset()),
    decreases es.len(),
{
    broadcast use vstd::seq_lib::group_filter_ensures;
    broadcast use vstd::seq_lib::group_to_multiset_ensures;
    broadcast use vstd::multiset::group_multiset_axioms;
    if es.len() > 0 {
        let rest = es.drop_last();
        law_prune_keeps_live_and_conserves(rest, del, now);
        reveal(Seq::filter);
        let e = es.last();
        let lf = rest.filter(live::<Info>(now));
        let df = rest.filter(|x: Slot<Item<Info>>| !live::<Info>(now)(x));
        assert(es.filter(live::<Info>(now)) == if live::<Info>(now)(e) { lf.push(e) } else { lf });
        assert(es.filter(|x: Slot<Item<Info>>| !live::<Info>(now)(x)) == if !live::<Info>(now)(e) { df.push(e) } else { df });
        vstd::seq_lib::lemma_multiset_commutative(del, dead_items(rest, now));
        vstd::seq_lib::lemma_multiset_commutative(del, dead_items(es, now));
        vstd::seq_lib::lemma_multiset_commutative(values_of(rest), seq![e.2]);
        let ih_l = values_of(lf).to_multiset();
        let ih_d = (del + dead_items(rest, now)).to_multiset();
        assert(ih_l.add(ih_d) == values_of(rest).to_multiset().add(del.to_multiset()));
        assert(values_of(es) =~= values_of(rest).push(e.2));
        assert(values_of(rest).push(e.2).to_multiset() =~= values_of(rest).to_multiset().insert(e.2));
        let goal_l = values_of(es.filter(live::<Info>(now))).to_multiset();
        let goal_d = (del + dead_items(es, now)).to_multiset();
        let goal_r = values_of(es).to_multiset().add(del.to_multiset());
        assert(values_of(es).to_multiset() == values_of(rest).to_multiset().insert(e.2));
        if live::<Info>(now)(e) {
            assert(values_of(lf.push(e)) =~= values_of(lf).push(e.2));
            assert(values_of(lf).push(e.2).to_multiset() =~= ih_l.insert(e.2));
            assert(goal_l == ih_l.insert(e.2));
            assert(dead_items(es, now) =~= dead_items(rest, now));
            assert(goal_d == ih_d);
            assert forall|y: Item<Info>| goal_l.add(goal_d).count(y) == goal_r.count(y) by {
                assert(ih_l.add(ih_d).count(y) == values_of(rest).to_multiset().add(del.to_multiset()).count(y));
            }
            assert(goal_l.add(goal_d) =~= goal_r);
        } else {
            assert(goal_l == ih_l);
            assert(dead_items(es, now) =~= dead_items(rest, now).push(e.2));
            assert((del + dead_items(es, now)) =~= (del + dead_items(rest, now)).push(e.2));
            assert((del + dead_items(rest, now)).push(e.2).to_multiset() =~= ih_d.insert(e.2));
            assert(goal_d == ih_d.insert(e.2));
            assert forall|y: Item<Info>| goal_l.add(goal_d).count(y) == goal_r.count(y) by {
                assert(ih_l.add(ih_d).count(y) == values_of(rest).to_multiset().add(del.to_multiset()).count(y));
            }
            assert(goal_l.add(goal_d) =~= goal_r);
        }
    } else {
        reveal(Seq::filter);
        assert(dead_items(es, now) =~= Seq::<Item<Info>>::empty());
        assert(del + dead_items(es, now) =~= del);
        assert(values_of(es) =~= Seq::<Item<Info>>::empty());
        assert(values_of(es.filter(live::<Info>(now))) =~= Seq::<Item<Info>>::empty());
    }
}

/// Law (pruning collects the expired): with the delete list taken just
/// before, pruning at `now` and taking the delete list again gives exactly
/// the entries that expire (a non-zero expiry) at or before `now`, in
/// order; a second take then gives nothing.
pub proof fn law_prune_then_take<Info>(es: Seq<Slot<Item<Info>>>, now: u64)
    ensures
        Seq::<Item<Info>>::empty() + dead_items(es, now) == dead_items(es, now),
        forall|i: int| 0 <= i < dead_items(es, now).len() ==> !crate::secs::eq(
            (#[trigger] dead_items(es, now)[i]).0.expires,
            crate::secs::ZERO,
        ) && !crate::secs::lt(now, dead_items(es, now)[i].0.expires),
        forall|i: int| 0 <= i < es.len() && !live::<Info>(now)(es[i]) ==> #[trigger] dead_items(es, now).contains(
            es[i].2,
        ),
{
    broadcast use vstd::seq_lib::group_filter_ensures;
    let dead = |e: Slot<Item<Info>>| !live::<Info>(now)(e);
    let f = es.filter(dead);
    assert(Seq::<Item<Info>>::empty() + dead_items(es, now) =~= dead_items(es, now));
    assert forall|i: int| 0 <= i < dead_items(es, now).len() implies !crate::secs::eq(
        (#[trigger] dead_items(es, now)[i]).0.expires,
        crate::secs::ZERO,
    ) && !crate::secs::lt(now, dead_items(es, now)[i].0.expires) by {
        assert(dead_items(es, now)[i] == f[i].2);
        assert(dead(f[i]));
    }
    assert forall|i: int| 0 <= i < es.len() && !live::<Info>(now)(es[i]) implies #[trigger] dead_items(
        es,
        now,
    ).contains(es[i].2) by {
        assert(dead(es[i]));
        assert(f.contains(es[i]));
        let k = choose|k: int| 0 <= k < f.len() && f[k] == es[i];
        assert(dead_items(es, now)[k] == es[i].2);
    }
}

/// A put keeps one entry per identity.
proof fn lemma_put_unique<Info>(
    es: Seq<Slot<Item<Info>>>,
    del: Seq<Item<Info>>,
    meta: ObjMeta,
    info: Info,
    now: u64,
)
    requires
        pfx_unique(es),
    ensures
        pfx_unique(put_result(es, del, meta, info, now).0),
{
    if !expired(meta, now) {
        let p = pfx_of(meta.path@);
        lemma_removed(es, p);
        let es2 = inserted(removed(es, p), p, meta.created, (meta, info));
        lemma_inserted(removed(es, p), p, meta.created, (meta, info));
        if let Some(orig) = found(es, p) {
            lemma_removed(es2, p);
            lemma_inserted(removed(es2, p), p, orig.0.created, orig);
        }
    }
}

/// The entries and the delete list after a sequence of puts at `now`.
pub open spec fn puts_result<Info>(
    es: Seq<Slot<Item<Info>>>,
    del: Seq<Item<Info>>,
    puts: Seq<Item<Info>>,
    now: u64,
) -> (Seq<Slot<Item<Info>>>, Seq<Item<Info>>)
    decreases puts.len(),
{
    if puts.len() == 0 {
        (es, del)
    } else {
        let prev = puts_result(es, del, puts.drop_last(), now);
        put_result(prev.0, prev.1, puts.last().0, puts.last().1, now)
    }
}

/// Among the first `n` puts, the position of the one created last; of
/// those created at the same time, the earliest put.
pub open spec fn newest_put<Info>(puts: Seq<Item<Info>>, n: int) -> int
    decreases n,
{
    if n <= 1 {
        0
    } else {
        let b = newest_put(puts, n - 1);
        if crate::secs::le(puts[n - 1].0.created, puts[b].0.created) {
            b
        } else {
            n - 1
        }
    }
}

proof fn lemma_newest_put_range<Info>(puts: Seq<Item<Info>>, n: int)
    requires
        n >= 1,
    ensures
        0 <= newest_put(puts, n) < n,
    decreases n,
{
    if n > 1 {
        lemma_newest_put_range(puts, n - 1);
    }
}

proof fn lemma_newest_put_prefix<Info>(puts: Seq<Item<Info>>, n: int)
    requires
        1 <= n < puts.len(),
    ensures
        newest_put(puts.drop_last(), n) == newest_put(puts, n),
    decreases n,
{
    if n > 1 {
        lemma_newest_put_prefix(puts, n - 1);
        lemma_newest_put_range(puts, n - 1);
        assert(puts.drop_last()[n - 1] == puts[n - 1]);
        assert(puts.drop_last()[newest_put(puts, n - 1)] == puts[newest_put(puts, n - 1)]);
    }
}

/// Law (many writes of one identity): after a sequence of unexpired puts of
/// one identity that the index did not hold, the index holds the put
/// created last (the earliest put among those created at the same time),
/// and still one entry per identity.
pub proof fn law_puts_keep_newest<Info>(
    es: Seq<Slot<Item<Info>>>,
    del: Seq<Item<Info>>,
    puts: Seq<Item<Info>>,
    p: Seq<char>,
    now: u64,
)
    requires
        pfx_unique(es),
        found(es, p) is None,
        puts.len() > 0,
        forall|i: int| 0 <= i < puts.len() ==> pfx_of((#[trigger] puts[i]).0.path@) == p && !expired(puts[i].0, now),
    ensures
        pfx_unique(puts_result(es, del, puts, now).0),
        found(puts_result(es, del, puts, now).0, p) == Some(puts[newest_put(puts, puts.len() as int)]),
    decreases puts.len(),
{
    let n = puts.len() as int;
    let last = puts.last();
    assert(puts[n - 1] == last);
    let prev = puts_result(es, del, puts.drop_last(), now);
    if n == 1 {
        assert(puts.drop_last() =~= Seq::<Item<Info>>::empty());
        assert(prev == (es, del));
        law_put_newer_is_found(es, del, last.0, last.1, now);
        lemma_put_unique(es, del, last.0, last.1, now);
    } else {
        let dl = puts.drop_last();
        assert forall|i: int| 0 <= i < dl.len() implies pfx_of((#[trigger] dl[i]).0.path@) == p && !expired(
            dl[i].0,
            now,
        ) by {
            assert(dl[i] == puts[i]);
        }
        law_puts_keep_newest(es, del, dl, p, now);
        lemma_newest_put_prefix(puts, n - 1);
        lemma_newest_put_range(puts, n - 1);
        let b = newest_put(puts, n - 1);
        assert(dl[b] == puts[b]);
        let orig = puts[b];
        assert(found(prev.0, p) == Some(orig));
        assert(!expired(orig.0, now));
        lemma_put_unique(prev.0, prev.1, last.0, last.1, now);
        if crate::secs::le(last.0.created, orig.0.created) {
            law_put_older_is_discarded(prev.0, prev.1, last.0, last.1, now);
        } else {
            law_put_newer_is_found(prev.0, prev.1, last.0, last.1, now);
        }
    }
}

proof fn lemma_scan_within_limit<Info>(
    s: Seq<Slot<Item<Info>>>,
    i: int,
    hi: int,
    prefix: Seq<char>,
    gt: u64,
    limit: nat,
    out: Seq<Seq<char>>,
    last: u64,
)
    requires
        limit >= 1,
        out.len() <= limit,
        out.len() == limit && 0 <= i < hi && i < s.len() ==> crate::secs::lt(last, s[i].2.0.created),
        forall|k: int| 0 <= k && k + 1 < s.len() ==> crate::secs::lt(#[trigger] s[k].2.0.created, s[k + 1].2.0.created),
    ensures
        list_scan(s, i, hi, prefix, gt, limit, out, last).len() <= limit,
    decreases hi - i,
{
    if !(i >= hi || i < 0 || i >= s.len()) {
        let m = s[i].2.0;
        if !(out.len() >= limit && crate::secs::lt(last, m.created)) {
            let out2 = if crate::secs::lt(gt, m.created) && prefix.is_prefix_of(m.path@) {
                out.push(m.path@)
            } else {
                out
            };
            if i + 1 < s.len() {
                assert(crate::secs::lt(s[i].2.0.created, s[i + 1].2.0.created));
            }
            lemma_scan_within_limit(s, i + 1, hi, prefix, gt, limit, out2, m.created);
        }
    }
}

/// Law (paging never exceeds the limit without a tie): when the indexed
/// entries have strictly increasing creation times, a listing holds at
/// most `limit` paths (for a limit of at least one).
pub proof fn law_list_within_limit<Info>(
    s: Seq<Slot<Item<Info>>>,
    prefix: Seq<char>,
    created_gt: u64,
    limit: nat,
)
    requires
        limit >= 1,
        forall|k: int| 0 <= k && k + 1 < s.len() ==> crate::secs::lt(#[trigger] s[k].2.0.created, s[k + 1].2.0.created),
    ensures
        list_result(s, prefix, created_gt, limit).len() <= limit,
{
    lemma_scan_within_limit(
        s,
        lower(s, total_key(created_gt)),
        lower(s, total_key(crate::secs::MAX)),
        prefix,
        created_gt,
        limit,
        Seq::empty(),
        crate::secs::ZERO,
    );
}

/// `x` is the path of an entry created after `gt` that starts with
/// `prefix`.
pub open spec fn listed_path<Info>(s: Seq<Slot<Item<Info>>>, prefix: Seq<char>, gt: u64, x: Seq<char>) -> bool {
    &&& prefix.is_prefix_of(x)
    &&& exists|i: int| 0 <= i < s.len() && (#[trigger] s[i]).2.0.path@ == x && crate::secs::lt(gt, s[i].2.0.created)
}

proof fn lemma_scan_listed<Info>(
    s: Seq<Slot<Item<Info>>>,
    i: int,
    hi: int,
    prefix: Seq<char>,
    gt: u64,
    limit: nat,
    out: Seq<Seq<char>>,
    last: u64,
)
    requires
        forall|j: int| 0 <= j < out.len() ==> listed_path(s, prefix, gt, #[trigger] out[j]),
    ensures
        forall|j: int| 0 <= j < list_scan(s, i, hi, prefix, gt, limit, out, last).len() ==> listed_path(
            s,
            prefix,
            gt,
            #[trigger] list_scan(s, i, hi, prefix, gt, limit, out, last)[j],
        ),
    decreases hi - i,
{
    if !(i >= hi || i < 0 || i >= s.len()) {
        let m = s[i].2.0;
        if !(out.len() >= limit && crate::secs::lt(last, m.created)) {
            let out2 = if crate::secs::lt(gt, m.created) && prefix.is_prefix_of(m.path@) {
                out.push(m.path@)
            } else {
                out
            };
            assert forall|j: int| 0 <= j < out2.len() implies listed_path(s, prefix, gt, #[trigger] out2[j]) by {
                if j == out.len() {
                    assert(s[i].2.0.path@ == out2[j]);
                } else {
                    assert(out2[j] == out[j]);
                }
            }
            lemma_scan_listed(s, i + 1, hi, prefix, gt, limit, out2, m.created);
            assert(list_scan(s, i, hi, prefix, gt, limit, out, last) == list_scan(
                s,
                i + 1,
                hi,
                prefix,
                gt,
                limit,
                out2,
                m.created,
            ));
        } else {
            assert(list_scan(s, i, hi, prefix, gt, limit, out, last) == out);
        }
    } else {
        assert(list_scan(s, i, hi, prefix, gt, limit, out, last) == out);
    }
}

/// Law (a listing holds only matching paths): every path a listing gives
/// starts with the prefix and is the path of an indexed entry created
/// after `created_gt`.
pub proof fn law_list_only_matching<Info>(s: Seq<Slot<Item<Info>>>, prefix: Seq<char>, created_gt: u64, limit: nat)
    ensures
        forall|j: int| 0 <= j < list_result(s, prefix, created_gt, limit).len() ==> listed_path(
            s,
            prefix,
            created_gt,
            #[trigger] list_result(s, prefix, created_gt, limit)[j],
        ),
{
    lemma_scan_listed(
        s,
        lower(s, total_key(created_gt)),
        lower(s, total_key(crate::secs::MAX)),
        prefix,
        created_gt,
        limit,
        Seq::empty(),
        crate::secs::ZERO,
    );
}

} // verus!
