//! The decisions of the file-backed context store: where an item lives on
//! disk, whether an insert may replace what is stored, which index entries
//! a select matches, and what it returns of them.
//!
//! Times and sizes follow [crate::secs]: a time-to-live is a double bit
//! pattern; sizes are byte counts.

use vstd::prelude::*;
use crate::error::{Error, ErrorKind, Result};
use crate::hash::bytes_eq;
use crate::ext::base64url_encode;
use crate::text::{concat, push_char, str_eq};

verus! {

/// One item of the store's index.
pub struct IndexItem {
    /// The item's type.
    pub type_: String,
    /// The item's identity.
    pub ident: crate::hash::Hash,
    /// The short hash of the stored bytes.
    pub short: crate::hash::Hash,
    /// The size of the stored bytes.
    pub size: u64,
    /// When the item expires (seconds since the epoch, as a double bit
    /// pattern), if it does.
    pub ttl_s: Option<u64>,
}

/// A select request.
pub struct VmSelect {
    /// Only items of these types, if given.
    pub filter_by_types: Option<Vec<String>>,
    /// Only items with these identities, if given.
    pub filter_by_idents: Option<Vec<crate::hash::Hash>>,
    /// Only items with these short hashes, if given.
    pub filter_by_shorts: Option<Vec<crate::hash::Hash>>,
    /// Return item sizes.
    pub return_size: Option<bool>,
    /// Keep short hashes in results with data.
    pub return_short: Option<bool>,
    /// Keep identities in results with data.
    pub return_ident: Option<bool>,
    /// Keep types in results with data.
    pub return_type: Option<bool>,
    /// Return item data.
    pub return_data: Option<bool>,
}

impl Default for VmSelect {
    /// No filter, nothing extra returned.
    fn default() -> (r: Self)
        ensures
            r.filter_by_types is None,
            r.filter_by_idents is None,
            r.filter_by_shorts is None,
            r.return_size is None,
            r.return_short is None,
            r.return_ident is None,
            r.return_type is None,
            r.return_data is None,
    {
        VmSelect {
            filter_by_types: None,
            filter_by_idents: None,
            filter_by_shorts: None,
            return_size: None,
            return_short: None,
            return_ident: None,
            return_type: None,
            return_data: None,
        }
    }
}

/// One item of a select response (its data is read separately).
pub struct SelectItem {
    /// The type, if kept.
    pub type_: Option<String>,
    /// The size, if requested.
    pub size: Option<u64>,
    /// The short hash, if kept.
    pub short: Option<crate::hash::Hash>,
    /// The identity, if kept.
    pub ident: Option<crate::hash::Hash>,
}

/// The view of a select response item.
pub type SelectView = (Option<Seq<char>>, Option<u64>, Option<Seq<u8>>, Option<Seq<u8>>);

/// The view of a select response item.
pub open spec fn select_view(r: SelectItem) -> SelectView {
    (
        match r.type_ {
            Some(t) => Some(t@),
            None => None,
        },
        r.size,
        match r.short {
            Some(h) => Some(h@),
            None => None,
        },
        match r.ident {
            Some(h) => Some(h@),
            None => None,
        },
    )
}

/// The item has not expired at `now`: it has no time-to-live, or that
/// time is not before `now`.
pub open spec fn live(it: IndexItem, now: u64) -> bool {
    !(it.ttl_s matches Some(t) && crate::secs::lt(t, now))
}

/// A list holds a string with these characters.
pub open spec fn has_text(l: Seq<String>, s: Seq<char>) -> bool {
    exists|i: int| 0 <= i < l.len() && (#[trigger] l[i])@ == s
}

/// A list holds a hash with these bytes.
pub open spec fn has_bytes(l: Seq<crate::hash::Hash>, b: Seq<u8>) -> bool {
    exists|i: int| 0 <= i < l.len() && (#[trigger] l[i])@ == b
}

/// The item passes every filter that the request gives.
pub open spec fn passes(it: IndexItem, sel: VmSelect) -> bool {
    &&& (sel.filter_by_types matches Some(l) ==> has_text(l@, it.type_@))
    &&& (sel.filter_by_idents matches Some(l) ==> has_bytes(l@, it.ident@))
    &&& (sel.filter_by_shorts matches Some(l) ==> has_bytes(l@, it.short@))
}

/// What a select returns of a matching item: its type, size, short hash
/// and identity, each only when requested.
pub open spec fn result_of(it: IndexItem, sel: VmSelect) -> SelectView {
    (
        if sel.return_type == Some(true) { Some(it.type_@) } else { None },
        if sel.return_size == Some(true) { Some(it.size) } else { None },
        if sel.return_short == Some(true) { Some(it.short@) } else { None },
        if sel.return_ident == Some(true) { Some(it.ident@) } else { None },
    )
}

/// The live entries that pass the filters, in index order.
pub open spec fn matching(s: Seq<IndexItem>, sel: VmSelect, now: u64) -> Seq<IndexItem>
    decreases s.len(),
{
    if s.len() == 0 {
        Seq::empty()
    } else {
        let prev = matching(s.drop_last(), sel, now);
        if live(s.last(), now) && passes(s.last(), sel) {
            prev.push(s.last())
        } else {
            prev
        }
    }
}

/// The results of a select over the index entries, in index order.
pub open spec fn select_results(s: Seq<IndexItem>, sel: VmSelect, now: u64) -> Seq<SelectView>
    decreases s.len(),
{
    if s.len() == 0 {
        Seq::empty()
    } else {
        let prev = select_results(s.drop_last(), sel, now);
        if live(s.last(), now) && passes(s.last(), sel) {
            prev.push(result_of(s.last(), sel))
        } else {
            prev
        }
    }
}

/// The total size of the selected items, saturating at `u64::MAX`.
pub open spec fn select_size(s: Seq<IndexItem>, sel: VmSelect, now: u64) -> u64
    decreases s.len(),
{
    if s.len() == 0 {
        0
    } else {
        let prev = select_size(s.drop_last(), sel, now);
        if live(s.last(), now) && passes(s.last(), sel) {
            if prev + s.last().size > u64::MAX {
                u64::MAX
            } else {
                (prev + s.last().size) as u64
            }
        } else {
            prev
        }
    }
}

/// The entries that stay in the index after a select: the live ones.
pub open spec fn kept(s: Seq<IndexItem>, now: u64) -> Seq<IndexItem>
    decreases s.len(),
{
    if s.len() == 0 {
        Seq::empty()
    } else {
        let prev = kept(s.drop_last(), now);
        if live(s.last(), now) {
            prev.push(s.last())
        } else {
            prev
        }
    }
}

/// True if some string of the list has the same characters.
fn has_text_exec(l: &Vec<String>, s: &str) -> (r: bool)
    ensures
        r == has_text(l@, s@),
{
    let mut i: usize = 0;
    while i < l.len()
        invariant
            i <= l@.len(),
            forall|j: int| 0 <= j < i ==> (#[trigger] l@[j])@ != s@,
        decreases l@.len() - i,
    {
        if str_eq(l[i].as_str(), s) {
            return true;
        }
        i = i + 1;
    }
    false
}

/// True if some hash of the list has the same bytes.
fn has_bytes_exec(l: &Vec<crate::hash::Hash>, b: &crate::hash::Hash) -> (r: bool)
    ensures
        r == has_bytes(l@, b@),
{
    let mut i: usize = 0;
    while i < l.len()
        invariant
            i <= l@.len(),
            forall|j: int| 0 <= j < i ==> (#[trigger] l@[j])@ != b@,
        decreases l@.len() - i,
    {
        if bytes_eq(l[i].as_bytes(), b.as_bytes()) {
            return true;
        }
        i = i + 1;
    }
    false
}

/// True if the item passes every filter of the request.
fn passes_exec(it: &IndexItem, sel: &VmSelect) -> (r: bool)
    ensures
        r == passes(*it, *sel),
{
    if let Some(l) = &sel.filter_by_types {
        if !has_text_exec(l, it.type_.as_str()) {
            return false;
        }
    }
    if let Some(l) = &sel.filter_by_idents {
        if !has_bytes_exec(l, &it.ident) {
            return false;
        }
    }
    if let Some(l) = &sel.filter_by_shorts {
        if !has_bytes_exec(l, &it.short) {
            return false;
        }
    }
    true
}

/// The outcome of a select over the index: the entries that stay, the
/// number and total size of the matching items, and what is returned of
/// each.
pub struct SelectOutcome {
    /// The live entries, in order.
    pub kept: Vec<IndexItem>,
    /// The number of matching items.
    pub count: u64,
    /// Their total size (saturating).
    pub size: u64,
    /// What is returned of each matching item, in order.
    pub results: Vec<SelectItem>,
    /// The position in `kept` of each matching entry, in order: where its
    /// data is read from when it is requested.
    pub matched: Vec<usize>,
}

/// Runs a select over the index: expired entries leave the index, live
/// entries that pass the filters are counted and returned.
pub fn select_index(index: Vec<IndexItem>, sel: &VmSelect, now: u64) -> (r: SelectOutcome)
    ensures
        r.kept@ == kept(index@, now),
        r.results@.map_values(|x: SelectItem| select_view(x)) == select_results(index@, *sel, now),
        r.count == r.results@.len(),
        r.size == select_size(index@, *sel, now),
        r.matched@.len() == matching(index@, *sel, now).len(),
        r.results@.len() == r.matched@.len(),
        forall|j: int| 0 <= j < r.matched@.len() ==> (#[trigger] r.matched@[j]) < r.kept@.len()
            && r.kept@[r.matched@[j] as int] == matching(index@, *sel, now)[j],
{
    let ghost s = index@;
    let n: usize = index.len();
    let mut kept_items: Vec<IndexItem> = Vec::new();
    let mut results: Vec<SelectItem> = Vec::new();
    let mut matched: Vec<usize> = Vec::new();
    let mut count: u64 = 0;
    let mut size: u64 = 0;
    let want_size = match sel.return_size {
        Some(b) => b,
        None => false,
    };
    let want_type = match sel.return_type {
        Some(b) => b,
        None => false,
    };
    let want_short = match sel.return_short {
        Some(b) => b,
        None => false,
    };
    let want_ident = match sel.return_ident {
        Some(b) => b,
        None => false,
    };
    for item in it: index
        invariant
            it.seq() == s,
            s.len() == n,
            kept_items@ == kept(s.take(it.index() as int), now),
            results@.map_values(|x: SelectItem| select_view(x)) == select_results(
                s.take(it.index() as int),
                *sel,
                now,
            ),
            count == results@.len(),
            size == select_size(s.take(it.index() as int), *sel, now),
            want_size == (sel.return_size == Some(true)),
            want_type == (sel.return_type == Some(true)),
            want_short == (sel.return_short == Some(true)),
            want_ident == (sel.return_ident == Some(true)),
            matched@.len() == matching(s.take(it.index() as int), *sel, now).len(),
            forall|j: int| 0 <= j < matched@.len() ==> (#[trigger] matched@[j]) < kept_items@.len()
                && kept_items@[matched@[j] as int] == matching(s.take(it.index() as int), *sel, now)[j],
            kept_items@.len() <= it.index(),
            results@.len() <= it.index(),
            results@.len() == matched@.len(),
    {
        let ghost k = it.index() as int;
        proof {
            assert(s.take(k + 1).drop_last() =~= s.take(k));
            assert(s.take(k + 1).last() == item);
        }
        let expired = match item.ttl_s {
            Some(t) => crate::secs::less(t, now),
            None => false,
        };
        if !expired {
            if passes_exec(&item, sel) {
                let ghost before = results@.map_values(|x: SelectItem| select_view(x));
                count = count + 1;
                size = size.saturating_add(item.size);
                let out = SelectItem {
                    type_: if want_type { Some(item.type_.clone()) } else { None },
                    size: if want_size { Some(item.size) } else { None },
                    short: if want_short { Some(item.short.clone()) } else { None },
                    ident: if want_ident { Some(item.ident.clone()) } else { None },
                };
                results.push(out);
                matched.push(kept_items.len());
                proof {
                    assert(results@.map_values(|x: SelectItem| select_view(x)) =~= before.push(
                        result_of(item, *sel),
                    ));
                }
            }
            kept_items.push(item);
        }
    }
    proof {
        assert(s.take(s.len() as int) =~= s);
    }
    SelectOutcome { kept: kept_items, count, size, results, matched }
}

/// The position of the first index entry filed under a type and identity.
pub open spec fn entry_at(s: Seq<IndexItem>, t: Seq<char>, id: Seq<u8>, i: int) -> bool {
    &&& 0 <= i < s.len()
    &&& s[i].type_@ == t && s[i].ident@ == id
    &&& forall|j: int| 0 <= j < i ==> !((#[trigger] s[j]).type_@ == t && s[j].ident@ == id)
}

/// The index entry filed under a type and identity, if any.
pub open spec fn index_lookup(s: Seq<IndexItem>, t: Seq<char>, id: Seq<u8>) -> Option<IndexItem> {
    if exists|i: int| entry_at(s, t, id, i) {
        Some(s[choose|i: int| entry_at(s, t, id, i)])
    } else {
        None
    }
}

/// The position of the entry filed under a type and identity.
fn find_entry(index: &Vec<IndexItem>, type_: &str, ident: &crate::hash::Hash) -> (r: Option<usize>)
    ensures
        r is None <==> !exists|i: int| entry_at(index@, type_@, ident@, i),
        r matches Some(i) ==> entry_at(index@, type_@, ident@, i as int),
{
    let mut i: usize = 0;
    while i < index.len()
        invariant
            i <= index@.len(),
            forall|j: int| 0 <= j < i ==> !((#[trigger] index@[j]).type_@ == type_@ && index@[j].ident@ == ident@),
        decreases index@.len() - i,
    {
        if str_eq(index[i].type_.as_str(), type_) && bytes_eq(index[i].ident.as_bytes(), ident.as_bytes()) {
            proof {
                assert(entry_at(index@, type_@, ident@, i as int));
            }
            return Some(i);
        }
        i = i + 1;
    }
    proof {
        assert forall|k: int| !entry_at(index@, type_@, ident@, k) by {
            if entry_at(index@, type_@, ident@, k) {
                assert(!(index@[k].type_@ == type_@ && index@[k].ident@ == ident@));
            }
        }
    }
    None
}

proof fn lemma_entry_unique(s: Seq<IndexItem>, t: Seq<char>, id: Seq<u8>, i: int)
    requires
        entry_at(s, t, id, i),
    ensures
        index_lookup(s, t, id) == Some(s[i]),
{
    let k = choose|k: int| entry_at(s, t, id, k);
    assert(entry_at(s, t, id, k));
    if k < i {
        assert(!(s[k].type_@ == t && s[k].ident@ == id));
    } else if k > i {
        assert(!(s[i].type_@ == t && s[i].ident@ == id));
    }
}

/// What an insert finds: with no stored entry and no previous item it may
/// go ahead; with a stored entry whose type and identity are those of the
/// previous item the caller saw, it replaces that entry (whose short hash
/// is given back); anything else is a mismatch.
pub open spec fn check_cur_spec(
    found: Option<IndexItem>,
    cur: Option<(Seq<char>, Seq<u8>)>,
) -> Option<Option<Seq<u8>>> {
    match (found, cur) {
        (None, None) => Some(None),
        (Some(i), Some((t, id))) => if i.type_@ == t && i.ident@ == id {
            Some(Some(i.short@))
        } else {
            None
        },
        _ => None,
    }
}

/// Checks that an insert of an item of `type_` and `ident` replaces what
/// the caller saw (`cur`: the type and canonical identity of the previous
/// item, if any); gives the short hash of the replaced entry.
pub fn check_cur(
    index: &Vec<IndexItem>,
    type_: &str,
    ident: &crate::hash::Hash,
    cur: Option<(&str, &crate::hash::Hash)>,
) -> (r: Result<Option<crate::hash::Hash>>)
    ensures
        match check_cur_spec(
            index_lookup(index@, type_@, ident@),
            match cur {
                Some((t, id)) => Some((t@, id@)),
                None => None,
            },
        ) {
            Some(None) => r matches Ok(None),
            Some(Some(sh)) => r matches Ok(Some(h)) && h@ == sh,
            None => r matches Err(e) && e.kind == ErrorKind::Other && (e.message matches Some(m) && m@
                == "mismatching previous item"@),
        },
{
    proof {
        reveal_strlit("mismatching previous item");
    }
    let found = find_entry(index, type_, ident);
    proof {
        if let Some(i) = found {
            lemma_entry_unique(index@, type_@, ident@, i as int);
        }
    }
    match (found, cur) {
        (None, None) => Ok(None),
        (Some(i), Some((t, id))) => {
            let e = &index[i];
            if str_eq(e.type_.as_str(), t) && bytes_eq(e.ident.as_bytes(), id.as_bytes()) {
                Ok(Some(e.short.clone()))
            } else {
                Err(Error::other("mismatching previous item"))
            }
        },
        _ => Err(Error::other("mismatching previous item")),
    }
}

/// Files an entry in the index: it replaces the entry of the same type and
/// identity, or is added at the end.
pub fn index_put(index: &mut Vec<IndexItem>, item: IndexItem)
    ensures
        match index_lookup(old(index)@, item.type_@, item.ident@) {
            Some(_) => exists|i: int|
                entry_at(old(index)@, item.type_@, item.ident@, i) && final(index)@ == old(index)@.update(i, item),
            None => final(index)@ == old(index)@.push(item),
        },
{
    match find_entry(index, item.type_.as_str(), &item.ident) {
        Some(i) => {
            proof {
                lemma_entry_unique(old(index)@, item.type_@, item.ident@, i as int);
            }
            index.set(i, item);
        },
        None => {
            index.push(item);
        },
    }
}

/// Checks that data read from disk has the short hash it is filed under.
pub fn check_short(expected: &crate::hash::Hash, got: &crate::hash::Hash) -> (r: Result<()>)
    ensures
        r is Ok <==> expected@ == got@,
        r matches Err(e) ==> e.kind == ErrorKind::Other,
{
    if bytes_eq(expected.as_bytes(), got.as_bytes()) {
        Ok(())
    } else {
        Err(Error::other("disk corrupted"))
    }
}

/// Lower-case hexadecimal digit.
pub open spec fn hex_digit(n: nat) -> char {
    if n < 10 {
        (('0' as nat) + n) as char
    } else {
        (('a' as nat) + n - 10) as char
    }
}

/// The byte at `i`, or zero past the end.
pub open spec fn byte_or_zero(b: Seq<u8>, i: int) -> u8 {
    if 0 <= i < b.len() {
        b[i]
    } else {
        0
    }
}

/// A directory name `h<xx><yy>` made of the bytes at `i` and `i + 1` of an
/// identity in two-digit lower-case hexadecimal (zero past the end).
pub open spec fn hex_dir(b: Seq<u8>, i: int) -> Seq<char> {
    let x = byte_or_zero(b, i);
    let y = byte_or_zero(b, i + 1);
    seq!['h', hex_digit(x as nat / 16), hex_digit(x as nat % 16), hex_digit(y as nat / 16), hex_digit(y as nat % 16)]
}

fn push_hex(s: &mut String, b: u8)
    ensures
        final(s)@ == old(s)@ + seq![hex_digit(b as nat / 16), hex_digit(b as nat % 16)],
{
    let hi = b / 16;
    let lo = b % 16;
    let c1: char = if hi < 10 { (48u8 + hi) as char } else { (87u8 + hi) as char };
    let c2: char = if lo < 10 { (48u8 + lo) as char } else { (87u8 + lo) as char };
    proof {
        assert(c1 == hex_digit(b as nat / 16));
        assert(c2 == hex_digit(b as nat % 16));
    }
    push_char(s, c1);
    push_char(s, c2);
    proof {
        assert(final(s)@ =~= old(s)@ + seq![c1, c2]);
    }
}

/// The directory name for the bytes at `i` and `i + 1` of an identity.
fn hex_dir_exec(ident: &crate::hash::Hash, i: usize) -> (r: String)
    requires
        i + 1 < usize::MAX,
    ensures
        r@ == hex_dir(ident@, i as int),
{
    let b = ident.as_bytes();
    let x: u8 = if i < b.len() { b[i] } else { 0 };
    let y: u8 = if i + 1 < b.len() { b[i + 1] } else { 0 };
    let mut s = String::new();
    push_char(&mut s, 'h');
    push_hex(&mut s, x);
    push_hex(&mut s, y);
    proof {
        assert(s@ =~= hex_dir(ident@, i as int));
    }
    s
}

/// The directory of an item under the store root: its type, three levels
/// named after the first six bytes of its identity, and the identity in
/// base64url.
pub fn path_pieces(type_: &str, ident: &crate::hash::Hash) -> (r: Vec<String>)
    ensures
        r@.len() == 5,
        r@[0]@ == type_@,
        r@[1]@ == hex_dir(ident@, 0),
        r@[2]@ == hex_dir(ident@, 2),
        r@[3]@ == hex_dir(ident@, 4),
        r@[4]@ == base64url_encode(ident@),
{
    let mut r: Vec<String> = Vec::new();
    r.push(String::from_str(type_));
    r.push(hex_dir_exec(ident, 0));
    r.push(hex_dir_exec(ident, 2));
    r.push(hex_dir_exec(ident, 4));
    r.push(ident.to_string());
    r
}

/// An entry that loading the index from disk keeps: one that has not
/// expired.
pub fn loadable(item: &IndexItem, now: u64) -> (r: bool)
    ensures
        r == live(*item, now),
{
    match item.ttl_s {
        Some(t) => !crate::secs::less(t, now),
        None => true,
    }
}

/// An entry of a type and identity means a first one exists.
proof fn lemma_first_entry(s: Seq<IndexItem>, t: Seq<char>, id: Seq<u8>, j: int)
    requires
        0 <= j < s.len(),
        s[j].type_@ == t && s[j].ident@ == id,
    ensures
        exists|k: int| entry_at(s, t, id, k),
    decreases j,
{
    if exists|m: int| 0 <= m < j && (#[trigger] s[m]).type_@ == t && s[m].ident@ == id {
        let m = choose|m: int| 0 <= m < j && (#[trigger] s[m]).type_@ == t && s[m].ident@ == id;
        lemma_first_entry(s, t, id, m);
    } else {
        assert(entry_at(s, t, id, j));
    }
}

/// Law (insert then look up): after an entry is filed, looking up its type
/// and identity finds it.
pub proof fn law_put_then_lookup(s: Seq<IndexItem>, t: Seq<IndexItem>, item: IndexItem)
    requires
        match index_lookup(s, item.type_@, item.ident@) {
            Some(_) => exists|i: int| entry_at(s, item.type_@, item.ident@, i) && t == s.update(i, item),
            None => t == s.push(item),
        },
    ensures
        index_lookup(t, item.type_@, item.ident@) == Some(item),
{
    match index_lookup(s, item.type_@, item.ident@) {
        Some(_) => {
            let i = choose|i: int| entry_at(s, item.type_@, item.ident@, i) && t == s.update(i, item);
            assert(entry_at(t, item.type_@, item.ident@, i)) by {
                assert forall|j: int| 0 <= j < i implies !((#[trigger] t[j]).type_@ == item.type_@ && t[j].ident@
                    == item.ident@) by {
                    assert(t[j] == s[j]);
                }
            }
            lemma_entry_unique(t, item.type_@, item.ident@, i);
        },
        None => {
            let n = s.len() as int;
            assert(entry_at(t, item.type_@, item.ident@, n)) by {
                assert forall|j: int| 0 <= j < n implies !((#[trigger] t[j]).type_@ == item.type_@ && t[j].ident@
                    == item.ident@) by {
                    assert(t[j] == s[j]);
                    if s[j].type_@ == item.type_@ && s[j].ident@ == item.ident@ {
                        lemma_first_entry(s, item.type_@, item.ident@, j);
                    }
                }
            }
            lemma_entry_unique(t, item.type_@, item.ident@, n);
        },
    }
}

/// Law (select finds what is live): a select returns every live entry
/// that passes its filters, and nothing else.
pub proof fn law_select_finds_live(s: Seq<IndexItem>, sel: VmSelect, now: u64)
    ensures
        forall|i: int| 0 <= i < s.len() && live(s[i], now) && passes(s[i], sel) ==> #[trigger] matching(
            s,
            sel,
            now,
        ).contains(s[i]),
        forall|j: int| 0 <= j < matching(s, sel, now).len() ==> (exists|i: int| 0 <= i < s.len() && s[i]
            == #[trigger] matching(s, sel, now)[j]) && live(matching(s, sel, now)[j], now) && passes(
            matching(s, sel, now)[j],
            sel,
        ),
    decreases s.len(),
{
    if s.len() > 0 {
        let r = s.drop_last();
        law_select_finds_live(r, sel, now);
        let m = matching(r, sel, now);
        assert forall|i: int| 0 <= i < s.len() && live(s[i], now) && passes(s[i], sel) implies #[trigger] matching(
            s,
            sel,
            now,
        ).contains(s[i]) by {
            if i < s.len() - 1 {
                assert(r[i] == s[i]);
                assert(m.contains(r[i]));
                let k = choose|k: int| 0 <= k < m.len() && m[k] == r[i];
                assert(matching(s, sel, now)[k] == m[k]);
            } else {
                assert(s[i] == s.last());
                assert(matching(s, sel, now)[m.len() as int] == s.last());
            }
        }
        assert forall|j: int| 0 <= j < matching(s, sel, now).len() implies (exists|i: int| 0 <= i < s.len()
            && s[i] == #[trigger] matching(s, sel, now)[j]) && live(matching(s, sel, now)[j], now) && passes(
            matching(s, sel, now)[j],
            sel,
        ) by {
            if j < m.len() {
                assert(matching(s, sel, now)[j] == m[j]);
                let i = choose|i: int| 0 <= i < r.len() && r[i] == m[j];
                assert(s[i] == r[i]);
            } else {
                assert(matching(s, sel, now)[j] == s.last());
                assert(s[s.len() - 1] == s.last());
            }
        }
    }
}

/// Law (a select returns only what it asks for): every item a select
/// returns has not expired at `now`, and has a type, an identity and a
/// short hash listed in the request's filters where they are given.
pub proof fn law_select_obeys_filters(s: Seq<IndexItem>, sel: VmSelect, now: u64)
    ensures
        forall|j: int| 0 <= j < matching(s, sel, now).len() ==> {
            let it = #[trigger] matching(s, sel, now)[j];
            &&& !(it.ttl_s matches Some(t) && crate::secs::lt(t, now))
            &&& (sel.filter_by_types matches Some(l) ==> exists|k: int| 0 <= k < l@.len() && l@[k]@ == it.type_@)
            &&& (sel.filter_by_idents matches Some(l) ==> exists|k: int| 0 <= k < l@.len() && l@[k]@ == it.ident@)
            &&& (sel.filter_by_shorts matches Some(l) ==> exists|k: int| 0 <= k < l@.len() && l@[k]@ == it.short@)
        },
{
    law_select_finds_live(s, sel, now);
    assert forall|j: int| 0 <= j < matching(s, sel, now).len() implies {
        let it = #[trigger] matching(s, sel, now)[j];
        &&& !(it.ttl_s matches Some(t) && crate::secs::lt(t, now))
        &&& (sel.filter_by_types matches Some(l) ==> exists|k: int| 0 <= k < l@.len() && l@[k]@ == it.type_@)
        &&& (sel.filter_by_idents matches Some(l) ==> exists|k: int| 0 <= k < l@.len() && l@[k]@ == it.ident@)
        &&& (sel.filter_by_shorts matches Some(l) ==> exists|k: int| 0 <= k < l@.len() && l@[k]@ == it.short@)
    } by {
        let it = matching(s, sel, now)[j];
        assert(live(it, now) && passes(it, sel));
    }
}

/// Law (an insert only goes ahead on what is stored): the check of the
/// previous item succeeds exactly when nothing is stored under the type
/// and identity and the caller saw nothing, or when something is stored
/// and the caller saw that item's type and identity; in the second case it
/// gives the stored item's short hash.
pub proof fn law_check_cur_matches_store(
    index: Seq<IndexItem>,
    t: Seq<char>,
    id: Seq<u8>,
    cur: Option<(Seq<char>, Seq<u8>)>,
    sh: Seq<u8>,
)
    ensures
        check_cur_spec(index_lookup(index, t, id), cur) matches Some(None) <==> (index_lookup(index, t, id) is None
            && cur is None),
        check_cur_spec(index_lookup(index, t, id), cur) == Some(Some(sh)) <==> (index_lookup(
            index,
            t,
            id,
        ) matches Some(f) && cur == Some((f.type_@, f.ident@)) && f.short@ == sh),
        (index_lookup(index, t, id) is None && cur is Some) ==> check_cur_spec(index_lookup(index, t, id), cur) is None,
        (index_lookup(index, t, id) is Some && cur is None) ==> check_cur_spec(index_lookup(index, t, id), cur) is None,
{
}

/// The total size of some items.
pub open spec fn total_size(m: Seq<IndexItem>) -> int
    decreases m.len(),
{
    if m.len() == 0 {
        0
    } else {
        total_size(m.drop_last()) + m.last().size
    }
}

/// Law (a select counts what it returns): the size a select reports is the
/// total size of the items it returns, or `u64::MAX` when that total does
/// not fit; each result describes its item, with the type, size, short
/// hash and identity each present exactly when requested.
pub proof fn law_select_sizes_and_fields(s: Seq<IndexItem>, sel: VmSelect, now: u64)
    ensures
        select_size(s, sel, now) == (if total_size(matching(s, sel, now)) > u64::MAX {
            u64::MAX as int
        } else {
            total_size(matching(s, sel, now))
        }),
        select_results(s, sel, now).len() == matching(s, sel, now).len(),
        forall|j: int| 0 <= j < select_results(s, sel, now).len() ==> {
            let it = matching(s, sel, now)[j];
            #[trigger] select_results(s, sel, now)[j] == (
                if sel.return_type == Some(true) { Some(it.type_@) } else { None },
                if sel.return_size == Some(true) { Some(it.size) } else { None },
                if sel.return_short == Some(true) { Some(it.short@) } else { None },
                if sel.return_ident == Some(true) { Some(it.ident@) } else { None },
            )
        },
    decreases s.len(),
{
    if s.len() > 0 {
        law_select_sizes_and_fields(s.drop_last(), sel, now);
        let m0 = matching(s.drop_last(), sel, now);
        if live(s.last(), now) && passes(s.last(), sel) {
            assert(matching(s, sel, now).drop_last() =~= m0);
            assert(matching(s, sel, now).last() == s.last());
        }
        assert forall|j: int| 0 <= j < select_results(s, sel, now).len() implies {
            let it = matching(s, sel, now)[j];
            #[trigger] select_results(s, sel, now)[j] == (
                if sel.return_type == Some(true) { Some(it.type_@) } else { None },
                if sel.return_size == Some(true) { Some(it.size) } else { None },
                if sel.return_short == Some(true) { Some(it.short@) } else { None },
                if sel.return_ident == Some(true) { Some(it.ident@) } else { None },
            )
        } by {
            if j < m0.len() {
                assert(select_results(s, sel, now)[j] == select_results(s.drop_last(), sel, now)[j]);
                assert(matching(s, sel, now)[j] == m0[j]);
            }
        }
    }
}

} // verus!
