//! A generic serde-compatible value tree.

use vstd::prelude::*;
use crate::error::Result;
use crate::ext::{
    b64_encode, base64url_decode, base64url_encode, is_b64url_char, is_b64url_text, utf8_lossy_text,
};
use crate::human::{
    ends_with, first_at, is_whitespace, parse_template, split_once, strip_closes, strip_opens,
    template_spec, trim, trim_end, trim_start, trim_str, Template, TemplateSpec,
};
use crate::text::{concat, starts_with};

verus! {

/// Generic serde-compatible value.
#[derive(Debug)]
pub enum Value {
    /// Empty value.
    Unit,
    /// Boolean.
    Bool(bool),
    /// Floating-point number, held as its IEEE 754 bit pattern.
    Float(u64),
    /// UTF-8 text.
    Str(String),
    /// Bytes.
    Bytes(Vec<u8>),
    /// Array of values.
    Array(Vec<Value>),
    /// Map of values by key; no key occurs twice.
    Dict(Vec<(String, Value)>),
}

/// Two values hold the same content.
pub open spec fn same(a: Value, b: Value) -> bool
    decreases a,
{
    match (a, b) {
        (Value::Unit, Value::Unit) => true,
        (Value::Bool(x), Value::Bool(y)) => x == y,
        (Value::Float(x), Value::Float(y)) => x == y,
        (Value::Str(x), Value::Str(y)) => x@ == y@,
        (Value::Bytes(x), Value::Bytes(y)) => x@ == y@,
        (Value::Array(xs), Value::Array(ys)) => {
            &&& xs@.len() == ys@.len()
            &&& forall|i: int| 0 <= i < xs@.len() ==> same(#[trigger] xs@[i], ys@[i])
        },
        (Value::Dict(xs), Value::Dict(ys)) => {
            &&& xs@.len() == ys@.len()
            &&& forall|i: int|
                0 <= i < xs@.len() ==> (#[trigger] xs@[i]).0@ == ys@[i].0@ && same(xs@[i].1, ys@[i].1)
        },
        _ => false,
    }
}

impl Value {
    /// A copy of this value.
    pub fn deep_clone(&self) -> (r: Value)
        ensures
            same(*self, r),
        decreases self,
    {
        match self {
            Value::Unit => Value::Unit,
            Value::Bool(b) => Value::Bool(*b),
            Value::Float(f) => Value::Float(*f),
            Value::Str(s) => Value::Str(s.clone()),
            Value::Bytes(b) => Value::Bytes(b.clone()),
            Value::Array(xs) => {
                let mut out: Vec<Value> = Vec::new();
                let mut i: usize = 0;
                while i < xs.len()
                    invariant
                        *self == Value::Array(*xs),
                        i <= xs@.len(),
                        out@.len() == i,
                        forall|m: int| 0 <= m < i ==> same(#[trigger] xs@[m], out@[m]),
                    decreases xs@.len() - i,
                {
                    proof {
                        assert(decreases_to!(*self => (*self)->Array_0));
                        assert(decreases_to!(*xs => xs@));
                        assert(decreases_to!(xs@ => xs@[i as int]));
                        assert(decreases_to!(*self => xs@[i as int]));
                    }
                    out.push(xs[i].deep_clone());
                    i = i + 1;
                }
                Value::Array(out)
            },
            Value::Dict(xs) => {
                let mut out: Vec<(String, Value)> = Vec::new();
                let mut i: usize = 0;
                while i < xs.len()
                    invariant
                        *self == Value::Dict(*xs),
                        i <= xs@.len(),
                        out@.len() == i,
                        forall|m: int|
                            0 <= m < i ==> (#[trigger] xs@[m]).0@ == out@[m].0@ && same(xs@[m].1, out@[m].1),
                    decreases xs@.len() - i,
                {
                    let (k, v) = &xs[i];
                    proof {
                        assert(decreases_to!(*self => (*self)->Dict_0));
                        assert(decreases_to!(*xs => xs@));
                        assert(decreases_to!(xs@ => xs@[i as int]));
                        assert(decreases_to!(xs@[i as int] => xs@[i as int].1));
                        assert(decreases_to!(*self => xs@[i as int].1));
                    }
                    out.push((k.clone(), v.deep_clone()));
                    i = i + 1;
                }
                Value::Dict(out)
            },
        }
    }
}

/// The position of the first entry of `xs` under the key `k`.
pub open spec fn key_at(xs: Seq<(String, Value)>, k: Seq<char>, i: int) -> bool {
    &&& 0 <= i < xs.len()
    &&& xs[i].0@ == k
    &&& forall|j: int| 0 <= j < i ==> (#[trigger] xs[j]).0@ != k
}

/// Some entry of `xs` has the key `k`.
pub open spec fn has_key(xs: Seq<(String, Value)>, k: Seq<char>) -> bool {
    exists|i: int| 0 <= i < xs.len() && (#[trigger] xs[i]).0@ == k
}

/// The position of the entry under the key `k`, or nothing.
fn find_key(xs: &Vec<(String, Value)>, k: &str) -> (r: Option<usize>)
    ensures
        r is None <==> !has_key(xs@, k@),
        r matches Some(i) ==> key_at(xs@, k@, i as int),
{
    let mut i: usize = 0;
    while i < xs.len()
        invariant
            i <= xs@.len(),
            forall|j: int| 0 <= j < i ==> (#[trigger] xs@[j]).0@ != k@,
        decreases xs@.len() - i,
    {
        if crate::text::str_eq(xs[i].0.as_str(), k) {
            return Some(i);
        }
        i = i + 1;
    }
    None
}

impl Value {
    /// A new empty array.
    pub fn array_new() -> (r: Value)
        ensures
            r matches Value::Array(xs) && xs@.len() == 0,
    {
        Value::Array(Vec::new())
    }

    /// The item at `i`, if this is an array that long.
    pub fn array_get(&self, i: usize) -> (r: Option<&Value>)
        ensures
            match *self {
                Value::Array(xs) => if i < xs@.len() {
                    r == Some(&xs@[i as int])
                } else {
                    r is None
                },
                _ => r is None,
            },
    {
        match self {
            Value::Array(xs) => if i < xs.len() {
                Some(&xs[i])
            } else {
                None
            },
            _ => None,
        }
    }

    /// Pushes an item, if this is an array; anything else is left as is.
    pub fn array_push(&mut self, v: Value)
        ensures
            match *old(self) {
                Value::Array(xs) => *final(self) matches Value::Array(ys) && ys@ == xs@.push(v),
                _ => *final(self) == *old(self),
            },
    {
        let mut cur = Value::Unit;
        std::mem::swap(&mut cur, self);
        match cur {
            Value::Array(mut xs) => {
                xs.push(v);
                *self = Value::Array(xs);
            },
            other => {
                *self = other;
            },
        }
    }

    /// A new empty map.
    pub fn map_new() -> (r: Value)
        ensures
            r matches Value::Dict(xs) && xs@.len() == 0,
    {
        Value::Dict(Vec::new())
    }

    /// The item under the key `k`, if this is a map that has it.
    pub fn map_get(&self, k: &str) -> (r: Option<&Value>)
        ensures
            match *self {
                Value::Dict(xs) => match r {
                    Some(v) => exists|i: int| key_at(xs@, k@, i) && xs@[i].1 == *v,
                    None => !has_key(xs@, k@),
                },
                _ => r is None,
            },
    {
        match self {
            Value::Dict(xs) => match find_key(xs, k) {
                Some(i) => Some(&xs[i].1),
                None => None,
            },
            _ => None,
        }
    }

    /// Removes and returns the item under the key `k`, if this is a map
    /// that has it; anything else is left as is.
    pub fn map_remove(&mut self, k: &str) -> (r: Option<Value>)
        ensures
            match *old(self) {
                Value::Dict(xs) => match r {
                    Some(v) => exists|i: int|
                        key_at(xs@, k@, i) && xs@[i].1 == v && (*final(self) matches Value::Dict(ys) && ys@
                            == xs@.remove(i)),
                    None => !has_key(xs@, k@) && *final(self) == *old(self),
                },
                _ => r is None && *final(self) == *old(self),
            },
    {
        let mut cur = Value::Unit;
        std::mem::swap(&mut cur, self);
        match cur {
            Value::Dict(mut xs) => match find_key(&xs, k) {
                Some(i) => {
                    let (_, v) = xs.remove(i);
                    *self = Value::Dict(xs);
                    Some(v)
                },
                None => {
                    *self = Value::Dict(xs);
                    None
                },
            },
            other => {
                *self = other;
                None
            },
        }
    }

    /// Sets the item under the key `k`, if this is a map: the entry under
    /// `k` is replaced, or a new entry is added; anything else is left as
    /// is.
    pub fn map_insert(&mut self, k: String, v: Value)
        ensures
            match *old(self) {
                Value::Dict(xs) => *final(self) matches Value::Dict(ys) && if has_key(xs@, k@) {
                    exists|i: int| key_at(xs@, k@, i) && ys@ == xs@.update(i, (xs@[i].0, v))
                } else {
                    ys@.len() == xs@.len() + 1 && ys@.take(xs@.len() as int) == xs@ && ys@.last().0@
                        == k@ && ys@.last().1 == v
                },
                _ => *final(self) == *old(self),
            },
    {
        let mut cur = Value::Unit;
        std::mem::swap(&mut cur, self);
        match cur {
            Value::Dict(mut xs) => {
                match find_key(&xs, k.as_str()) {
                    Some(i) => {
                        let (key, _) = xs.remove(i);
                        xs.insert(i, (key, v));
                    },
                    None => {
                        xs.push((k, v));
                    },
                }
                *self = Value::Dict(xs);
            },
            other => {
                *self = other;
            },
        }
    }

    /// The boolean, if this is one.
    pub fn as_bool(&self) -> (r: Option<bool>)
        ensures
            match *self {
                Value::Bool(b) => r == Some(b),
                _ => r is None,
            },
    {
        match self {
            Value::Bool(b) => Some(*b),
            _ => None,
        }
    }

    /// The bit pattern of the number, if this is one.
    pub fn as_float(&self) -> (r: Option<u64>)
        ensures
            match *self {
                Value::Float(f) => r == Some(f),
                _ => r is None,
            },
    {
        match self {
            Value::Float(f) => Some(*f),
            _ => None,
        }
    }

    /// The text, if this is a string.
    pub fn as_string(&self) -> (r: Option<&String>)
        ensures
            match *self {
                Value::Str(s) => r == Some(&s),
                _ => r is None,
            },
    {
        match self {
            Value::Str(s) => Some(s),
            _ => None,
        }
    }

    /// The bytes, if this is bytes.
    pub fn as_bytes(&self) -> (r: Option<&Vec<u8>>)
        ensures
            match *self {
                Value::Bytes(b) => r == Some(&b),
                _ => r is None,
            },
    {
        match self {
            Value::Bytes(b) => Some(b),
            _ => None,
        }
    }

    /// The items, if this is an array.
    pub fn as_array(&self) -> (r: Option<&Vec<Value>>)
        ensures
            match *self {
                Value::Array(xs) => r == Some(&xs),
                _ => r is None,
            },
    {
        match self {
            Value::Array(xs) => Some(xs),
            _ => None,
        }
    }

    /// The entries, if this is a map.
    pub fn as_map(&self) -> (r: Option<&Vec<(String, Value)>>)
        ensures
            match *self {
                Value::Dict(xs) => r == Some(&xs),
                _ => r is None,
            },
    {
        match self {
            Value::Dict(xs) => Some(xs),
            _ => None,
        }
    }
}

/// The encoding of `b` in base64url decodes back to `b`, uses the URL-safe
/// alphabet, and has four characters per three bytes.
pub open spec fn b64_roundtrips(b: Seq<u8>) -> bool {
    let e = base64url_encode(b);
    &&& base64url_decode(e) == Some(b)
    &&& is_b64url_text(e)
    &&& e.len() == (4 * b.len() + 2) / 3
}

/// A string that the human form must escape: after trimming, it starts
/// with `{{`.
pub open spec fn needs_escape(s: Seq<char>) -> bool {
    "{{"@.is_prefix_of(trim(s))
}

/// The human form of a string: escaped strings become
/// `{{b64-str <base64url of the UTF-8 bytes>}}`; others stay.
pub open spec fn human_str(s: Seq<char>) -> Seq<char> {
    if needs_escape(s) {
        "{{b64-str "@ + base64url_encode(vstd::utf8::encode_utf8(s)) + "}}"@
    } else {
        s
    }
}

/// The human form of bytes: `{{b64-bin <base64url>}}`.
pub open spec fn human_bytes(b: Seq<u8>) -> Seq<char> {
    "{{b64-bin "@ + base64url_encode(b) + "}}"@
}

/// `b` is the human form of `a`: binary data becomes `{{b64-bin ..}}`
/// text and text that looks like a template is escaped; the rest, and the
/// shape of arrays and maps, is kept.
pub open spec fn to_human_of(a: Value, b: Value) -> bool
    decreases a,
{
    match a {
        Value::Unit => b is Unit,
        Value::Bool(x) => b matches Value::Bool(y) && y == x,
        Value::Float(x) => b matches Value::Float(y) && y == x,
        Value::Str(x) => b matches Value::Str(t) && t@ == human_str(x@) && (needs_escape(x@)
            ==> b64_roundtrips(vstd::utf8::encode_utf8(x@))),
        Value::Bytes(x) => b matches Value::Str(t) && t@ == human_bytes(x@) && b64_roundtrips(x@),
        Value::Array(xs) => b matches Value::Array(ys) && xs@.len() == ys@.len() && forall|i: int|
            0 <= i < xs@.len() ==> to_human_of(#[trigger] xs@[i], ys@[i]),
        Value::Dict(xs) => b matches Value::Dict(ys) && xs@.len() == ys@.len() && forall|i: int|
            0 <= i < xs@.len() ==> (#[trigger] xs@[i]).0@ == ys@[i].0@ && to_human_of(xs@[i].1, ys@[i].1),
    }
}

/// A template that cannot be read.
pub open spec fn is_bad_template(t: TemplateSpec) -> bool {
    t is NoCommand || t is Unknown || t is BadBase64
}

/// The view of a table of included files: each file name with its
/// contents.
pub open spec fn files_view(files: Seq<(String, Vec<u8>)>) -> Seq<(Seq<char>, Seq<u8>)> {
    files.map_values(|e: (String, Vec<u8>)| (e.0@, e.1@))
}

/// `i` is the first entry of the table filed under the name `f`.
pub open spec fn file_at(files: Seq<(Seq<char>, Seq<u8>)>, f: Seq<char>, i: int) -> bool {
    &&& 0 <= i < files.len()
    &&& files[i].0 == f
    &&& forall|j: int| 0 <= j < i ==> (#[trigger] files[j]).0 != f
}

/// The contents filed under the name `f` (the first entry of that name).
pub open spec fn file_content(files: Seq<(Seq<char>, Seq<u8>)>, f: Seq<char>) -> Option<Seq<u8>> {
    if exists|i: int| file_at(files, f, i) {
        Some(files[choose|i: int| file_at(files, f, i)].1)
    } else {
        None
    }
}

/// `b` is what an included file's bytes `d` stand for: their text (lossy
/// UTF-8) for `inc-str`, the bytes themselves for `inc-bin`.
pub open spec fn include_value_of(d: Seq<u8>, as_str: bool, b: Value) -> bool {
    if as_str {
        b matches Value::Str(t) && t@ == utf8_lossy_text(d)
    } else {
        b matches Value::Bytes(x) && x@ == d
    }
}

/// `b` is what the human form string `s` stands for, with included files
/// taken from the table `files`.
pub open spec fn from_human_str(s: Seq<char>, b: Value, files: Seq<(Seq<char>, Seq<u8>)>) -> bool {
    match template_spec(s) {
        TemplateSpec::Plain => b matches Value::Str(t) && t@ == s,
        TemplateSpec::Include(f, as_str) => file_content(files, f) matches Some(d) && include_value_of(
            d,
            as_str,
            b,
        ),
        TemplateSpec::Bin(y) => b matches Value::Bytes(z) && z@ == y,
        TemplateSpec::Text(y) => b matches Value::Str(t) && t@ == utf8_lossy_text(y) && (
        vstd::utf8::valid_utf8(y) ==> t@ == vstd::utf8::decode_utf8(y)),
        _ => false,
    }
}

/// `b` is what the human form `a` stands for: templates are replaced by
/// their values (an included file by its contents in `files`), other
/// strings and values are kept, and so is the shape of arrays and maps.
pub open spec fn from_human_of(a: Value, b: Value, files: Seq<(Seq<char>, Seq<u8>)>) -> bool
    decreases a,
{
    match a {
        Value::Unit => b is Unit,
        Value::Bool(x) => b matches Value::Bool(y) && y == x,
        Value::Float(x) => b matches Value::Float(y) && y == x,
        Value::Str(x) => from_human_str(x@, b, files),
        Value::Bytes(x) => b matches Value::Bytes(y) && y@ == x@,
        Value::Array(xs) => b matches Value::Array(ys) && xs@.len() == ys@.len() && forall|i: int|
            0 <= i < xs@.len() ==> from_human_of(#[trigger] xs@[i], ys@[i], files),
        Value::Dict(xs) => b matches Value::Dict(ys) && xs@.len() == ys@.len() && forall|i: int|
            0 <= i < xs@.len() ==> (#[trigger] xs@[i]).0@ == ys@[i].0@ && from_human_of(xs@[i].1, ys@[i].1, files),
    }
}

/// A string of the value includes the file `f`.
pub open spec fn includes_file(a: Value, f: Seq<char>) -> bool
    decreases a,
{
    match a {
        Value::Str(x) => template_spec(x@) matches TemplateSpec::Include(g, _) && g == f,
        Value::Array(xs) => exists|i: int| 0 <= i < xs@.len() && includes_file(#[trigger] xs@[i], f),
        Value::Dict(xs) => exists|i: int| 0 <= i < xs@.len() && includes_file((#[trigger] xs@[i]).1, f),
        _ => false,
    }
}

/// Every file that a string of the value includes is in the table.
pub open spec fn includes_present(a: Value, files: Seq<(Seq<char>, Seq<u8>)>) -> bool
    decreases a,
{
    match a {
        Value::Str(x) => template_spec(x@) matches TemplateSpec::Include(f, _) ==> file_content(files, f) is Some,
        Value::Array(xs) => forall|i: int| 0 <= i < xs@.len() ==> includes_present(#[trigger] xs@[i], files),
        Value::Dict(xs) => forall|i: int| 0 <= i < xs@.len() ==> includes_present((#[trigger] xs@[i]).1, files),
        _ => true,
    }
}

/// A string of the value is a template that cannot be read.
pub open spec fn has_bad_template(a: Value) -> bool
    decreases a,
{
    match a {
        Value::Str(x) => is_bad_template(template_spec(x@)),
        Value::Array(xs) => exists|i: int| 0 <= i < xs@.len() && has_bad_template(#[trigger] xs@[i]),
        Value::Dict(xs) => exists|i: int| 0 <= i < xs@.len() && has_bad_template((#[trigger] xs@[i]).1),
        _ => false,
    }
}

/// Converts a value tree with binary data into the human form, where
/// binary data is `{{b64-bin <data>}}` text.
#[derive(Debug)]
pub struct ValueTxToHuman;

impl ValueTxToHuman {
    /// Transforms a string value.
    pub fn str(&self, s: &str) -> (r: Value)
        ensures
            r matches Value::Str(t) && t@ == human_str(s@),
            needs_escape(s@) ==> b64_roundtrips(vstd::utf8::encode_utf8(s@)),
    {
        proof {
            reveal_strlit("{{");
        }
        let t = trim_str(s);
        if starts_with(t.as_str(), "{{") {
            let e = b64_encode(s.as_bytes());
            let head = concat("{{b64-str ", e.as_str());
            Value::Str(concat(head.as_str(), "}}"))
        } else {
            Value::Str(String::from_str(s))
        }
    }

    /// Transforms a bytes value.
    pub fn bytes(&self, b: &[u8]) -> (r: Value)
        ensures
            r matches Value::Str(t) && t@ == human_bytes(b@),
            b64_roundtrips(b@),
    {
        let e = b64_encode(b);
        let head = concat("{{b64-bin ", e.as_str());
        Value::Str(concat(head.as_str(), "}}"))
    }
}

/// The contents filed under a name in a table of included files.
pub fn file_lookup<'a>(files: &'a Vec<(String, Vec<u8>)>, f: &str) -> (r: Option<&'a Vec<u8>>)
    ensures
        match file_content(files_view(files@), f@) {
            Some(d) => r matches Some(v) && v@ == d,
            None => r is None,
        },
{
    let ghost fv = files_view(files@);
    let mut i: usize = 0;
    while i < files.len()
        invariant
            fv == files_view(files@),
            i <= files@.len(),
            forall|j: int| 0 <= j < i ==> (#[trigger] fv[j]).0 != f@,
        decreases files@.len() - i,
    {
        if crate::text::str_eq(files[i].0.as_str(), f) {
            proof {
                assert(file_at(fv, f@, i as int));
                let k = choose|k: int| file_at(fv, f@, k);
                assert(k == i) by {
                    if k < i {
                        assert(fv[k].0 != f@);
                    } else if k > i {
                        assert(fv[i as int].0 != f@);
                    }
                }
            }
            return Some(&files[i].1);
        }
        i = i + 1;
    }
    proof {
        if exists|k: int| file_at(fv, f@, k) {
            let k = choose|k: int| file_at(fv, f@, k);
            assert(fv[k].0 != f@);
        }
    }
    None
}

/// The file that a string includes, and whether it is included as text.
fn included_file(s: &str) -> (r: Option<(String, bool)>)
    ensures
        match template_spec(s@) {
            TemplateSpec::Include(f, b) => r matches Some((g, c)) && g@ == f && c == b,
            _ => r is None,
        },
{
    match parse_template(s) {
        Ok(Template::Include { file, as_str }) => Some((file, as_str)),
        _ => None,
    }
}

/// A list of names holds `f`.
pub open spec fn names_has(v: Seq<String>, f: Seq<char>) -> bool {
    exists|i: int| 0 <= i < v.len() && (#[trigger] v[i])@ == f
}

proof fn lemma_names_push(v: Seq<String>, x: String)
    ensures
        forall|f: Seq<char>| #[trigger] names_has(v.push(x), f) <==> (names_has(v, f) || x@ == f),
{
    assert forall|f: Seq<char>| #[trigger] names_has(v.push(x), f) <==> (names_has(v, f) || x@ == f) by {
        if names_has(v, f) {
            let i = choose|i: int| 0 <= i < v.len() && (#[trigger] v[i])@ == f;
            assert(v.push(x)[i] == v[i]);
        }
        if x@ == f {
            assert(v.push(x)[v.len() as int] == x);
        }
        if names_has(v.push(x), f) {
            let i = choose|i: int| 0 <= i < v.len() + 1 && (#[trigger] v.push(x)[i])@ == f;
            if i < v.len() {
                assert(v.push(x)[i] == v[i]);
            }
        }
    }
}

/// What an included file's bytes stand for: their text (lossy UTF-8) for
/// `inc-str`, the bytes themselves for `inc-bin`.
pub fn include_value(data: Vec<u8>, as_str: bool) -> (r: Value)
    ensures
        include_value_of(data@, as_str, r),
{
    if as_str {
        Value::Str(crate::ext::utf8_lossy(data.as_slice()))
    } else {
        Value::Bytes(data)
    }
}

/// Converts a value tree in the human form into the values its templates
/// stand for: `{{inc-bin <file>}}`, `{{inc-str <file>}}`,
/// `{{b64-bin <data>}}` and `{{b64-str <data>}}`.
#[derive(Debug)]
pub struct ValueTxFromHuman {
    /// The directory that included files are relative to.
    pub root: String,
}

impl ValueTxFromHuman {
    /// Constructs a transform whose included files are under `root`.
    pub fn new(root: &str) -> (r: Self)
        ensures
            r.root@ == root@,
    {
        ValueTxFromHuman { root: String::from_str(root) }
    }

    /// The file that a string includes, read from under [Self::root], and
    /// whether it is included as text.
    pub fn include_target(&self, s: &str) -> (r: Option<(String, bool)>)
        ensures
            match template_spec(s@) {
                TemplateSpec::Include(f, b) => r matches Some((g, c)) && g@ == f && c == b,
                _ => r is None,
            },
    {
        included_file(s)
    }

    /// Transforms a string value; an included file is taken from `files`,
    /// the table of the files under [Self::root] by name, and one missing
    /// there is `NotFound`.
    pub fn str(&self, s: &str, files: &Vec<(String, Vec<u8>)>) -> (r: Result<Value>)
        ensures
            r matches Ok(v) ==> from_human_str(s@, v, files_view(files@)),
            is_bad_template(template_spec(s@)) ==> r is Err,
            !is_bad_template(template_spec(s@)) && (template_spec(s@) matches TemplateSpec::Include(f, _)
                ==> file_content(files_view(files@), f) is Some) ==> r is Ok,
            (template_spec(s@) matches TemplateSpec::Include(f, _) && file_content(files_view(files@), f) is None)
                ==> (r matches Err(e) && e.kind == crate::ErrorKind::NotFound),
    {
        match parse_template(s) {
            Err(e) => Err(e),
            Ok(Template::Plain) => Ok(Value::Str(String::from_str(s))),
            Ok(Template::Bin(b)) => Ok(Value::Bytes(b)),
            Ok(Template::Text(t)) => Ok(Value::Str(t)),
            Ok(Template::Include { file, as_str }) => {
                match file_lookup(files, file.as_str()) {
                    Some(d) => Ok(include_value(crate::hash::copy_bytes(d.as_slice()), as_str)),
                    None => {
                        let msg = concat("included file not read: ", file.as_str());
                        Err(crate::Error::new(crate::ErrorKind::NotFound, msg.as_str()))
                    },
                }
            },
        }
    }
}

impl Value {
    /// The files that the strings of this value tree include: what is to be
    /// read from under a transform's root before [Value::from_human].
    pub fn include_files(&self) -> (r: Vec<String>)
        ensures
            forall|f: Seq<char>| #[trigger] names_has(r@, f) <==> includes_file(*self, f),
    {
        let mut out: Vec<String> = Vec::new();
        self.collect_includes(&mut out);
        out
    }

    fn collect_includes(&self, out: &mut Vec<String>)
        ensures
            forall|f: Seq<char>|
                #[trigger] names_has(final(out)@, f) <==> (names_has(old(out)@, f) || includes_file(*self, f)),
        decreases self,
    {
        match self {
            Value::Str(s) => {
                match included_file(s.as_str()) {
                    Some((f, _)) => {
                        proof {
                            lemma_names_push(out@, f);
                        }
                        out.push(f);
                    },
                    None => {},
                }
            },
            Value::Array(xs) => {
                let ghost start = out@;
                let mut i: usize = 0;
                while i < xs.len()
                    invariant
                        *self == Value::Array(*xs),
                        i <= xs@.len(),
                        forall|f: Seq<char>|
                            #[trigger] names_has(out@, f) <==> (names_has(start, f) || exists|m: int|
                                0 <= m < i && includes_file(#[trigger] xs@[m], f)),
                    decreases xs@.len() - i,
                {
                    proof {
                        assert(decreases_to!(*self => (*self)->Array_0));
                        assert(decreases_to!(*xs => xs@));
                        assert(decreases_to!(xs@ => xs@[i as int]));
                    }
                    let ghost before = out@;
                    xs[i].collect_includes(out);
                    proof {
                        assert forall|f: Seq<char>|
                            #[trigger] names_has(out@, f) <==> (names_has(start, f) || exists|m: int|
                                0 <= m < i + 1 && includes_file(#[trigger] xs@[m], f)) by {
                            if includes_file(xs@[i as int], f) {
                                assert(names_has(out@, f));
                            }
                            if exists|m: int| 0 <= m < i + 1 && includes_file(#[trigger] xs@[m], f) {
                                let m = choose|m: int| 0 <= m < i + 1 && includes_file(#[trigger] xs@[m], f);
                                if m < i {
                                    assert(names_has(before, f));
                                }
                            }
                        }
                    }
                    i = i + 1;
                }
            },
            Value::Dict(xs) => {
                let ghost start = out@;
                let mut i: usize = 0;
                while i < xs.len()
                    invariant
                        *self == Value::Dict(*xs),
                        i <= xs@.len(),
                        forall|f: Seq<char>|
                            #[trigger] names_has(out@, f) <==> (names_has(start, f) || exists|m: int|
                                0 <= m < i && includes_file((#[trigger] xs@[m]).1, f)),
                    decreases xs@.len() - i,
                {
                    proof {
                        assert(decreases_to!(*self => (*self)->Dict_0));
                        assert(decreases_to!(*xs => xs@));
                        assert(decreases_to!(xs@ => xs@[i as int]));
                        assert(decreases_to!(xs@[i as int] => xs@[i as int].1));
                    }
                    let ghost before = out@;
                    xs[i].1.collect_includes(out);
                    proof {
                        assert forall|f: Seq<char>|
                            #[trigger] names_has(out@, f) <==> (names_has(start, f) || exists|m: int|
                                0 <= m < i + 1 && includes_file((#[trigger] xs@[m]).1, f)) by {
                            if includes_file(xs@[i as int].1, f) {
                                assert(names_has(out@, f));
                            }
                            if exists|m: int| 0 <= m < i + 1 && includes_file((#[trigger] xs@[m]).1, f) {
                                let m = choose|m: int| 0 <= m < i + 1 && includes_file((#[trigger] xs@[m]).1, f);
                                if m < i {
                                    assert(names_has(before, f));
                                }
                            }
                        }
                    }
                    i = i + 1;
                }
            },
            _ => {},
        }
    }

    /// The human form of this value tree.
    pub fn to_human(&self, tx: &ValueTxToHuman) -> (r: Value)
        ensures
            to_human_of(*self, r),
        decreases self,
    {
        match self {
            Value::Unit => Value::Unit,
            Value::Bool(b) => Value::Bool(*b),
            Value::Float(f) => Value::Float(*f),
            Value::Str(s) => tx.str(s.as_str()),
            Value::Bytes(b) => tx.bytes(b.as_slice()),
            Value::Array(xs) => {
                let mut out: Vec<Value> = Vec::new();
                let mut i: usize = 0;
                while i < xs.len()
                    invariant
                        *self == Value::Array(*xs),
                        i <= xs@.len(),
                        out@.len() == i,
                        forall|m: int| 0 <= m < i ==> to_human_of(#[trigger] xs@[m], out@[m]),
                    decreases xs@.len() - i,
                {
                    proof {
                        assert(decreases_to!(*self => (*self)->Array_0));
                        assert(decreases_to!(*xs => xs@));
                        assert(decreases_to!(xs@ => xs@[i as int]));
                    }
                    out.push(xs[i].to_human(tx));
                    i = i + 1;
                }
                Value::Array(out)
            },
            Value::Dict(xs) => {
                let mut out: Vec<(String, Value)> = Vec::new();
                let mut i: usize = 0;
                while i < xs.len()
                    invariant
                        *self == Value::Dict(*xs),
                        i <= xs@.len(),
                        out@.len() == i,
                        forall|m: int|
                            0 <= m < i ==> (#[trigger] xs@[m]).0@ == out@[m].0@ && to_human_of(xs@[m].1, out@[m].1),
                    decreases xs@.len() - i,
                {
                    let (k, v) = &xs[i];
                    proof {
                        assert(decreases_to!(*self => (*self)->Dict_0));
                        assert(decreases_to!(*xs => xs@));
                        assert(decreases_to!(xs@ => xs@[i as int]));
                        assert(decreases_to!(xs@[i as int] => xs@[i as int].1));
                    }
                    out.push((k.clone(), v.to_human(tx)));
                    i = i + 1;
                }
                Value::Dict(out)
            },
        }
    }

    /// The value tree that this human form stands for; included files are
    /// taken from `files`, the table of the files that
    /// [Value::include_files] names, read from under the transform's root.
    /// A template that cannot be read, or a file missing from the table, is
    /// an error.
    pub fn from_human(&self, tx: &ValueTxFromHuman, files: &Vec<(String, Vec<u8>)>) -> (r: Result<Value>)
        ensures
            r matches Ok(v) ==> from_human_of(*self, v, files_view(files@)),
            has_bad_template(*self) ==> r is Err,
            !has_bad_template(*self) && includes_present(*self, files_view(files@)) ==> r is Ok,
        decreases self,
    {
        match self {
            Value::Unit => Ok(Value::Unit),
            Value::Bool(b) => Ok(Value::Bool(*b)),
            Value::Float(f) => Ok(Value::Float(*f)),
            Value::Str(s) => tx.str(s.as_str(), files),
            Value::Bytes(b) => Ok(Value::Bytes(b.clone())),
            Value::Array(xs) => {
                let mut out: Vec<Value> = Vec::new();
                let mut i: usize = 0;
                while i < xs.len()
                    invariant
                        *self == Value::Array(*xs),
                        i <= xs@.len(),
                        out@.len() == i,
                        forall|m: int| 0 <= m < i ==> from_human_of(#[trigger] xs@[m], out@[m], files_view(files@)),
                        forall|m: int| 0 <= m < i ==> !has_bad_template(#[trigger] xs@[m]),
                    decreases xs@.len() - i,
                {
                    proof {
                        assert(decreases_to!(*self => (*self)->Array_0));
                        assert(decreases_to!(*xs => xs@));
                        assert(decreases_to!(xs@ => xs@[i as int]));
                    }
                    match xs[i].from_human(tx, files) {
                        Ok(v) => {
                            out.push(v);
                        },
                        Err(e) => {
                            proof {
                                if !has_bad_template(*self) && includes_present(*self, files_view(files@)) {
                                    assert(includes_present(xs@[i as int], files_view(files@)));
                                }
                            }
                            return Err(e);
                        },
                    }
                    i = i + 1;
                }
                Ok(Value::Array(out))
            },
            Value::Dict(xs) => {
                let mut out: Vec<(String, Value)> = Vec::new();
                let mut i: usize = 0;
                while i < xs.len()
                    invariant
                        *self == Value::Dict(*xs),
                        i <= xs@.len(),
                        out@.len() == i,
                        forall|m: int|
                            0 <= m < i ==> (#[trigger] xs@[m]).0@ == out@[m].0@ && from_human_of(xs@[m].1, out@[m].1, files_view(files@)),
                        forall|m: int| 0 <= m < i ==> !has_bad_template((#[trigger] xs@[m]).1),
                    decreases xs@.len() - i,
                {
                    let (k, v) = &xs[i];
                    proof {
                        assert(decreases_to!(*self => (*self)->Dict_0));
                        assert(decreases_to!(*xs => xs@));
                        assert(decreases_to!(xs@ => xs@[i as int]));
                        assert(decreases_to!(xs@[i as int] => xs@[i as int].1));
                    }
                    match v.from_human(tx, files) {
                        Ok(w) => {
                            out.push((k.clone(), w));
                        },
                        Err(e) => {
                            proof {
                                if !has_bad_template(*self) && includes_present(*self, files_view(files@)) {
                                    assert(includes_present(xs@[i as int].1, files_view(files@)));
                                }
                            }
                            return Err(e);
                        },
                    }
                    i = i + 1;
                }
                Ok(Value::Dict(out))
            },
        }
    }
}

/// Some bytes of the value are empty.
pub open spec fn has_empty_bytes(a: Value) -> bool
    decreases a,
{
    match a {
        Value::Bytes(x) => x@.len() == 0,
        Value::Array(xs) => exists|i: int| 0 <= i < xs@.len() && has_empty_bytes(#[trigger] xs@[i]),
        Value::Dict(xs) => exists|i: int| 0 <= i < xs@.len() && has_empty_bytes((#[trigger] xs@[i]).1),
        _ => false,
    }
}

proof fn lemma_trim_fixed(x: Seq<char>)
    requires
        x.len() > 0,
        !is_whitespace(x[0]),
        !is_whitespace(x.last()),
    ensures
        trim(x) == x,
{
    assert(trim_start(x) == x);
    assert(trim_end(x) == x);
}

/// The text `{{<cmd> <e>}}` with a base64url argument is read back as the
/// command `cmd` with the argument `e`.
proof fn lemma_b64_template(text: bool, e: Seq<char>)
    requires
        e.len() > 0,
        is_b64url_text(e),
    ensures
        ({
            let h = if text { "{{b64-str "@ } else { "{{b64-bin "@ } + e + "}}"@;
            template_spec(h) == if text {
                match base64url_decode(e) {
                    Some(b) => TemplateSpec::Text(b),
                    None => TemplateSpec::BadBase64,
                }
            } else {
                match base64url_decode(e) {
                    Some(b) => TemplateSpec::Bin(b),
                    None => TemplateSpec::BadBase64,
                }
            }
        }),
{
    reveal_strlit("{{b64-str ");
    reveal_strlit("{{b64-bin ");
    reveal_strlit("}}");
    reveal_strlit("{{");
    reveal_strlit("b64-str");
    reveal_strlit("b64-bin");
    reveal_strlit("inc-bin");
    reveal_strlit("inc-str");
    reveal_strlit(" ");
    let head = if text { "{{b64-str "@ } else { "{{b64-bin "@ };
    let cmd = if text { "b64-str"@ } else { "b64-bin"@ };
    let h = head + e + "}}"@;
    let n = h.len() as int;
    assert(is_b64url_char(e[0]));
    assert(is_b64url_char(e.last()));
    assert(h[0] == '{');
    assert(h.last() == '}');
    lemma_trim_fixed(h);
    assert(h.subrange(0, 2) =~= "{{"@);
    assert("{{"@.is_prefix_of(h));
    assert(h.subrange(n - 2, n) =~= "}}"@);
    assert(ends_with(h, "}}"@));
    let m = h.subrange(2, n);
    assert(strip_opens(h) == strip_opens(m));
    assert(m[0] == 'b');
    assert(strip_opens(m) == m);
    let x = m.subrange(0, m.len() - 2);
    assert(m[m.len() - 2] == '}' && m[m.len() - 1] == '}');
    assert(strip_closes(m) == strip_closes(x));
    assert(x =~= cmd + " "@ + e);
    assert(x.last() == e.last());
    assert(strip_closes(x) == x);
    assert(x[0] == 'b');
    lemma_trim_fixed(x);
    assert(first_at(x, ' ', 7));
    assert forall|k: int| first_at(x, ' ', k) implies k == 7 by {
        if k < 7 {
            assert(x[k] == cmd[k]);
        }
    }
    assert(x.subrange(0, 7) =~= cmd);
    assert(x.subrange(8, x.len() as int) =~= e);
    assert(split_once(x, ' ') == Some((cmd, e)));
    lemma_trim_fixed(cmd);
    lemma_trim_fixed(e);
    assert(cmd != "inc-bin"@ && cmd != "inc-str"@) by {
        assert(cmd[0] != "inc-bin"@[0]);
        assert(cmd[0] != "inc-str"@[0]);
    }
    if !text {
        assert(cmd != "b64-str"@) by {
            assert(cmd[4] != "b64-str"@[4]);
        }
    }
}

/// The human form of a value reads back: it holds no unreadable template
/// and includes no file, so converting it back succeeds whatever table of
/// files is given (empty bytes aside, whose form `{{b64-bin }}` has no
/// argument).
pub proof fn law_human_form_reads(a: Value, h: Value, files: Seq<(Seq<char>, Seq<u8>)>)
    requires
        to_human_of(a, h),
        !has_empty_bytes(a),
    ensures
        !has_bad_template(h),
        includes_present(h, files),
        forall|f: Seq<char>| !includes_file(h, f),
    decreases a,
{
    match a {
        Value::Str(x) => {
            lemma_human_str(x@);
            assert forall|f: Seq<char>| !includes_file(h, f) by {
                assert(!(template_spec(h->Str_0@) is Include));
            }
        },
        Value::Bytes(x) => {
            lemma_human_bytes(x@);
            assert forall|f: Seq<char>| !includes_file(h, f) by {
                assert(!(template_spec(h->Str_0@) is Include));
            }
        },
        Value::Array(xs) => {
            let ys = h->Array_0;
            assert forall|i: int| 0 <= i < ys@.len() implies !has_bad_template(#[trigger] ys@[i])
                && includes_present(ys@[i], files) && forall|f: Seq<char>| !includes_file(ys@[i], f) by {
                assert(to_human_of(xs@[i], ys@[i]));
                assert(!has_empty_bytes(xs@[i]));
                law_human_form_reads(xs@[i], ys@[i], files);
            }
            assert forall|f: Seq<char>| !includes_file(h, f) by {
                if includes_file(h, f) {
                    let k = choose|k: int| 0 <= k < ys@.len() && includes_file(#[trigger] ys@[k], f);
                    assert(!includes_file(ys@[k], f));
                }
            }
        },
        Value::Dict(xs) => {
            let ys = h->Dict_0;
            assert forall|i: int| 0 <= i < ys@.len() implies !has_bad_template((#[trigger] ys@[i]).1)
                && includes_present(ys@[i].1, files) && forall|f: Seq<char>| !includes_file(ys@[i].1, f) by {
                assert(to_human_of(xs@[i].1, ys@[i].1));
                assert(!has_empty_bytes(xs@[i].1));
                law_human_form_reads(xs@[i].1, ys@[i].1, files);
            }
            assert forall|f: Seq<char>| !includes_file(h, f) by {
                if includes_file(h, f) {
                    let k = choose|k: int| 0 <= k < ys@.len() && includes_file((#[trigger] ys@[k]).1, f);
                    assert(!includes_file(ys@[k].1, f));
                }
            }
        },
        _ => {},
    }
}

/// What the human form of a string is read back as.
proof fn lemma_human_str(s: Seq<char>)
    requires
        needs_escape(s) ==> b64_roundtrips(vstd::utf8::encode_utf8(s)),
    ensures
        template_spec(human_str(s)) == if needs_escape(s) {
            TemplateSpec::Text(vstd::utf8::encode_utf8(s))
        } else {
            TemplateSpec::Plain
        },
{
    if needs_escape(s) {
        let b = vstd::utf8::encode_utf8(s);
        reveal_strlit("{{");
        assert(s.len() > 0) by {
            if s.len() == 0 {
                assert(trim_start(s) == s);
                assert(trim_end(s) == s);
            }
        }
        assert(b.len() > 0);
        lemma_b64_template(true, base64url_encode(b));
    }
}

/// What the human form of bytes is read back as.
proof fn lemma_human_bytes(x: Seq<u8>)
    requires
        b64_roundtrips(x),
        x.len() > 0,
    ensures
        template_spec(human_bytes(x)) == TemplateSpec::Bin(x),
{
    lemma_b64_template(false, base64url_encode(x));
}

/// Reading back the human form of a value gives the value again (empty
/// bytes aside, whose form `{{b64-bin }}` has no argument).
pub proof fn law_human_round_trip(a: Value, h: Value, w: Value, files: Seq<(Seq<char>, Seq<u8>)>)
    requires
        to_human_of(a, h),
        from_human_of(h, w, files),
        !has_empty_bytes(a),
    ensures
        same(a, w),
    decreases a,
{
    broadcast use vstd::utf8::encode_utf8_valid_utf8, vstd::utf8::encode_utf8_decode_utf8;

    match a {
        Value::Str(x) => {
            lemma_human_str(x@);
        },
        Value::Bytes(x) => {
            lemma_human_bytes(x@);
        },
        Value::Array(xs) => {
            let ys = h->Array_0;
            let zs = w->Array_0;
            assert forall|i: int| 0 <= i < xs@.len() implies same(#[trigger] xs@[i], zs@[i]) by {
                assert(to_human_of(xs@[i], ys@[i]));
                assert(from_human_of(ys@[i], zs@[i], files));
                assert(!has_empty_bytes(xs@[i]));
                law_human_round_trip(xs@[i], ys@[i], zs@[i], files);
            }
        },
        Value::Dict(xs) => {
            let ys = h->Dict_0;
            let zs = w->Dict_0;
            assert forall|i: int| 0 <= i < xs@.len() implies (#[trigger] xs@[i]).0@ == zs@[i].0@ && same(
                xs@[i].1,
                zs@[i].1,
            ) by {
                assert(to_human_of(xs@[i].1, ys@[i].1));
                assert(from_human_of(ys@[i].1, zs@[i].1, files));
                assert(!has_empty_bytes(xs@[i].1));
                law_human_round_trip(xs@[i].1, ys@[i].1, zs@[i].1, files);
            }
        },
        _ => {},
    }
}

} // verus!
