//! Decisions of a context: how an application's `validate` answer is read,
//! what storing an item of a system type changes, how a system call from
//! the application logic is answered, and which items a peer has that this
//! context lacks.

use vstd::prelude::*;
use crate::error::{Error, ErrorExt, ErrorKind, Result};
use crate::ext::{utf8_lossy, utf8_lossy_text};
use crate::hash::bytes_eq;
use crate::text::{concat, str_eq};
use crate::value::{has_key, key_at, Value};

verus! {

/// The entry under `k` of a map value, if it is a map that has one.
pub open spec fn dict_get(m: Value, k: Seq<char>) -> Option<Value> {
    match m {
        Value::Dict(xs) => if has_key(xs@, k) {
            Some(xs@[choose|i: int| key_at(xs@, k, i)].1)
        } else {
            None
        },
        _ => None,
    }
}

proof fn lemma_dict_get(xs: Seq<(String, Value)>, k: Seq<char>, i: int)
    requires
        key_at(xs, k, i),
    ensures
        has_key(xs, k),
        xs[choose|j: int| key_at(xs, k, j)] == xs[i],
{
    let j = choose|j: int| key_at(xs, k, j);
    assert(key_at(xs, k, j));
    if j < i {
        assert(xs[j].0@ != k);
    } else if j > i {
        assert(xs[i].0@ != k);
    }
}

/// The application accepted an item: it answered the string
/// `unimplemented`, or a map whose `result` entry is the string `valid`.
pub open spec fn accepted(result: Value) -> bool {
    match result {
        Value::Str(s) => s@ == "unimplemented"@,
        _ => dict_get(result, "result"@) matches Some(Value::Str(s)) && s@ == "valid"@,
    }
}

/// What an insert asks the store for first: the stored item of the same
/// type and identity, with its data.
pub fn current_item_select(type_: &str, ident: &crate::hash::Hash) -> (r: crate::context_store::VmSelect)
    ensures
        r.filter_by_types matches Some(ts) && ts@.len() == 1 && ts@[0]@ == type_@,
        r.filter_by_idents matches Some(ids) && ids@.len() == 1 && ids@[0]@ == ident@,
        r.filter_by_shorts is None,
        r.return_data == Some(true),
        r.return_size is None && r.return_short is None && r.return_ident is None && r.return_type is None,
{
    crate::context_store::VmSelect {
        filter_by_types: Some(vec![String::from_str(type_)]),
        filter_by_idents: Some(vec![ident.clone()]),
        filter_by_shorts: None,
        return_size: None,
        return_short: None,
        return_ident: None,
        return_type: None,
        return_data: Some(true),
    }
}

/// What a context asks its store for when it starts: the stored item of
/// a system type (`syslogic` or `sysenv`) under the identity `\0\0\0`,
/// with its data.
pub fn startup_select(type_: &str) -> (r: crate::context_store::VmSelect)
    ensures
        r.filter_by_types matches Some(ts) && ts@.len() == 1 && ts@[0]@ == type_@,
        r.filter_by_idents matches Some(ids) && ids@.len() == 1 && ids@[0]@ == seq![0u8, 0u8, 0u8],
        r.filter_by_shorts is None,
        r.return_data == Some(true),
        r.return_size is None && r.return_short is None && r.return_ident is None && r.return_type is None,
{
    let zero = crate::hash::Hash::from_vec(vec![0u8, 0u8, 0u8]);
    proof {
        assert(zero@ =~= seq![0u8, 0u8, 0u8]);
    }
    current_item_select(type_, &zero)
}

/// The input of the application's `validate` call for an item: the map
/// `{call: "validate", type, env, data}`, with the context's environment
/// and the item as values.
pub fn validate_input(type_: &str, env: Value, data: Value) -> (r: Value)
    ensures
        r matches Value::Dict(xs) && xs@.len() == 4
            && xs@[0].0@ == "call"@ && (xs@[0].1 matches Value::Str(c) && c@ == "validate"@)
            && xs@[1].0@ == "type"@ && (xs@[1].1 matches Value::Str(t) && t@ == type_@)
            && xs@[2].0@ == "env"@ && xs@[2].1 == env
            && xs@[3].0@ == "data"@ && xs@[3].1 == data,
{
    let mut xs: Vec<(String, Value)> = Vec::new();
    xs.push((String::from_str("call"), Value::Str(String::from_str("validate"))));
    xs.push((String::from_str("type"), Value::Str(String::from_str(type_))));
    xs.push((String::from_str("env"), env));
    xs.push((String::from_str("data"), data));
    Value::Dict(xs)
}

/// Reads the application's answer to `validate`: accepted, or an
/// `InvalidData` error.
pub fn validate_outcome(result: Value) -> (r: Result<()>)
    ensures
        r is Ok <==> accepted(result),
        r matches Err(e) ==> e.kind == ErrorKind::InvalidData,
{
    let ghost given = result;
    let mut result = result;
    let ok = match &result {
        Value::Str(s) => str_eq(s.as_str(), "unimplemented"),
        _ => match result.map_remove("result") {
            Some(Value::Str(s)) => {
                proof {
                    let xs = given->Dict_0;
                    let i = choose|i: int| key_at(xs@, "result"@, i) && xs@[i].1 == Value::Str(s);
                    lemma_dict_get(xs@, "result"@, i);
                }
                str_eq(s.as_str(), "valid")
            },
            other => {
                proof {
                    if given is Dict {
                        let xs = given->Dict_0;
                        if has_key(xs@, "result"@) {
                            let i = choose|i: int| key_at(xs@, "result"@, i) && xs@[i].1 == other->0;
                            lemma_dict_get(xs@, "result"@, i);
                        }
                    }
                }
                false
            },
        },
    };
    if ok {
        Ok(())
    } else {
        Err(ErrorKind::InvalidData.with_info("invalid 'validate' return type"))
    }
}

/// What storing an item changes besides the store.
#[derive(Debug, PartialEq, Eq, Structural, Clone, Copy)]
pub enum InsertEffect {
    /// A `syslogic` item: the context starts using its logic.
    Logic,
    /// A `sysenv` item: the context starts using its environment.
    Env,
    /// Any other type: nothing more.
    Nothing,
}

/// What storing an item of a type changes besides the store.
pub fn insert_effect(type_: &str) -> (r: InsertEffect)
    ensures
        r == (if type_@ == "syslogic"@ {
            InsertEffect::Logic
        } else if type_@ == "sysenv"@ {
            InsertEffect::Env
        } else {
            InsertEffect::Nothing
        }),
{
    if str_eq(type_, "syslogic") {
        InsertEffect::Logic
    } else if str_eq(type_, "sysenv") {
        InsertEffect::Env
    } else {
        InsertEffect::Nothing
    }
}

/// Where an insert stands.
#[derive(Debug, PartialEq, Eq, Structural, Clone, Copy)]
pub enum InsertStage {
    /// Not begun.
    Start,
    /// Looking up the stored item of the same type and identity.
    Checking,
    /// Asking the application to validate the item.
    Validating,
    /// Putting the item into the store.
    Storing,
    /// Finished, or refused.
    Done,
}

/// An insert of an item of a type.
#[derive(Debug)]
pub struct InsertState {
    /// Where it stands.
    pub stage: InsertStage,
    /// The item's type.
    pub type_: String,
}

/// What the outside work of an insert gave back.
#[derive(Debug)]
pub enum InsertEvent {
    /// Start the insert.
    Begin,
    /// The store's answer to the look-up of the current item.
    Looked(Result<()>),
    /// The application's answer to `validate`.
    Answered(Result<Value>),
    /// The store's answer to the insert.
    Stored(Result<()>),
}

/// What an insert does next.
#[derive(Debug)]
pub enum InsertAction {
    /// Look up the current item ([current_item_select]).
    LookUp,
    /// Ask the application to validate the item ([validate_input]).
    Validate,
    /// Put the item into the store.
    Store,
    /// Done: the context starts using the item's logic.
    UseLogic,
    /// Done: the context starts using the item's environment.
    UseEnv,
    /// Done: nothing more.
    Finish,
    /// Refused with this error; nothing more is done.
    Fail(Error),
    /// The event does not belong to this stage: nothing changes.
    Ignore,
}

/// The next step of an insert: the item is stored only after the
/// application accepted it, and the context's logic or environment changes
/// only after the store succeeded.
pub fn insert_step(st: InsertState, ev: InsertEvent) -> (r: (InsertState, InsertAction))
    ensures
        r.0.type_@ == st.type_@,
        match (st.stage, ev) {
            (InsertStage::Start, InsertEvent::Begin) => r.0.stage == InsertStage::Checking && r.1 is LookUp,
            (InsertStage::Checking, InsertEvent::Looked(Ok(()))) => r.0.stage == InsertStage::Validating
                && r.1 is Validate,
            (InsertStage::Checking, InsertEvent::Looked(Err(e))) => r.0.stage == InsertStage::Done && (r.1 matches InsertAction::Fail(f)
                && f.kind == e.kind && (f.message matches Some(m) && m@ == crate::error::joined(
                match e.message {
                    Some(x) => x@,
                    None => "none"@,
                },
                "checking existing type/ident entry"@,
            ))),
            (InsertStage::Validating, InsertEvent::Answered(Err(e))) => r.0.stage == InsertStage::Done && (r.1 matches InsertAction::Fail(f)
                && f == e),
            (InsertStage::Validating, InsertEvent::Answered(Ok(v))) => if accepted(v) {
                r.0.stage == InsertStage::Storing && r.1 is Store
            } else {
                r.0.stage == InsertStage::Done && (r.1 matches InsertAction::Fail(f) && f.kind == ErrorKind::InvalidData)
            },
            (InsertStage::Storing, InsertEvent::Stored(Err(e))) => r.0.stage == InsertStage::Done && (r.1 matches InsertAction::Fail(f)
                && f.kind == e.kind && (f.message matches Some(m) && m@ == crate::error::joined(
                match e.message {
                    Some(x) => x@,
                    None => "none"@,
                },
                "inserting a "@ + st.type_@ + " type entry into the store"@,
            ))),
            (InsertStage::Storing, InsertEvent::Stored(Ok(()))) => r.0.stage == InsertStage::Done && (if st.type_@
                == "syslogic"@ {
                r.1 is UseLogic
            } else if st.type_@ == "sysenv"@ {
                r.1 is UseEnv
            } else {
                r.1 is Finish
            }),
            _ => r.0.stage == st.stage && r.1 is Ignore,
        },
{
    let InsertState { stage, type_ } = st;
    match (stage, ev) {
        (InsertStage::Start, InsertEvent::Begin) => (InsertState { stage: InsertStage::Checking, type_ }, InsertAction::LookUp),
        (InsertStage::Checking, InsertEvent::Looked(Ok(()))) => (
            InsertState { stage: InsertStage::Validating, type_ },
            InsertAction::Validate,
        ),
        (InsertStage::Checking, InsertEvent::Looked(Err(e))) => (
            InsertState { stage: InsertStage::Done, type_ },
            InsertAction::Fail(e.with_info("checking existing type/ident entry")),
        ),
        (InsertStage::Validating, InsertEvent::Answered(Err(e))) => (
            InsertState { stage: InsertStage::Done, type_ },
            InsertAction::Fail(e),
        ),
        (InsertStage::Validating, InsertEvent::Answered(Ok(v))) => match validate_outcome(v) {
            Ok(()) => (InsertState { stage: InsertStage::Storing, type_ }, InsertAction::Store),
            Err(e) => (InsertState { stage: InsertStage::Done, type_ }, InsertAction::Fail(e)),
        },
        (InsertStage::Storing, InsertEvent::Stored(Err(e))) => {
            let head = concat("inserting a ", type_.as_str());
            let info = concat(head.as_str(), " type entry into the store");
            proof {
                reveal_strlit("inserting a ");
                reveal_strlit(" type entry into the store");
            }
            (InsertState { stage: InsertStage::Done, type_ }, InsertAction::Fail(e.with_info(info.as_str())))
        },
        (InsertStage::Storing, InsertEvent::Stored(Ok(()))) => {
            let action = match insert_effect(type_.as_str()) {
                InsertEffect::Logic => InsertAction::UseLogic,
                InsertEffect::Env => InsertAction::UseEnv,
                InsertEffect::Nothing => InsertAction::Finish,
            };
            (InsertState { stage: InsertStage::Done, type_ }, action)
        },
        (stage, _) => (InsertState { stage, type_ }, InsertAction::Ignore),
    }
}

/// How a system call of the application logic is answered.
#[derive(Debug)]
pub enum SystemCall {
    /// With this value.
    Reply(Value),
    /// With the canonical encoding of this value, as bytes.
    Encode(Value),
    /// With the value that these bytes encode.
    Decode(Vec<u8>),
    /// With random bytes, as many as the number (a double bit pattern)
    /// says, floored and clamped to at most 65536.
    Random(u64),
}

/// The answer a system call gets, by its `type` entry: `trace`,
/// `vmEncode`, `vmDecode`, `utf8Encode`, `utf8Decode` or `randomBytes`.
/// Refusals are of kind `Other`.
pub open spec fn system_call_ok(m: Value, r: Result<SystemCall>) -> bool {
    match dict_get(m, "type"@) {
        Some(Value::Str(t)) => if t@ == "trace"@ {
            r matches Ok(SystemCall::Reply(Value::Unit))
        } else if t@ == "vmEncode"@ {
            match dict_get(m, "data"@) {
                Some(d) => r matches Ok(SystemCall::Encode(v)) && crate::value::same(d, v),
                None => r matches Ok(SystemCall::Encode(Value::Unit)),
            }
        } else if t@ == "vmDecode"@ {
            match dict_get(m, "data"@) {
                Some(Value::Bytes(b)) => r matches Ok(SystemCall::Decode(x)) && x@ == b@,
                _ => r matches Err(e) && e.kind == ErrorKind::Other,
            }
        } else if t@ == "utf8Encode"@ {
            match dict_get(m, "data"@) {
                Some(Value::Str(s)) => r matches Ok(SystemCall::Reply(Value::Bytes(x))) && x@
                    == vstd::utf8::encode_utf8(s@),
                _ => r matches Err(e) && e.kind == ErrorKind::Other,
            }
        } else if t@ == "utf8Decode"@ {
            match dict_get(m, "data"@) {
                Some(Value::Bytes(b)) => r matches Ok(SystemCall::Reply(Value::Str(x))) && x@
                    == utf8_lossy_text(b@),
                _ => r matches Err(e) && e.kind == ErrorKind::Other,
            }
        } else if t@ == "randomBytes"@ {
            match dict_get(m, "byteLength"@) {
                Some(Value::Float(f)) => r == Ok::<SystemCall, Error>(SystemCall::Random(f)),
                _ => r matches Err(e) && e.kind == ErrorKind::Other,
            }
        } else {
            r matches Err(e) && e.kind == ErrorKind::Other && (e.message matches Some(msg) && msg@
                == "unhandled system call type: "@ + t@)
        },
        _ => r matches Err(e) && e.kind == ErrorKind::Other,
    }
}

/// Looks up an entry of a map value.
fn entry<'a>(m: &'a Value, k: &str) -> (r: Option<&'a Value>)
    ensures
        match dict_get(*m, k@) {
            Some(v) => r == Some(&v),
            None => r is None,
        },
{
    let r = m.map_get(k);
    proof {
        if m is Dict {
            let xs = m->Dict_0;
            if r is Some {
                let i = choose|i: int| key_at(xs@, k@, i) && xs@[i].1 == *(r->0);
                lemma_dict_get(xs@, k@, i);
            }
        }
    }
    r
}

/// Answers a system call of the application logic.
pub fn system_call(m: &Value) -> (r: Result<SystemCall>)
    ensures
        system_call_ok(*m, r),
{
    let t = match entry(m, "type") {
        Some(Value::Str(t)) => t,
        _ => {
            return Err(Error::other("system call did not include type property"));
        },
    };
    if str_eq(t.as_str(), "trace") {
        Ok(SystemCall::Reply(Value::Unit))
    } else if str_eq(t.as_str(), "vmEncode") {
        match entry(m, "data") {
            Some(d) => Ok(SystemCall::Encode(d.deep_clone())),
            None => Ok(SystemCall::Encode(Value::Unit)),
        }
    } else if str_eq(t.as_str(), "vmDecode") {
        match entry(m, "data") {
            Some(Value::Bytes(b)) => Ok(SystemCall::Decode(b.clone())),
            _ => Err(Error::other("vmDecode expects a binary 'data' property")),
        }
    } else if str_eq(t.as_str(), "utf8Encode") {
        match entry(m, "data") {
            Some(Value::Str(s)) => Ok(SystemCall::Reply(Value::Bytes(crate::hash::copy_bytes(s.as_str().as_bytes())))),
            _ => Err(Error::other("utf8Encode expects a string 'data' property")),
        }
    } else if str_eq(t.as_str(), "utf8Decode") {
        match entry(m, "data") {
            Some(Value::Bytes(b)) => Ok(SystemCall::Reply(Value::Str(utf8_lossy(b.as_slice())))),
            _ => Err(Error::other("utf8Decode expects a binary 'data' property")),
        }
    } else if str_eq(t.as_str(), "randomBytes") {
        match entry(m, "byteLength") {
            Some(Value::Float(f)) => Ok(SystemCall::Random(*f)),
            _ => Err(Error::other("randomBytes expects a number 'byteLength' property")),
        }
    } else {
        let msg = concat("unhandled system call type: ", t.as_str());
        Err(Error::other(msg.as_str()))
    }
}

/// Some hash of `s` holds the bytes `b`.
pub open spec fn holds(s: Seq<crate::hash::Hash>, b: Seq<u8>) -> bool {
    exists|i: int| 0 <= i < s.len() && (#[trigger] s[i])@ == b
}

/// True if some hash of the list holds the same bytes.
fn holds_hash(s: &Vec<crate::hash::Hash>, h: &crate::hash::Hash) -> (r: bool)
    ensures
        r == holds(s@, h@),
{
    let mut i: usize = 0;
    while i < s.len()
        invariant
            i <= s@.len(),
            forall|j: int| 0 <= j < i ==> (#[trigger] s@[j])@ != h@,
        decreases s@.len() - i,
    {
        if bytes_eq(s[i].as_bytes(), h.as_bytes()) {
            return true;
        }
        i = i + 1;
    }
    false
}

/// The bytes of each hash of a list.
pub open spec fn short_views(s: Seq<crate::hash::Hash>) -> Seq<Seq<u8>> {
    s.map_values(|h: crate::hash::Hash| h@)
}

/// The hashes of `remote` that `local` does not hold, each once, in the
/// order of their first occurrence in `remote`.
pub open spec fn missing_in_order(remote: Seq<Seq<u8>>, local: Seq<Seq<u8>>) -> Seq<Seq<u8>>
    decreases remote.len(),
{
    if remote.len() == 0 {
        Seq::empty()
    } else {
        let p = missing_in_order(remote.drop_last(), local);
        let x = remote.last();
        if local.contains(x) || p.contains(x) {
            p
        } else {
            p.push(x)
        }
    }
}

proof fn lemma_holds_views(s: Seq<crate::hash::Hash>, b: Seq<u8>)
    ensures
        holds(s, b) <==> short_views(s).contains(b),
{
    if holds(s, b) {
        let i = choose|i: int| 0 <= i < s.len() && (#[trigger] s[i])@ == b;
        assert(short_views(s)[i] == b);
    }
    if short_views(s).contains(b) {
        let i = choose|i: int| 0 <= i < short_views(s).len() && short_views(s)[i] == b;
        assert(s[i]@ == b);
    }
}

/// The items a peer has and this context lacks: each short hash of
/// `remote` that `local` does not hold, once, in the order of `remote`.
pub fn missing_shorts(remote: &Vec<crate::hash::Hash>, local: &Vec<crate::hash::Hash>) -> (r: Vec<
    crate::hash::Hash,
>)
    ensures
        short_views(r@) == missing_in_order(short_views(remote@), short_views(local@)),
        forall|b: Seq<u8>| holds(r@, b) <==> holds(remote@, b) && !holds(local@, b),
        forall|i: int, j: int| 0 <= i < j < r@.len() ==> (#[trigger] r@[i])@ != (#[trigger] r@[j])@,
{
    let mut out: Vec<crate::hash::Hash> = Vec::new();
    let mut i: usize = 0;
    while i < remote.len()
        invariant
            i <= remote@.len(),
            forall|b: Seq<u8>|
                holds(out@, b) <==> (exists|k: int| 0 <= k < i && (#[trigger] remote@[k])@ == b) && !holds(
                    local@,
                    b,
                ),
            forall|a: int, c: int| 0 <= a < c < out@.len() ==> (#[trigger] out@[a])@ != (#[trigger] out@[c])@,
            short_views(out@) == missing_in_order(short_views(remote@).take(i as int), short_views(local@)),
        decreases remote@.len() - i,
    {
        let h = &remote[i];
        proof {
            let rv = short_views(remote@);
            assert(rv.take(i + 1).drop_last() =~= rv.take(i as int));
            assert(rv.take(i + 1).last() == h@);
            lemma_holds_views(local@, h@);
            lemma_holds_views(out@, h@);
        }
        if !holds_hash(local, h) && !holds_hash(&out, h) {
            let ghost before = out@;
            out.push(h.clone());
            proof {
                assert forall|b: Seq<u8>| holds(out@, b) <==> (exists|k: int|
                    0 <= k < i + 1 && (#[trigger] remote@[k])@ == b) && !holds(local@, b) by {
                    if holds(out@, b) {
                        let j = choose|j: int| 0 <= j < out@.len() && (#[trigger] out@[j])@ == b;
                        if j < before.len() {
                            assert(before[j]@ == b);
                            assert(holds(before, b));
                        } else {
                            assert(remote@[i as int]@ == b);
                        }
                    }
                    if (exists|k: int| 0 <= k < i + 1 && (#[trigger] remote@[k])@ == b) && !holds(local@, b) {
                        let k = choose|k: int| 0 <= k < i + 1 && (#[trigger] remote@[k])@ == b;
                        if k < i {
                            assert(holds(before, b));
                            let j = choose|j: int| 0 <= j < before.len() && (#[trigger] before[j])@ == b;
                            assert(out@[j]@ == b);
                        } else {
                            assert(out@[before.len() as int]@ == b);
                        }
                    }
                }
                assert forall|a: int, c: int| 0 <= a < c < out@.len() implies (#[trigger] out@[a])@
                    != (#[trigger] out@[c])@ by {
                    if c == before.len() {
                        assert(before[a]@ != h@);
                    } else {
                        assert(before[a]@ != before[c]@);
                    }
                }
            }
        } else {
            proof {
                assert forall|b: Seq<u8>| holds(out@, b) <==> (exists|k: int|
                    0 <= k < i + 1 && (#[trigger] remote@[k])@ == b) && !holds(local@, b) by {
                    if (exists|k: int| 0 <= k < i + 1 && (#[trigger] remote@[k])@ == b) && !holds(local@, b) {
                        let k = choose|k: int| 0 <= k < i + 1 && (#[trigger] remote@[k])@ == b;
                        if k == i {
                            assert(holds(out@, h@));
                        }
                    }
                }
            }
        }
        i = i + 1;
    }
    proof {
        assert(short_views(remote@).take(remote@.len() as int) =~= short_views(remote@));
    }
    out
}

} // verus!
