use voidmerge::context::{current_item_select, insert_step, startup_select, validate_input, InsertAction, InsertEvent, InsertStage, InsertState, insert_effect, missing_shorts, system_call, validate_outcome, InsertEffect, SystemCall};
use voidmerge::context_store::{
    check_cur, check_short, index_put, loadable, path_pieces, select_index, IndexItem,
    VmSelect,
};
use voidmerge::value::Value;
use voidmerge::ErrorKind;

fn h(b: &[u8]) -> voidmerge::hash::Hash {
    voidmerge::hash::Hash::from_static(b)
}

fn dict(entries: Vec<(&str, Value)>) -> Value {
    let mut m = Value::map_new();
    for (k, v) in entries {
        m.map_insert(k.to_string(), v);
    }
    m
}

#[test]
fn validate_answers() {
    assert!(validate_outcome(Value::Str("unimplemented".to_string())).is_ok());
    assert!(validate_outcome(dict(vec![("result", Value::Str("valid".to_string()))])).is_ok());
    let e = validate_outcome(dict(vec![("result", Value::Str("invalid".to_string()))])).unwrap_err();
    assert_eq!(e.kind(), ErrorKind::InvalidData);
    assert!(validate_outcome(Value::Str("nope".to_string())).is_err());
    assert!(validate_outcome(Value::Unit).is_err());
}

#[test]
fn insert_effects() {
    assert_eq!(insert_effect("syslogic"), InsertEffect::Logic);
    assert_eq!(insert_effect("sysenv"), InsertEffect::Env);
    assert_eq!(insert_effect("mytype"), InsertEffect::Nothing);
}

#[test]
fn system_calls() {
    let t = |s: &str| Value::Str(s.to_string());
    assert!(matches!(system_call(&dict(vec![("type", t("trace"))])).unwrap(), SystemCall::Reply(Value::Unit)));
    match system_call(&dict(vec![("type", t("utf8Encode")), ("data", t("hé"))])).unwrap() {
        SystemCall::Reply(Value::Bytes(b)) => assert_eq!(b, "hé".as_bytes().to_vec()),
        _ => panic!("expected bytes"),
    }
    match system_call(&dict(vec![("type", t("utf8Decode")), ("data", Value::Bytes(b"ok".to_vec()))])).unwrap() {
        SystemCall::Reply(Value::Str(s)) => assert_eq!(s, "ok"),
        _ => panic!("expected text"),
    }
    match system_call(&dict(vec![("type", t("randomBytes")), ("byteLength", Value::Float(4.0f64.to_bits()))])).unwrap() {
        SystemCall::Random(f) => assert_eq!(f, 4.0f64.to_bits()),
        _ => panic!("expected random"),
    }
    assert!(matches!(system_call(&dict(vec![("type", t("vmEncode"))])).unwrap(), SystemCall::Encode(Value::Unit)));
    let e = system_call(&dict(vec![("type", t("other"))])).unwrap_err();
    assert_eq!(e.to_string(), "unhandled system call type: other");
    let e = system_call(&Value::Unit).unwrap_err();
    assert_eq!(e.to_string(), "system call did not include type property");
    let e = system_call(&dict(vec![("type", t("vmDecode")), ("data", t("x"))])).unwrap_err();
    assert_eq!(e.to_string(), "vmDecode expects a binary 'data' property");
}

#[test]
fn sync_difference() {
    let remote = vec![h(&[1]), h(&[2]), h(&[2]), h(&[3])];
    let local = vec![h(&[2])];
    let missing = missing_shorts(&remote, &local);
    let got: Vec<Vec<u8>> = missing.iter().map(|x| x.as_bytes().to_vec()).collect();
    assert_eq!(got, vec![vec![1u8], vec![3u8]]);
}

fn item(t: &str, ident: u8, short: u8, size: u64, ttl: Option<f64>) -> IndexItem {
    IndexItem { type_: t.to_string(), ident: h(&[ident]), short: h(&[short]), size, ttl_s: ttl.map(f64::to_bits) }
}

#[test]
fn select_filters_and_expires() {
    let index = vec![
        item("a", 1, 11, 10, None),
        item("b", 2, 12, 20, Some(5.0)),
        item("a", 3, 13, 30, Some(50.0)),
        item("b", 4, 14, 40, None),
    ];
    let mut sel = VmSelect::default();
    sel.filter_by_types = Some(vec!["a".to_string()]);
    sel.return_size = Some(true);
    let out = select_index(index, &sel, 10.0f64.to_bits());
    assert_eq!(out.kept.len(), 3);
    assert_eq!(out.count, 2);
    assert_eq!(out.size, 40);
    assert_eq!(out.results.len(), 2);
    assert_eq!(out.results[1].size, Some(30));
    assert!(out.results[0].ident.is_none() && out.results[0].type_.is_none() && out.results[0].short.is_none());
    assert_eq!(out.matched, vec![0, 1]);
    assert_eq!(out.kept[out.matched[1]].ident.as_bytes(), &[3u8]);
}

#[test]
fn select_returns_what_is_asked() {
    let mut sel = VmSelect::default();
    sel.return_ident = Some(true);
    sel.return_short = Some(true);
    let out = select_index(vec![item("a", 1, 11, 10, None)], &sel, 10.0f64.to_bits());
    assert_eq!(out.results[0].ident.as_ref().unwrap().as_bytes(), &[1u8]);
    assert_eq!(out.results[0].short.as_ref().unwrap().as_bytes(), &[11u8]);
    assert!(out.results[0].type_.is_none() && out.results[0].size.is_none());
    let none = select_index(vec![item("a", 1, 11, 10, None)], &VmSelect::default(), 10.0f64.to_bits());
    assert_eq!(none.count, 1);
    assert!(none.results[0].ident.is_none() && none.results[0].type_.is_none());
    assert!(none.results[0].short.is_none() && none.results[0].size.is_none());
}

#[test]
fn store_insert_checks() {
    let mut index = vec![item("a", 1, 11, 10, None)];
    assert!(check_cur(&index, "a", &h(&[9]), None).unwrap().is_none());
    let prev = check_cur(&index, "a", &h(&[1]), Some(("a", &h(&[1])))).unwrap().unwrap();
    assert_eq!(prev.as_bytes(), &[11u8]);
    let e = check_cur(&index, "a", &h(&[1]), None).unwrap_err();
    assert_eq!(e.to_string(), "mismatching previous item");
    index_put(&mut index, item("a", 1, 21, 5, None));
    assert_eq!(index.len(), 1);
    assert_eq!(index[0].short.as_bytes(), &[21u8]);
    index_put(&mut index, item("b", 1, 22, 5, None));
    assert_eq!(index.len(), 2);
    assert!(check_short(&h(&[1]), &h(&[1])).is_ok());
    assert_eq!(check_short(&h(&[1]), &h(&[2])).unwrap_err().to_string(), "disk corrupted");
    assert!(loadable(&item("a", 1, 1, 1, Some(5.0)), 4.0f64.to_bits()));
    assert!(!loadable(&item("a", 1, 1, 1, Some(5.0)), 6.0f64.to_bits()));
}

#[test]
fn store_paths() {
    let p = path_pieces("mytype", &h(&[0xab, 0x01, 0xff]));
    assert_eq!(p, vec!["mytype", "hab01", "hff00", "h0000", "qwH_"]);
}

#[test]
fn insert_asks_store_then_validate() {
    let sel = current_item_select("post", &h(&[5]));
    assert_eq!(sel.filter_by_types, Some(vec!["post".to_string()]));
    assert_eq!(sel.filter_by_idents.as_ref().unwrap()[0].as_bytes(), &[5u8]);
    assert_eq!(sel.return_data, Some(true));
    assert!(sel.return_ident.is_none() && sel.filter_by_shorts.is_none());
    let input = validate_input("post", Value::Unit, Value::Bool(true));
    match input {
        Value::Dict(xs) => {
            let keys: Vec<&str> = xs.iter().map(|x| x.0.as_str()).collect();
            assert_eq!(keys, vec!["call", "type", "env", "data"]);
            assert!(matches!(&xs[0].1, Value::Str(s) if s == "validate"));
            assert!(matches!(&xs[1].1, Value::Str(s) if s == "post"));
            assert!(matches!(&xs[2].1, Value::Unit));
            assert!(matches!(&xs[3].1, Value::Bool(true)));
        }
        _ => panic!("not a map"),
    }
}

fn step(stage: InsertStage, t: &str, ev: InsertEvent) -> (InsertState, InsertAction) {
    insert_step(InsertState { stage, type_: t.to_string() }, ev)
}

#[test]
fn insert_steps_in_order() {
    let (st, a) = step(InsertStage::Start, "post", InsertEvent::Begin);
    assert_eq!(st.stage, InsertStage::Checking);
    assert!(matches!(a, InsertAction::LookUp));
    let (st, a) = insert_step(st, InsertEvent::Looked(Ok(())));
    assert_eq!(st.stage, InsertStage::Validating);
    assert!(matches!(a, InsertAction::Validate));
    let (st2, a) = step(InsertStage::Validating, "post", InsertEvent::Answered(Ok(Value::Str("nope".to_string()))));
    assert_eq!(st2.stage, InsertStage::Done);
    assert!(matches!(a, InsertAction::Fail(ref e) if e.kind() == ErrorKind::InvalidData));
    let (st, a) = insert_step(st, InsertEvent::Answered(Ok(Value::Str("unimplemented".to_string()))));
    assert_eq!(st.stage, InsertStage::Storing);
    assert!(matches!(a, InsertAction::Store));
    let (st, a) = insert_step(st, InsertEvent::Stored(Ok(())));
    assert_eq!(st.stage, InsertStage::Done);
    assert!(matches!(a, InsertAction::Finish));
    let (_, a) = step(InsertStage::Storing, "syslogic", InsertEvent::Stored(Ok(())));
    assert!(matches!(a, InsertAction::UseLogic));
    let (_, a) = step(InsertStage::Storing, "sysenv", InsertEvent::Stored(Ok(())));
    assert!(matches!(a, InsertAction::UseEnv));
    let (_, a) = step(InsertStage::Storing, "post", InsertEvent::Stored(Err(voidmerge::Error::other("disk"))));
    match a {
        InsertAction::Fail(e) => assert_eq!(e.to_string(), "disk: inserting a post type entry into the store"),
        _ => panic!("expected a failure"),
    }
    let (_, a) = step(InsertStage::Checking, "post", InsertEvent::Looked(Err(voidmerge::Error::other("gone"))));
    match a {
        InsertAction::Fail(e) => assert_eq!(e.to_string(), "gone: checking existing type/ident entry"),
        _ => panic!("expected a failure"),
    }
    let (st, a) = step(InsertStage::Done, "post", InsertEvent::Begin);
    assert_eq!(st.stage, InsertStage::Done);
    assert!(matches!(a, InsertAction::Ignore));
}

#[test]
fn startup_selects_system_items() {
    let sel = startup_select("syslogic");
    assert_eq!(sel.filter_by_types, Some(vec!["syslogic".to_string()]));
    assert_eq!(sel.filter_by_idents.as_ref().unwrap()[0].as_bytes(), &[0u8, 0, 0]);
    assert_eq!(sel.return_data, Some(true));
}
