use voidmerge::human::{parse_template, Template};
use voidmerge::value::{include_value, Value, ValueTxFromHuman, ValueTxToHuman};
use voidmerge::ErrorKind;

fn no_files() -> Vec<(String, Vec<u8>)> {
    Vec::new()
}

fn s(v: &Value) -> String {
    match v {
        Value::Str(s) => s.clone(),
        _ => panic!("not a string"),
    }
}

fn eq(a: &Value, b: &Value) -> bool {
    match (a, b) {
        (Value::Unit, Value::Unit) => true,
        (Value::Bool(x), Value::Bool(y)) => x == y,
        (Value::Float(x), Value::Float(y)) => x == y,
        (Value::Str(x), Value::Str(y)) => x == y,
        (Value::Bytes(x), Value::Bytes(y)) => x == y,
        (Value::Array(x), Value::Array(y)) => x.len() == y.len() && x.iter().zip(y.iter()).all(|(a, b)| eq(a, b)),
        (Value::Dict(x), Value::Dict(y)) => {
            x.len() == y.len() && x.iter().zip(y.iter()).all(|(a, b)| a.0 == b.0 && eq(&a.1, &b.1))
        }
        _ => false,
    }
}

fn sample() -> Value {
    let mut a = Value::array_new();
    a.array_push(Value::Str("{{ not a real template".to_string()));
    a.array_push(Value::Bytes(b"hello".to_vec()));
    let mut m1 = Value::map_new();
    m1.map_insert("m1".to_string(), Value::Str("{{ fake".to_string()));
    a.array_push(m1);
    let mut m2 = Value::map_new();
    m2.map_insert("m2".to_string(), Value::Bytes(b"world".to_vec()));
    a.array_push(m2);
    a
}

#[test]
fn tx_to_human() {
    let a = sample();
    let b = a.to_human(&ValueTxToHuman);
    let items = b.as_array().unwrap();
    assert_eq!(s(&items[0]), "{{b64-str e3sgbm90IGEgcmVhbCB0ZW1wbGF0ZQ}}");
    assert_eq!(s(&items[1]), "{{b64-bin aGVsbG8}}");
    assert_eq!(s(items[2].map_get("m1").unwrap()), "{{b64-str e3sgZmFrZQ}}");
    assert_eq!(s(items[3].map_get("m2").unwrap()), "{{b64-bin d29ybGQ}}");
    let c = b.from_human(&ValueTxFromHuman::new("."), &no_files()).unwrap();
    assert!(eq(&a, &c));
}

#[test]
fn human_round_trip_keeps_plain_values() {
    let mut m = Value::map_new();
    m.map_insert("n".to_string(), Value::Float(3.141f64.to_bits()));
    m.map_insert("b".to_string(), Value::Bool(true));
    m.map_insert("u".to_string(), Value::Unit);
    m.map_insert("t".to_string(), Value::Str("  plain text".to_string()));
    m.map_insert("w".to_string(), Value::Str("  {{ spaced".to_string()));
    let h = m.to_human(&ValueTxToHuman);
    assert_eq!(s(h.map_get("t").unwrap()), "  plain text");
    let back = h.from_human(&ValueTxFromHuman::new("."), &no_files()).unwrap();
    assert!(eq(&m, &back));
}

#[test]
fn empty_bytes_do_not_read_back() {
    let v = Value::Bytes(vec![]);
    let h = v.to_human(&ValueTxToHuman);
    assert_eq!(s(&h), "{{b64-bin }}");
    let e = h.from_human(&ValueTxFromHuman::new("."), &no_files()).unwrap_err();
    assert_eq!(e.kind(), ErrorKind::Other);
    assert_eq!(e.to_string(), "invalid template command {{b64-bin }}");
}

#[test]
fn templates_parse() {
    assert!(matches!(parse_template("hello").unwrap(), Template::Plain));
    assert!(matches!(parse_template("{{ open only").unwrap(), Template::Plain));
    match parse_template("  {{ inc-bin  some/file.bin }} ").unwrap() {
        Template::Include { file, as_str } => {
            assert_eq!(file, "some/file.bin");
            assert!(!as_str);
        }
        _ => panic!("expected include"),
    }
    match parse_template("{{inc-str a.txt}}").unwrap() {
        Template::Include { file, as_str } => {
            assert_eq!(file, "a.txt");
            assert!(as_str);
        }
        _ => panic!("expected include"),
    }
    match parse_template("{{b64-bin aGVsbG8}}").unwrap() {
        Template::Bin(b) => assert_eq!(b, b"hello".to_vec()),
        _ => panic!("expected bytes"),
    }
    match parse_template("{{{{b64-str d29ybGQ}}}}").unwrap() {
        Template::Text(t) => assert_eq!(t, "world"),
        _ => panic!("expected text"),
    }
    let e = parse_template("{{nospace}}").err().unwrap();
    assert_eq!(e.to_string(), "invalid template command {{nospace}}");
    let e = parse_template("{{ what now }}").err().unwrap();
    assert_eq!(e.to_string(), "unrecognized template cmd: what");
    assert!(parse_template("{{b64-bin !!}}").is_err());
}

#[test]
fn includes_come_from_the_file_table() {
    let files = vec![("x.txt".to_string(), b"text!".to_vec())];
    let tx = ValueTxFromHuman::new(".");
    let v = Value::Str("{{inc-str x.txt}}".to_string()).from_human(&tx, &files).unwrap();
    assert_eq!(s(&v), "text!");
    let v = Value::Str("{{inc-bin  x.txt }}".to_string()).from_human(&tx, &files).unwrap();
    assert!(eq(&v, &Value::Bytes(b"text!".to_vec())));
    let e = Value::Str("{{inc-bin y.txt}}".to_string()).from_human(&tx, &files).unwrap_err();
    assert_eq!(e.kind(), ErrorKind::NotFound);
    let mut tree = Value::array_new();
    tree.array_push(Value::Str("{{inc-str a}}".to_string()));
    tree.array_push(Value::Str("plain".to_string()));
    let mut m = Value::map_new();
    m.map_insert("k".to_string(), Value::Str("{{inc-bin b}}".to_string()));
    tree.array_push(m);
    assert_eq!(tree.include_files(), vec!["a".to_string(), "b".to_string()]);
    let target = tx.include_target("{{inc-str a}}").unwrap();
    assert_eq!(target, ("a".to_string(), true));
    assert!(tx.include_target("plain").is_none());
    assert_eq!(s(&include_value(vec![0xff, b'a'], true)), "\u{fffd}a");
    assert!(eq(&include_value(vec![1, 2], false), &Value::Bytes(vec![1, 2])));
}

#[test]
fn value_map_and_array_ops() {
    let mut m = Value::map_new();
    m.map_insert("a".to_string(), Value::Bool(true));
    m.map_insert("b".to_string(), Value::Bool(false));
    m.map_insert("a".to_string(), Value::Bool(false));
    assert_eq!(m.as_map().unwrap().len(), 2);
    assert_eq!(m.map_get("a").unwrap().as_bool(), Some(false));
    assert!(m.map_get("c").is_none());
    let r = m.map_remove("a").unwrap();
    assert_eq!(r.as_bool(), Some(false));
    assert!(m.map_remove("a").is_none());
    assert_eq!(m.as_map().unwrap().len(), 1);
    let mut a = Value::array_new();
    a.array_push(Value::Float(1.5f64.to_bits()));
    assert_eq!(a.array_get(0).unwrap().as_float(), Some(1.5f64.to_bits()));
    assert!(a.array_get(1).is_none());
    let mut u = Value::Unit;
    u.array_push(Value::Unit);
    u.map_insert("k".to_string(), Value::Unit);
    assert!(matches!(u, Value::Unit));
    assert!(Value::Str("x".to_string()).as_bytes().is_none());
    assert_eq!(Value::Bytes(vec![1]).as_bytes().unwrap(), &vec![1u8]);
    assert_eq!(Value::Str("x".to_string()).as_string().unwrap(), "x");
}

#[test]
fn deep_clone_copies() {
    let a = sample();
    assert!(eq(&a, &a.deep_clone()));
}
