use voidmerge::cli::{arg_parse, Arg, Env, ListPager, Options};
use voidmerge::ErrorKind;

fn opts(args: &[&str]) -> Options {
    Options::parse(&args.iter().map(|s| s.to_string()).collect())
}

fn env(vars: &[(&str, &str)]) -> Env {
    Env { vars: vars.iter().map(|(a, b)| (a.to_string(), b.to_string())).collect() }
}

#[test]
fn help_by_default_and_by_flag() {
    assert!(matches!(arg_parse(opts(&[]), &env(&[]), "1.0").unwrap(), Arg::Help));
    assert!(matches!(arg_parse(opts(&["serve", "-h"]), &env(&[]), "1.0").unwrap(), Arg::Help));
    assert!(matches!(arg_parse(opts(&["--help"]), &env(&[]), "1.0").unwrap(), Arg::Help));
}

#[test]
fn serve_defaults_and_env_tokens() {
    let e = env(&[("VM_SYS_ADMIN_TOKENS", "a,b")]);
    match arg_parse(opts(&["serve", "--sys-admin", "x"]), &e, "1.0").unwrap() {
        Arg::Serve { sys_admin, http_addr, store } => {
            assert_eq!(sys_admin, vec!["x", "a", "b"]);
            assert_eq!(http_addr, "[::]:8080");
            assert_eq!(store, None);
        }
        other => panic!("unexpected {other:?}"),
    }
    match arg_parse(opts(&["serve", "--http-addr", "1.2.3.4:5"]), &env(&[("VM_STORE", "/tmp/s")]), "1.0").unwrap() {
        Arg::Serve { sys_admin, http_addr, store } => {
            assert!(sys_admin.is_empty());
            assert_eq!(http_addr, "1.2.3.4:5");
            assert_eq!(store, Some("/tmp/s".to_string()));
        }
        other => panic!("unexpected {other:?}"),
    }
}

#[test]
fn required_options_are_reported() {
    let err = arg_parse(opts(&["health"]), &env(&[]), "1.0").unwrap_err();
    assert_eq!(err.kind(), ErrorKind::InvalidInput);
    assert_eq!(err.to_string(), "Argument Error: --url is required");
    let err = arg_parse(opts(&["obj-get", "--url", "u"]), &env(&[]), "1.0").unwrap_err();
    assert_eq!(err.to_string(), "Argument Error: --token is required");
    match arg_parse(opts(&["health"]), &env(&[("VM_URL", "http://x")]), "1.0").unwrap() {
        Arg::Health { url } => assert_eq!(url, "http://x"),
        other => panic!("unexpected {other:?}"),
    }
}

#[test]
fn ctx_setup_numbers() {
    let base = ["ctx-setup", "--url", "u", "--token", "t", "--context", "c"];
    match arg_parse(opts(&base), &env(&[]), "1.0").unwrap() {
        Arg::CtxSetup { delete, ctx_admin, timeout_secs, max_heap_bytes, .. } => {
            assert!(!delete);
            assert!(ctx_admin.is_empty());
            assert_eq!(timeout_secs, "10.0");
            assert_eq!(max_heap_bytes, 33554432);
        }
        other => panic!("unexpected {other:?}"),
    }
    let mut with_bad: Vec<&str> = base.to_vec();
    with_bad.extend_from_slice(&["--max-heap-bytes", "lots", "--delete"]);
    let err = arg_parse(opts(&with_bad), &env(&[]), "1.0").unwrap_err();
    assert_eq!(err.kind(), ErrorKind::Other);
}

#[test]
fn obj_commands() {
    let e = env(&[("VM_URL", "u"), ("VM_TOKEN", "t"), ("VM_CTX", "c")]);
    match arg_parse(opts(&["obj-list"]), &e, "1.0").unwrap() {
        Arg::ObjList { prefix, created_gt, limit, .. } => {
            assert_eq!(prefix, "");
            assert_eq!(created_gt, "0.0");
            assert_eq!(limit, u32::MAX);
        }
        other => panic!("unexpected {other:?}"),
    }
    match arg_parse(opts(&["obj-put", "--app-path", "a/b"]), &e, "12.5").unwrap() {
        Arg::ObjPut { app_path, create, expire, .. } => {
            assert_eq!(app_path, "a/b");
            assert_eq!(create, "12.5");
            assert_eq!(expire, "0.0");
        }
        other => panic!("unexpected {other:?}"),
    }
    let err = arg_parse(opts(&["bogus"]), &e, "1.0").unwrap_err();
    assert_eq!(err.to_string(), "unrecognised command: bogus");
}

#[test]
fn list_pager_pages() {
    let mut p = ListPager::new(2500, 0f64.to_bits());
    assert_eq!(p.next_request(), Some(1000));
    assert!(p.take_page(&vec![1.0f64.to_bits(), 3.0f64.to_bits(), 2.0f64.to_bits()]));
    assert_eq!(p.created_gt, 3.0f64.to_bits());
    assert_eq!(p.count, 3);
    assert_eq!(p.next_request(), Some(1000));
    assert!(!p.take_page(&vec![]));
    assert_eq!(p.next_request(), Some(500));
    assert_eq!(p.next_request(), None);
    let mut small = ListPager::new(5, 0);
    assert_eq!(small.next_request(), Some(5));
    assert_eq!(small.next_request(), None);
    let mut none = ListPager::new(0, 0);
    assert_eq!(none.next_request(), None);
}
