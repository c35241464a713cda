use voidmerge::server::{
    check_tokens, obj_get_meta, obj_list_prefix, obj_put_meta, CtxConfig, CtxSetup, ServerState, SysSetup,
};
use voidmerge::obj::ObjMeta;
use voidmerge::{secs, ErrorKind};

fn server() -> ServerState {
    ServerState::new(SysSetup { sys_admin: vec!["root".to_string()] })
}

#[test]
fn sysadmin_checks() {
    let s = server();
    assert!(s.check_sysadmin("root").is_ok());
    let e = s.check_sysadmin("bob").unwrap_err();
    assert_eq!(e.kind(), ErrorKind::PermissionDenied);
    assert_eq!(s.get_sys_setup().sys_admin, vec!["root".to_string()]);
}

#[test]
fn set_sys_admin_requires_safe_tokens() {
    let mut s = server();
    assert!(s.set_sys_admin(vec!["a b".to_string()]).is_err());
    assert!(s.check_sysadmin("root").is_ok());
    assert!(s.set_sys_admin(vec!["new".to_string()]).is_ok());
    assert!(s.check_sysadmin("root").is_err());
    assert!(s.check_sysadmin("new").is_ok());
}

#[test]
fn ctx_setup_and_config_are_recorded() {
    let mut s = server();
    assert_eq!(s.get_ctx_setup("bobo").unwrap_err().kind(), ErrorKind::NotFound);
    let mut setup = CtxSetup::default();
    setup.ctx = "bobo".to_string();
    setup.ctx_admin = vec!["adm".to_string()];
    assert!(s.authorize_ctx_setup("root", &setup).is_ok());
    assert!(s.authorize_ctx_setup("adm", &setup).is_err());
    s.apply_ctx_setup(setup);
    let (st, cf) = s.get_ctx_setup("bobo").unwrap();
    assert_eq!(st.ctx_admin, vec!["adm".to_string()]);
    assert_eq!(cf.code_env, "null");
    assert!(s.check_ctxadmin("adm", "bobo").is_ok());
    assert_eq!(s.check_ctxadmin("eve", "bobo").unwrap_err().kind(), ErrorKind::PermissionDenied);
    let mut config = CtxConfig::default();
    config.ctx = "bobo".to_string();
    config.code = "function x() {}".to_string();
    assert!(s.authorize_ctx_config("adm", &config).is_ok());
    s.apply_ctx_config(config);
    let (st, cf) = s.get_ctx_setup("bobo").unwrap();
    assert_eq!(cf.code, "function x() {}");
    assert_eq!(st.timeout_secs, 10.0f64.to_bits());
}

#[test]
fn ctx_setup_checks() {
    let mut setup = CtxSetup::default();
    setup.ctx = "ok-name".to_string();
    assert!(setup.check().is_ok());
    setup.ctx = "bad/name".to_string();
    assert!(setup.check().is_err());
    assert!(check_tokens(&vec!["a".to_string(), "b!".to_string()]).is_err());
    assert_eq!(CtxSetup::default().max_heap_bytes, 1024 * 1024 * 32);
}

#[test]
fn object_paths() {
    assert_eq!(obj_list_prefix("AAAA", "fo"), "c/AAAA/fo");
    let g = obj_get_meta("AAAA", "bob");
    assert_eq!(g.path, "c/AAAA/bob/0/0");
    assert_eq!(g.created, secs::ZERO);
    let m = ObjMeta::from_path("c/AAAA/bob/0/0", 0, 0);
    let p = obj_put_meta(&m, "12.5", 12.5f64.to_bits(), "0", 5);
    assert_eq!(p.path, "c/AAAA/bob/12.5/0/5");
    assert_eq!(p.created, 12.5f64.to_bits());
    let m = ObjMeta::from_path("c/AAAA/bob/3.0/0", 3.0f64.to_bits(), 0);
    let p = obj_put_meta(&m, "12.5", 12.5f64.to_bits(), "0", 0);
    assert_eq!(p.path, "c/AAAA/bob/3.0/0/0");
    assert_eq!(p.created, 3.0f64.to_bits());
}

#[test]
fn ctx_setup_delete_removes_context() {
    let mut s = server();
    let mut setup = CtxSetup::default();
    setup.ctx = "A".to_string();
    assert!(s.apply_ctx_setup(setup.clone()).is_some());
    let mut other = CtxSetup::default();
    other.ctx = "B".to_string();
    s.apply_ctx_setup(other);
    assert!(s.get_ctx_setup("A").is_ok());
    setup.delete = true;
    assert!(s.apply_ctx_setup(setup.clone()).is_none());
    assert_eq!(s.get_ctx_setup("A").unwrap_err().kind(), ErrorKind::NotFound);
    assert!(s.get_ctx_setup("B").is_ok());
    assert!(s.apply_ctx_setup(setup).is_none());
}
