use voidmerge::js::{
    js_global_get_max_ram, js_global_get_max_thread, js_global_set_max_ram, js_global_set_max_thread,
    JsGlobals, SetOnce,
};
use voidmerge::vm_js::{JsError, MonitorAction, MonitorTable, VmJsConfig};
use voidmerge::{Error, ErrorKind};

#[test]
fn js_error_fatal_and_non_fatal() {
    let e = JsError::fatal("loading code", Error::other("syntax error"));
    assert!(e.is_fatal());
    assert_eq!(e.error().kind(), ErrorKind::Other);
    assert_eq!(e.error().to_string(), "loading code: syntax error");
    let e = JsError::non_fatal("call", Error::from_kind(ErrorKind::TimedOut));
    assert!(!e.is_fatal());
    assert_eq!(e.error().to_string(), "call: timed out");
}

#[test]
fn vm_js_config_default() {
    let c = VmJsConfig::default();
    assert_eq!(c.code, "");
    assert_eq!(c.max_mem_bytes, 1024 * 1024 * 32);
    assert_eq!(c.idle_shutdown_secs, 120);
    let d = c.clone();
    assert_eq!(d.max_mem_bytes, c.max_mem_bytes);
}

#[test]
fn monitor_table_registers_distinct_numbers() {
    let mut t = MonitorTable::new();
    let a = t.register(100);
    let b = t.register(100);
    assert_eq!(a.0, 1);
    assert_eq!(b.0, 2);
    assert!(t.remove(a.0));
    assert!(!t.remove(a.0));
    assert_eq!(t.check(a.0, false, 0, 1000, 1000), MonitorAction::Ignore);
}

#[test]
fn monitor_timeout_fires() {
    let mut t = MonitorTable::new();
    let g = t.register(100);
    t.set_timeout(g.0, 1000, 500);
    assert_eq!(t.check(g.0, false, 1499, 0, 0), MonitorAction::Ignore);
    assert_eq!(t.check(g.0, false, 1500, 0, 0), MonitorAction::CancelAndTerminate);
    t.clear_timeout(g.0);
    assert_eq!(t.check(g.0, false, 5000, 0, 0), MonitorAction::Ignore);
}

#[test]
fn monitor_memory_and_cancel() {
    let mut t = MonitorTable::new();
    let g = t.register(100);
    assert_eq!(t.check(g.0, false, 0, 60, 40), MonitorAction::Ignore);
    assert_eq!(t.check(g.0, false, 0, 60, 41), MonitorAction::CancelAndTerminate);
    assert_eq!(t.check(g.0, true, 0, 0, 0), MonitorAction::Terminate);
    t.set_timeout(999, 0, 1);
    assert_eq!(t.check(999, false, 10, 0, 0), MonitorAction::Ignore);
}

#[test]
fn js_globals_set_once() {
    let mut g = JsGlobals::new();
    assert!(js_global_set_max_thread(&mut g, 8));
    assert!(!js_global_set_max_thread(&mut g, 16));
    assert_eq!(js_global_get_max_thread(&mut g), 8);
    assert_eq!(js_global_get_max_ram(&mut g), 768 * 1024 * 1024);
    assert!(!js_global_set_max_ram(&mut g, 1));
    assert_eq!(js_global_get_max_ram(&mut g), 768 * 1024 * 1024);
}

#[test]
fn set_once_law_on_values() {
    let mut s = SetOnce::new();
    assert!(s.set(3));
    assert!(!s.set(4));
    assert_eq!(s.get_or_init(9), 3);
    let mut d = SetOnce::new();
    assert_eq!(d.get_or_init(7), 7);
    assert!(!d.set(1));
    assert_eq!(d.get_or_init(0), 7);
}
