use voidmerge::memindex::MemIndex;
use voidmerge::obj::{obj_put_plan, ObjMeta, Pfx};
use voidmerge::{secs, ErrorKind};

fn b(f: f64) -> u64 {
    f.to_bits()
}

fn meta(path: &str, created: f64, expires: f64) -> ObjMeta {
    ObjMeta::from_path(path, b(created), b(expires))
}

#[test]
fn obj_meta_pieces() {
    let m = ObjMeta::new_context("AAAA", "bob", "1.5", "0", b(1.5), b(0.0));
    assert_eq!(m.path, "c/AAAA/bob/1.5/0");
    assert_eq!(m.sys_prefix(), "c");
    assert_eq!(m.ctx(), "AAAA");
    assert_eq!(m.app_path(), "bob");
    assert_eq!(m.created_secs(), b(1.5));
    assert_eq!(m.expires_secs(), b(0.0));
    assert_eq!(Pfx::new(&m).0, "c/AAAA/bob");
    let s = ObjMeta::from_path("s/x/y/1/2/42", 0, 0);
    assert_eq!(s.sys_prefix(), "s");
    assert_eq!(s.byte_length(), 42);
    let z = ObjMeta::from_path("zzz", 0, 0);
    assert_eq!(z.sys_prefix(), "c");
    assert_eq!(z.ctx(), "");
    assert_eq!(z.byte_length(), 0);
}

#[test]
fn get_unknown_time() {
    let mut idx: MemIndex<u32> = MemIndex::new();
    idx.put(meta("c/AAAA/bob/1.0/0.0", 1.0, 0.0), 7, b(10.0));
    idx.put(meta("c/AAAA/ned/2.0/0.0", 2.0, 0.0), 8, b(10.0));
    let (m, info) = idx.get(&meta("c/AAAA/bob/0.0/0.0", 0.0, 0.0)).unwrap();
    assert_eq!(m.path, "c/AAAA/bob/1.0/0.0");
    assert_eq!(info, 7);
    let e = idx.get(&meta("c/AAAA/zed/0.0/0.0", 0.0, 0.0)).unwrap_err();
    assert_eq!(e.kind(), ErrorKind::NotFound);
}

#[test]
fn clean_replaced_items() {
    let mut idx: MemIndex<u32> = MemIndex::new();
    idx.put(meta("c/AAAA/bob/1.0/0.0", 1.0, 0.0), 1, b(10.0));
    idx.put(meta("c/AAAA/bob/2.0/0.0", 2.0, 0.0), 2, b(10.0));
    let del = idx.get_delete();
    assert_eq!(del.len(), 1);
    assert_eq!(del[0].0.path, "c/AAAA/bob/1.0/0.0");
    let (m, _) = idx.get(&meta("c/AAAA/bob/0/0", 0.0, 0.0)).unwrap();
    assert_eq!(m.path, "c/AAAA/bob/2.0/0.0");
    assert!(idx.get_delete().is_empty());
}

#[test]
fn older_put_is_discarded() {
    let mut idx: MemIndex<u32> = MemIndex::new();
    idx.put(meta("c/AAAA/bob/2.0/0.0", 2.0, 0.0), 2, b(10.0));
    idx.put(meta("c/AAAA/bob/1.0/0.0", 1.0, 0.0), 1, b(10.0));
    let del = idx.get_delete();
    assert_eq!(del.len(), 1);
    assert_eq!(del[0].1, 1);
    let (_, info) = idx.get(&meta("c/AAAA/bob/0/0", 0.0, 0.0)).unwrap();
    assert_eq!(info, 2);
}

#[test]
fn expired_put_goes_to_delete() {
    let mut idx: MemIndex<u32> = MemIndex::new();
    idx.put(meta("c/AAAA/bob/1.0/5.0", 1.0, 5.0), 1, b(10.0));
    assert_eq!(idx.get_delete().len(), 1);
    assert!(idx.get(&meta("c/AAAA/bob/0/0", 0.0, 0.0)).is_err());
}

#[test]
fn prune_removes_expired() {
    let mut idx: MemIndex<u32> = MemIndex::new();
    idx.put(meta("c/AAAA/a/1.0/5.0", 1.0, 5.0), 1, b(2.0));
    idx.put(meta("c/AAAA/b/2.0/0.0", 2.0, 0.0), 2, b(2.0));
    idx.put(meta("c/AAAA/c/3.0/50.0", 3.0, 50.0), 3, b(2.0));
    idx.prune(b(10.0));
    let del = idx.get_delete();
    assert_eq!(del.len(), 1);
    assert_eq!(del[0].1, 1);
    assert!(idx.get(&meta("c/AAAA/b/0/0", 0.0, 0.0)).is_ok());
    assert!(idx.get(&meta("c/AAAA/c/0/0", 0.0, 0.0)).is_ok());
}

#[test]
fn list_pages_by_creation_time() {
    let mut idx: MemIndex<u32> = MemIndex::new();
    idx.put(meta("c/AAAA/a/1.0/0.0", 1.0, 0.0), 1, b(0.0));
    idx.put(meta("c/AAAA/b/2.0/0.0", 2.0, 0.0), 2, b(0.0));
    idx.put(meta("c/AAAA/c/2.0/0.0", 2.0, 0.0), 3, b(0.0));
    idx.put(meta("c/BBBB/d/3.0/0.0", 3.0, 0.0), 4, b(0.0));
    idx.put(meta("c/AAAA/e/4.0/0.0", 4.0, 0.0), 5, b(0.0));
    let all = idx.list("c/AAAA/", secs::ZERO, 100);
    assert_eq!(all, vec!["c/AAAA/a/1.0/0.0", "c/AAAA/b/2.0/0.0", "c/AAAA/c/2.0/0.0", "c/AAAA/e/4.0/0.0"]);
    let page = idx.list("c/AAAA/", secs::ZERO, 2);
    assert_eq!(page.len(), 3);
    let next = idx.list("c/AAAA/", b(2.0), 2);
    assert_eq!(next, vec!["c/AAAA/e/4.0/0.0"]);
}

#[test]
fn meter_sums_bytes_per_context() {
    let mut idx: MemIndex<u32> = MemIndex::new();
    idx.put(meta("c/AAAA/a/1.0/0.0/10", 1.0, 0.0), 1, b(0.0));
    idx.put(meta("c/AAAA/b/2.0/0.0/5", 2.0, 0.0), 2, b(0.0));
    idx.put(meta("c/BBBB/c/3.0/0.0/7", 3.0, 0.0), 3, b(0.0));
    idx.put(meta("s/BBBB/c/3.0/0.0/100", 3.0, 0.0), 4, b(0.0));
    let m = idx.meter();
    assert_eq!(m, vec![("AAAA".to_string(), 15), ("BBBB".to_string(), 7)]);
}

#[test]
fn secs_order() {
    assert!(secs::less(b(-1.0), b(0.0)));
    assert!(secs::less(b(1.0), b(2.0)));
    assert!(!secs::less(b(2.0), b(1.0)));
    assert!(secs::equal(b(0.0), b(-0.0)));
    assert!(secs::less_eq(b(3.0), b(3.0)));
    assert!(secs::nan(f64::NAN.to_bits()));
    assert!(!secs::less(f64::NAN.to_bits(), b(1.0)));
    assert!(secs::zero(b(-0.0)));
    assert_eq!(secs::ONE, 1.0f64.to_bits());
    assert_eq!(secs::TEN, 10.0f64.to_bits());
    assert_eq!(secs::MAX, f64::MAX.to_bits());
    assert_eq!(secs::MIN, f64::MIN.to_bits());
}

#[test]
fn put_plan_places_files_by_hash() {
    let meta = ObjMeta::from_path("c/myctx/myapp/1.0/0.0", 1.0f64.to_bits(), 0);
    let p = obj_put_plan(&meta, b"hello").unwrap();
    assert_eq!(p.hash, "o_rXWkOwu8b9jy_OJtp9ZEznK_ME2n6Na1w0xblt-R8");
    assert_eq!(p.sys_prefix, "c");
    assert_eq!(p.ctx, "myctx");
    assert_eq!(p.dir1, "aoa");
    assert_eq!(p.dir2, "a_a");
    assert_eq!(p.meta_file, "meta-o_rXWkOwu8b9jy_OJtp9ZEznK_ME2n6Na1w0xblt-R8");
    assert_eq!(p.data_file, "data-o_rXWkOwu8b9jy_OJtp9ZEznK_ME2n6Na1w0xblt-R8");
    let empty = ObjMeta::from_path("c/myctx//1.0/0.0", 1.0f64.to_bits(), 0);
    assert_eq!(obj_put_plan(&empty, b"x").unwrap_err().to_string(), "appPath cannot be empty");
    let unsafe_ctx = ObjMeta::from_path("c/my ctx/app/1.0/0.0", 1.0f64.to_bits(), 0);
    assert_eq!(obj_put_plan(&unsafe_ctx, b"x").unwrap_err().kind(), ErrorKind::Other);
}
