//! Object metadata paths.
//!
//! An object path reads `<sys>/<ctx>/<app_path>/<created>/<expires>` and,
//! for stored context objects, `/<byte length>` after that. `<sys>` is one of
//! `s` (system setup), `x` (context setup), `d` (context config) or `c`
//! (context data).

use vstd::prelude::*;
use crate::text::{chars_of, concat, push_char, segment, segment_or_empty, split, parse_u64, parse_u64_spec};
use crate::ext::{b64_encode, base64url_encode, sha256, sha256_digest};
use crate::{is_safe_str, safe_str, Error, ErrorKind, Result};

verus! {

/// System path: "s" for system setup.
pub open spec fn sys_setup_text() -> Seq<char> { seq!['s'] }

/// System path: "x" for context setup.
pub open spec fn sys_ctx_setup_text() -> Seq<char> { seq!['x'] }

/// System path: "d" for context config.
pub open spec fn sys_ctx_config_text() -> Seq<char> { seq!['d'] }

/// System path: "c" for context data.
pub open spec fn sys_ctx_text() -> Seq<char> { seq!['c'] }

/// The system prefix of a path: its first piece when that is `s`, `x` or
/// `d`, and `c` otherwise.
pub open spec fn sys_prefix_of(path: Seq<char>) -> Seq<char> {
    let first = split(path, '/')[0];
    if first == sys_setup_text() {
        sys_setup_text()
    } else if first == sys_ctx_setup_text() {
        sys_ctx_setup_text()
    } else if first == sys_ctx_config_text() {
        sys_ctx_config_text()
    } else {
        sys_ctx_text()
    }
}

/// The context named by a path: its second piece, or empty.
pub open spec fn ctx_of(path: Seq<char>) -> Seq<char> {
    segment_or_empty(path, '/', 1)
}

/// The application path named by a path: its third piece, or empty.
pub open spec fn app_path_of(path: Seq<char>) -> Seq<char> {
    segment_or_empty(path, '/', 2)
}

/// The identity of an object regardless of its times:
/// `<sys>/<ctx>/<app_path>`.
pub open spec fn pfx_of(path: Seq<char>) -> Seq<char> {
    sys_prefix_of(path) + seq!['/'] + ctx_of(path) + seq!['/'] + app_path_of(path)
}

/// The byte length recorded in the sixth piece of a path, or zero.
pub open spec fn byte_length_of(path: Seq<char>) -> u64 {
    match parse_u64_spec(segment_or_empty(path, '/', 5)) {
        Some(n) => n,
        None => 0,
    }
}

/// Meta-data related to an object: its path, and the creation and expiry
/// times written in it (as double bit patterns, see [crate::secs]).
#[derive(Debug)]
pub struct ObjMeta {
    /// The full path.
    pub path: String,
    /// Creation time: the fourth piece of the path, parsed.
    pub created: u64,
    /// Expiry time (zero for never): the fifth piece of the path, parsed.
    pub expires: u64,
}

/// Abstract value of an [ObjMeta].
pub struct ObjMetaView {
    pub path: Seq<char>,
    pub created: u64,
    pub expires: u64,
}

impl View for ObjMeta {
    type V = ObjMetaView;

    open spec fn view(&self) -> ObjMetaView {
        ObjMetaView { path: self.path@, created: self.created, expires: self.expires }
    }
}

impl Clone for ObjMeta {
    fn clone(&self) -> (r: Self)
        ensures
            r@ == self@,
    {
        ObjMeta { path: self.path.clone(), created: self.created, expires: self.expires }
    }
}

impl ObjMeta {
    /// Meta-data from a path and the times written in it.
    pub fn from_path(path: &str, created: u64, expires: u64) -> (m: ObjMeta)
        ensures
            m@ == (ObjMetaView { path: path@, created, expires }),
    {
        ObjMeta { path: String::from_str(path), created, expires }
    }

    /// Builds `<sys_prefix>/<ctx>/<app_path>/<created_text>/<expires_text>`;
    /// `created` and `expires` are the values those texts denote.
    pub fn new(
        sys_prefix: &str,
        ctx: &str,
        app_path: &str,
        created_text: &str,
        expires_text: &str,
        created: u64,
        expires: u64,
    ) -> (m: ObjMeta)
        ensures
            m.path@ == sys_prefix@ + seq!['/'] + ctx@ + seq!['/'] + app_path@ + seq!['/']
                + created_text@ + seq!['/'] + expires_text@,
            m.created == created,
            m.expires == expires,
    {
        let a = concat(sys_prefix, "/");
        let b = concat(a.as_str(), ctx);
        let c = concat(b.as_str(), "/");
        let d = concat(c.as_str(), app_path);
        let e = concat(d.as_str(), "/");
        let f = concat(e.as_str(), created_text);
        let g = concat(f.as_str(), "/");
        let h = concat(g.as_str(), expires_text);
        proof {
            reveal_strlit("/");
            assert(h@ =~= sys_prefix@ + seq!['/'] + ctx@ + seq!['/'] + app_path@ + seq!['/']
                + created_text@ + seq!['/'] + expires_text@);
        }
        ObjMeta { path: h, created, expires }
    }

    /// A context data path `c/<ctx>/<app_path>/<created_text>/<expires_text>`.
    pub fn new_context(
        ctx: &str,
        app_path: &str,
        created_text: &str,
        expires_text: &str,
        created: u64,
        expires: u64,
    ) -> (m: ObjMeta)
        ensures
            m.path@ == sys_ctx_text() + seq!['/'] + ctx@ + seq!['/'] + app_path@ + seq!['/']
                + created_text@ + seq!['/'] + expires_text@,
            m.created == created,
            m.expires == expires,
    {
        proof {
            reveal_strlit("c");
            assert("c"@ =~= sys_ctx_text());
        }
        ObjMeta::new("c", ctx, app_path, created_text, expires_text, created, expires)
    }

    /// The system prefix of this path (`s`, `x`, `d`, or `c` for anything else).
    pub fn sys_prefix(&self) -> (r: &'static str)
        ensures
            r@ == sys_prefix_of(self.path@),
    {
        let first = segment(self.path.as_str(), '/', 0);
        proof {
            crate::text::lemma_split_nonempty(self.path@, '/');
            reveal_strlit("s");
            reveal_strlit("x");
            reveal_strlit("d");
            reveal_strlit("c");
            assert("s"@ =~= sys_setup_text());
            assert("x"@ =~= sys_ctx_setup_text());
            assert("d"@ =~= sys_ctx_config_text());
            assert("c"@ =~= sys_ctx_text());
        }
        if crate::text::str_eq(first.as_str(), "s") {
            "s"
        } else if crate::text::str_eq(first.as_str(), "x") {
            "x"
        } else if crate::text::str_eq(first.as_str(), "d") {
            "d"
        } else {
            "c"
        }
    }

    /// The context this path belongs to.
    pub fn ctx(&self) -> (r: String)
        ensures
            r@ == ctx_of(self.path@),
    {
        segment(self.path.as_str(), '/', 1)
    }

    /// The application path within the context.
    pub fn app_path(&self) -> (r: String)
        ensures
            r@ == app_path_of(self.path@),
    {
        segment(self.path.as_str(), '/', 2)
    }

    /// The creation time.
    pub fn created_secs(&self) -> (r: u64)
        ensures
            r == self.created,
    {
        self.created
    }

    /// The expiry time (zero for never).
    pub fn expires_secs(&self) -> (r: u64)
        ensures
            r == self.expires,
    {
        self.expires
    }

    /// The stored byte length recorded in the path, or zero.
    pub fn byte_length(&self) -> (r: u64)
        ensures
            r == byte_length_of(self.path@),
    {
        let s = segment(self.path.as_str(), '/', 5);
        match parse_u64(s.as_str()) {
            Some(n) => n,
            None => 0,
        }
    }
}

/// The identity part of a meta path: `<sys>/<ctx>/<app_path>`.
#[derive(Debug)]
pub struct Pfx(pub String);

impl Pfx {
    /// The identity part of a meta path.
    pub fn new(meta: &ObjMeta) -> (p: Pfx)
        ensures
            p.0@ == pfx_of(meta.path@),
    {
        let s = meta.sys_prefix();
        let c = meta.ctx();
        let a = meta.app_path();
        let t1 = concat(s, "/");
        let t2 = concat(t1.as_str(), c.as_str());
        let t3 = concat(t2.as_str(), "/");
        let t4 = concat(t3.as_str(), a.as_str());
        proof {
            reveal_strlit("/");
            assert(t4@ =~= pfx_of(meta.path@));
        }
        Pfx(t4)
    }
}

/// Where a stored object's files go: under `<sys_prefix>/<ctx>/<dir1>/<dir2>`
/// below the store's root, as `<meta_file>` (the meta path) and
/// `<data_file>` (the data), named by a hash of both.
#[derive(Debug)]
pub struct ObjPutPlan {
    /// The system prefix of the meta path.
    pub sys_prefix: String,
    /// The context of the meta path.
    pub ctx: String,
    /// The base64url text of the SHA-256 hash of the meta path and data.
    pub hash: String,
    /// `a<first hash character>a`.
    pub dir1: String,
    /// `a<second hash character>a`.
    pub dir2: String,
    /// `meta-<hash>`.
    pub meta_file: String,
    /// `data-<hash>`.
    pub data_file: String,
}

/// The meta path's system prefix, context and application path are safe
/// strings, and the application path is not empty.
pub open spec fn put_path_ok(path: Seq<char>) -> bool {
    &&& is_safe_str(sys_prefix_of(path))
    &&& is_safe_str(ctx_of(path))
    &&& is_safe_str(app_path_of(path))
    &&& app_path_of(path).len() > 0
}

/// The text of `a`, a character, and `a`.
fn wrapped_char(c: char) -> (r: String)
    ensures
        r@ == seq!['a', c, 'a'],
{
    let mut r = String::new();
    push_char(&mut r, 'a');
    push_char(&mut r, c);
    push_char(&mut r, 'a');
    proof {
        assert(r@ =~= seq!['a', c, 'a']);
    }
    r
}

/// Decides where an object is stored: refuses a meta path whose system
/// prefix, context or application path holds an unsafe character, or whose
/// application path is empty (`Other`); otherwise names the files by the
/// base64url text of the SHA-256 hash of the meta path's bytes followed by
/// the data.
pub fn obj_put_plan(meta: &ObjMeta, data: &[u8]) -> (r: Result<ObjPutPlan>)
    ensures
        r is Err <==> !put_path_ok(meta.path@),
        r matches Err(e) ==> e.kind == ErrorKind::Other,
        r matches Ok(p) ==> {
            &&& p.sys_prefix@ == sys_prefix_of(meta.path@)
            &&& p.ctx@ == ctx_of(meta.path@)
            &&& p.hash@ == base64url_encode(sha256(vstd::utf8::encode_utf8(meta.path@) + data@))
            &&& p.hash@.len() >= 2
            &&& p.dir1@ == seq!['a', p.hash@[0], 'a']
            &&& p.dir2@ == seq!['a', p.hash@[1], 'a']
            &&& p.meta_file@ == seq!['m', 'e', 't', 'a', '-'] + p.hash@
            &&& p.data_file@ == seq!['d', 'a', 't', 'a', '-'] + p.hash@
        },
{
    let sys_prefix = meta.sys_prefix();
    match safe_str(sys_prefix) {
        Ok(()) => {},
        Err(e) => {
            return Err(e);
        },
    }
    let ctx = meta.ctx();
    match safe_str(ctx.as_str()) {
        Ok(()) => {},
        Err(e) => {
            return Err(e);
        },
    }
    let app_path = meta.app_path();
    match safe_str(app_path.as_str()) {
        Ok(()) => {},
        Err(e) => {
            return Err(e);
        },
    }
    if chars_of(app_path.as_str()).len() == 0 {
        return Err(Error::other("appPath cannot be empty"));
    }
    let mut input: Vec<u8> = crate::hash::copy_bytes(meta.path.as_str().as_bytes());
    let mut tail: Vec<u8> = crate::hash::copy_bytes(data);
    input.append(&mut tail);
    let digest = sha256_digest(input.as_slice());
    let hash = b64_encode(digest.as_slice());
    let cs = chars_of(hash.as_str());
    let dir1 = wrapped_char(cs[0]);
    let dir2 = wrapped_char(cs[1]);
    proof {
        reveal_strlit("meta-");
        reveal_strlit("data-");
    }
    let meta_file = concat("meta-", hash.as_str());
    let data_file = concat("data-", hash.as_str());
    Ok(ObjPutPlan { sys_prefix: String::from_str(sys_prefix), ctx, hash, dir1, dir2, meta_file, data_file })
}

/// Law (paths read back): a path built from a system prefix, a context,
/// an application path and two time texts, none holding `/`, reads back
/// each of its pieces, and its identity is `<sys>/<ctx>/<app_path>`.
pub proof fn law_path_pieces_read_back(
    sys: Seq<char>,
    ctx: Seq<char>,
    app: Seq<char>,
    created: Seq<char>,
    expires: Seq<char>,
)
    requires
        sys == sys_setup_text() || sys == sys_ctx_setup_text() || sys == sys_ctx_config_text()
            || sys == sys_ctx_text(),
        !ctx.contains('/'),
        !app.contains('/'),
        !created.contains('/'),
        !expires.contains('/'),
    ensures
        ({
            let path = sys + seq!['/'] + ctx + seq!['/'] + app + seq!['/'] + created + seq!['/'] + expires;
            &&& sys_prefix_of(path) == sys
            &&& ctx_of(path) == ctx
            &&& app_path_of(path) == app
            &&& segment_or_empty(path, '/', 3) == created
            &&& segment_or_empty(path, '/', 4) == expires
            &&& pfx_of(path) == sys + seq!['/'] + ctx + seq!['/'] + app
        }),
{
    assert(!sys.contains('/')) by {
        if sys.contains('/') {
            let i = choose|i: int| 0 <= i < sys.len() && sys[i] == '/';
        }
    }
    crate::text::lemma_split_single(sys, '/');
    let p1 = sys + seq!['/'] + ctx;
    crate::text::lemma_split_append(sys, ctx, '/');
    let p2 = p1 + seq!['/'] + app;
    crate::text::lemma_split_append(p1, app, '/');
    let p3 = p2 + seq!['/'] + created;
    crate::text::lemma_split_append(p2, created, '/');
    let p4 = p3 + seq!['/'] + expires;
    crate::text::lemma_split_append(p3, expires, '/');
    assert(crate::text::split(p4, '/') =~= seq![sys, ctx, app, created, expires]);
}

} // verus!
