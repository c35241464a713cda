//! Server decisions: who may do what, and how the context table changes.
//!
//! The asynchronous server that stores setups and runs contexts asks these
//! functions before it acts and applies their results afterwards.

use vstd::prelude::*;
use crate::error::{Error, ErrorKind, Result};
use crate::obj::{ObjMeta, ObjMetaView, ctx_of, app_path_of};
use crate::text::{concat, contains_str, segment, segment_or_empty, str_eq, u64_to_text, decimal};
use crate::{safe_str, is_safe_str};

verus! {

/// A copy of a list of strings.
pub fn clone_strings(v: &Vec<String>) -> (r: Vec<String>)
    ensures
        r.deep_view() == v.deep_view(),
{
    let mut r: Vec<String> = Vec::new();
    let mut i: usize = 0;
    while i < v.len()
        invariant
            i <= v@.len(),
            r.deep_view() == v.deep_view().take(i as int),
        decreases v@.len() - i,
    {
        let c = v[i].clone();
        let ghost before = r.deep_view();
        r.push(c);
        proof {
            assert(c@ == v@[i as int]@);
            assert(v.deep_view()[i as int] == v@[i as int]@);
            assert(r.deep_view() =~= before.push(c@));
            assert(r.deep_view() =~= v.deep_view().take(i + 1));
        }
        i = i + 1;
    }
    proof {
        assert(v.deep_view().take(v@.len() as int) =~= v.deep_view());
    }
    r
}

/// True for an empty string (such fields are left out when encoding).
pub fn p_no(s: &str) -> (r: bool)
    ensures
        r == (s@.len() == 0),
{
    s.is_empty()
}

/// The default function timeout: 10 seconds (as a double bit pattern).
pub fn timeout_secs() -> (r: u64)
    ensures
        r == crate::secs::TEN,
{
    crate::secs::TEN
}

/// The default function heap limit: 32 MiB.
pub fn max_heap_bytes() -> (r: usize)
    ensures
        r == 1024 * 1024 * 32,
{
    1024 * 1024 * 32
}

/// True for `false` (such fields are left out when encoding).
pub fn is_false(b: &bool) -> (r: bool)
    ensures
        r == !*b,
{
    !*b
}

/// Every token is made of safe characters.
pub open spec fn tokens_safe(tokens: Seq<Seq<char>>) -> bool {
    forall|i: int| 0 <= i < tokens.len() ==> is_safe_str(#[trigger] tokens[i])
}

/// Checks that every token only uses safe characters.
pub fn check_tokens(tokens: &Vec<String>) -> (r: Result<()>)
    ensures
        r is Ok <==> tokens_safe(tokens.deep_view()),
{
    let mut i: usize = 0;
    while i < tokens.len()
        invariant
            i <= tokens@.len(),
            forall|j: int| 0 <= j < i ==> is_safe_str(#[trigger] tokens.deep_view()[j]),
        decreases tokens@.len() - i,
    {
        let r = safe_str(tokens[i].as_str());
        proof {
            assert(tokens.deep_view()[i as int] == tokens@[i as int]@);
        }
        if r.is_err() {
            return r;
        }
        i = i + 1;
    }
    Ok(())
}

/// System setup information.
#[derive(Debug)]
pub struct SysSetup {
    /// System admin tokens.
    pub sys_admin: Vec<String>,
}

impl SysSetup {
    /// The system admin tokens.
    pub open spec fn admins(&self) -> Seq<Seq<char>> {
        self.sys_admin.deep_view()
    }
}

impl Default for SysSetup {
    fn default() -> (r: Self)
        ensures
            r.admins() == Seq::<Seq<char>>::empty(),
    {
        let r = SysSetup { sys_admin: Vec::new() };
        proof {
            assert(r.admins() =~= Seq::<Seq<char>>::empty());
        }
        r
    }
}

impl Clone for SysSetup {
    fn clone(&self) -> (r: Self)
        ensures
            r.admins() == self.admins(),
    {
        SysSetup { sys_admin: clone_strings(&self.sys_admin) }
    }
}

/// Abstract value of a [CtxSetup].
pub struct CtxSetupView {
    pub ctx: Seq<char>,
    pub delete: bool,
    pub ctx_admin: Seq<Seq<char>>,
    pub timeout_secs: u64,
    pub max_heap_bytes: usize,
}

/// Context setup information.
#[derive(Debug)]
pub struct CtxSetup {
    /// The context identifier.
    pub ctx: String,
    /// If true, other properties are ignored and the context is deleted.
    pub delete: bool,
    /// Context admin tokens.
    pub ctx_admin: Vec<String>,
    /// Timeout for function invocations (a double bit pattern, seconds).
    pub timeout_secs: u64,
    /// Max memory allowed for function invocations.
    pub max_heap_bytes: usize,
}

impl View for CtxSetup {
    type V = CtxSetupView;

    open spec fn view(&self) -> CtxSetupView {
        CtxSetupView {
            ctx: self.ctx@,
            delete: self.delete,
            ctx_admin: self.ctx_admin.deep_view(),
            timeout_secs: self.timeout_secs,
            max_heap_bytes: self.max_heap_bytes,
        }
    }
}

/// The setup of a context that has none yet.
pub open spec fn default_setup() -> CtxSetupView {
    CtxSetupView {
        ctx: Seq::empty(),
        delete: false,
        ctx_admin: Seq::empty(),
        timeout_secs: crate::secs::TEN,
        max_heap_bytes: 33554432usize,
    }
}

impl Default for CtxSetup {
    fn default() -> (r: Self)
        ensures
            r@ == default_setup(),
    {
        let r = CtxSetup {
            ctx: String::new(),
            delete: false,
            ctx_admin: Vec::new(),
            timeout_secs: timeout_secs(),
            max_heap_bytes: max_heap_bytes(),
        };
        proof {
            assert(r.ctx_admin.deep_view() =~= Seq::<Seq<char>>::empty());
        }
        r
    }
}

impl Clone for CtxSetup {
    fn clone(&self) -> (r: Self)
        ensures
            r@ == self@,
    {
        CtxSetup {
            ctx: self.ctx.clone(),
            delete: self.delete,
            ctx_admin: clone_strings(&self.ctx_admin),
            timeout_secs: self.timeout_secs,
            max_heap_bytes: self.max_heap_bytes,
        }
    }
}

impl CtxSetup {
    /// Checks that the context name and the admin tokens are safe strings.
    pub fn check(&self) -> (r: Result<()>)
        ensures
            r is Ok <==> is_safe_str(self.ctx@) && tokens_safe(self.ctx_admin.deep_view()),
    {
        let r = safe_str(self.ctx.as_str());
        if r.is_err() {
            return r;
        }
        check_tokens(&self.ctx_admin)
    }
}

/// Abstract value of a [CtxConfig].
pub struct CtxConfigView {
    pub ctx: Seq<char>,
    pub ctx_admin: Seq<Seq<char>>,
    pub code: Seq<char>,
    pub code_env: Seq<char>,
}

/// Context config information.
#[derive(Debug)]
pub struct CtxConfig {
    /// The context identifier.
    pub ctx: String,
    /// Context admin tokens.
    pub ctx_admin: Vec<String>,
    /// Javascript code for the context.
    pub code: String,
    /// Environment metadata for the code, as JSON text (`null` for none).
    pub code_env: String,
}

impl View for CtxConfig {
    type V = CtxConfigView;

    open spec fn view(&self) -> CtxConfigView {
        CtxConfigView {
            ctx: self.ctx@,
            ctx_admin: self.ctx_admin.deep_view(),
            code: self.code@,
            code_env: self.code_env@,
        }
    }
}

/// The config of a context that has none yet.
pub open spec fn default_config() -> CtxConfigView {
    CtxConfigView { ctx: Seq::empty(), ctx_admin: Seq::empty(), code: Seq::empty(), code_env: "null"@ }
}

impl Default for CtxConfig {
    fn default() -> (r: Self)
        ensures
            r@ == default_config(),
    {
        let r = CtxConfig {
            ctx: String::new(),
            ctx_admin: Vec::new(),
            code: String::new(),
            code_env: String::from_str("null"),
        };
        proof {
            assert(r.ctx_admin.deep_view() =~= Seq::<Seq<char>>::empty());
        }
        r
    }
}

impl Clone for CtxConfig {
    fn clone(&self) -> (r: Self)
        ensures
            r@ == self@,
    {
        CtxConfig {
            ctx: self.ctx.clone(),
            ctx_admin: clone_strings(&self.ctx_admin),
            code: self.code.clone(),
            code_env: self.code_env.clone(),
        }
    }
}

impl CtxConfig {
    /// Checks that the context name and the admin tokens are safe strings.
    pub fn check(&self) -> (r: Result<()>)
        ensures
            r is Ok <==> is_safe_str(self.ctx@) && tokens_safe(self.ctx_admin.deep_view()),
    {
        let r = safe_str(self.ctx.as_str());
        if r.is_err() {
            return r;
        }
        check_tokens(&self.ctx_admin)
    }
}

/// A context's record: (name, setup, config).
pub type RecordView = (Seq<char>, CtxSetupView, CtxConfigView);

/// The table holds at most one record per context.
pub open spec fn table_unique(t: Seq<RecordView>) -> bool {
    forall|i: int, j: int| 0 <= i < t.len() && 0 <= j < t.len() && i != j ==> #[trigger] t[i].0 != #[trigger] t[j].0
}

/// The table has a record for `ctx`.
pub open spec fn has_ctx(t: Seq<RecordView>, ctx: Seq<char>) -> bool {
    exists|i: int| 0 <= i < t.len() && #[trigger] t[i].0 == ctx
}

/// The position of the record of `ctx` (meaningful if [has_ctx]).
pub open spec fn ctx_index(t: Seq<RecordView>, ctx: Seq<char>) -> int {
    choose|i: int| 0 <= i < t.len() && #[trigger] t[i].0 == ctx
}

/// The setup and config recorded for `ctx`.
pub open spec fn lookup(t: Seq<RecordView>, ctx: Seq<char>) -> Option<(CtxSetupView, CtxConfigView)> {
    if has_ctx(t, ctx) {
        Some((t[ctx_index(t, ctx)].1, t[ctx_index(t, ctx)].2))
    } else {
        None
    }
}

/// The table after storing `s` as the setup of its context; a context
/// without a record gets one with the default config.
pub open spec fn with_setup(t: Seq<RecordView>, s: CtxSetupView) -> Seq<RecordView> {
    if has_ctx(t, s.ctx) {
        let i = ctx_index(t, s.ctx);
        t.update(i, (s.ctx, s, t[i].2))
    } else {
        t.push((s.ctx, s, default_config()))
    }
}

/// The table without the record of `ctx`, if it has one.
pub open spec fn without_ctx(t: Seq<RecordView>, ctx: Seq<char>) -> Seq<RecordView> {
    if has_ctx(t, ctx) {
        t.remove(ctx_index(t, ctx))
    } else {
        t
    }
}

/// The table after a setup request: a setup that asks for deletion removes
/// its context's record, any other is stored as the context's setup.
pub open spec fn after_setup(t: Seq<RecordView>, s: CtxSetupView) -> Seq<RecordView> {
    if s.delete {
        without_ctx(t, s.ctx)
    } else {
        with_setup(t, s)
    }
}

/// The table after storing `c` as the config of its context; a context
/// without a record gets one with the default setup.
pub open spec fn with_config(t: Seq<RecordView>, c: CtxConfigView) -> Seq<RecordView> {
    if has_ctx(t, c.ctx) {
        let i = ctx_index(t, c.ctx);
        t.update(i, (c.ctx, t[i].1, c))
    } else {
        t.push((c.ctx, default_setup(), c))
    }
}

/// `token` may administer the context recorded as `(setup, config)`: it is
/// a system admin token or one of the context's admin tokens.
pub open spec fn may_admin(sys: Seq<Seq<char>>, setup: CtxSetupView, config: CtxConfigView, token: Seq<char>) -> bool {
    sys.contains(token) || setup.ctx_admin.contains(token) || config.ctx_admin.contains(token)
}

/// One context's record.
#[derive(Debug)]
pub struct CtxRecord {
    /// The context name.
    pub ctx: String,
    /// Its setup.
    pub setup: CtxSetup,
    /// Its config.
    pub config: CtxConfig,
}

/// The server's table of system admins and context records.
#[derive(Debug)]
pub struct ServerState {
    sys_setup: SysSetup,
    records: Vec<CtxRecord>,
}

/// The text of a list of strings holding `s`.
pub open spec fn listed(list: Seq<Seq<char>>, s: Seq<char>) -> bool {
    list.contains(s)
}

fn contains_token(list: &Vec<String>, s: &str) -> (r: bool)
    ensures
        r == list.deep_view().contains(s@),
{
    let r = contains_str(list, s);
    proof {
        if r {
            let i = choose|i: int| 0 <= i < list@.len() && #[trigger] list@[i]@ == s@;
            assert(list.deep_view()[i] == list@[i]@);
        } else {
            if list.deep_view().contains(s@) {
                let i = choose|i: int| 0 <= i < list.deep_view().len() && list.deep_view()[i] == s@;
                assert(list.deep_view()[i] == list@[i]@);
            }
        }
    }
    r
}

impl ServerState {
    /// The context records.
    pub closed spec fn table(&self) -> Seq<RecordView> {
        self.records@.map_values(|r: CtxRecord| (r.ctx@, r.setup@, r.config@))
    }

    /// The system admin tokens.
    pub closed spec fn sys_admins(&self) -> Seq<Seq<char>> {
        self.sys_setup.admins()
    }

    /// One record per context, filed under the context its setup or config
    /// names (or under which it was created).
    pub closed spec fn wf(&self) -> bool {
        table_unique(self.table())
    }

    /// A server with the given system setup and no contexts.
    pub fn new(sys_setup: SysSetup) -> (s: ServerState)
        ensures
            s.wf(),
            s.sys_admins() == sys_setup.admins(),
            s.table() == Seq::<RecordView>::empty(),
    {
        let s = ServerState { sys_setup, records: Vec::new() };
        proof {
            assert(s.table() =~= Seq::<RecordView>::empty());
        }
        s
    }

    /// A copy of the system setup.
    pub fn get_sys_setup(&self) -> (r: SysSetup)
        ensures
            r.admins() == self.sys_admins(),
    {
        self.sys_setup.clone()
    }

    fn position(&self, ctx: &str) -> (r: Option<usize>)
        requires
            self.wf(),
        ensures
            r is Some <==> has_ctx(self.table(), ctx@),
            r matches Some(i) ==> i == ctx_index(self.table(), ctx@) && i < self.table().len(),
    {
        let mut i: usize = 0;
        while i < self.records.len()
            invariant
                self.wf(),
                i <= self.records@.len(),
                forall|j: int| 0 <= j < i ==> #[trigger] self.table()[j].0 != ctx@,
            decreases self.records@.len() - i,
        {
            if str_eq(self.records[i].ctx.as_str(), ctx) {
                proof {
                    assert(self.table()[i as int].0 == ctx@);
                    let k = ctx_index(self.table(), ctx@);
                    assert(self.table()[k].0 == ctx@);
                }
                return Some(i);
            }
            i = i + 1;
        }
        None
    }

    /// The setup and config of a context; `NotFound` when it has no record.
    pub fn get_ctx_setup(&self, ctx: &str) -> (r: Result<(CtxSetup, CtxConfig)>)
        requires
            self.wf(),
        ensures
            match lookup(self.table(), ctx@) {
                Some(v) => r matches Ok(x) && x.0@ == v.0 && x.1@ == v.1,
                None => r matches Err(e) && e.kind == ErrorKind::NotFound,
            },
    {
        match self.position(ctx) {
            Some(i) => Ok((self.records[i].setup.clone(), self.records[i].config.clone())),
            None => {
                let msg = concat("no context: ", ctx);
                Err(Error::not_found(msg.as_str()))
            },
        }
    }

    /// Requires a system admin token; `PermissionDenied` otherwise.
    pub fn check_sysadmin(&self, token: &str) -> (r: Result<()>)
        ensures
            r is Ok <==> self.sys_admins().contains(token@),
            r matches Err(e) ==> e.kind == ErrorKind::PermissionDenied,
    {
        if !contains_token(&self.sys_setup.sys_admin, token) {
            return Err(Error::unauthorized("action requires sysadmin permissions"));
        }
        Ok(())
    }

    /// Requires a token that may administer `ctx`; gives the context's setup
    /// and config. `NotFound` for an unknown context, `PermissionDenied` for
    /// a token that is neither a system admin nor one of its admins.
    pub fn check_ctxadmin(&self, token: &str, ctx: &str) -> (r: Result<(CtxSetup, CtxConfig)>)
        requires
            self.wf(),
        ensures
            match lookup(self.table(), ctx@) {
                None => r matches Err(e) && e.kind == ErrorKind::NotFound,
                Some(v) => if may_admin(self.sys_admins(), v.0, v.1, token@) {
                    r matches Ok(x) && x.0@ == v.0 && x.1@ == v.1
                } else {
                    r matches Err(e) && e.kind == ErrorKind::PermissionDenied
                },
            },
    {
        let (setup, config) = match self.get_ctx_setup(ctx) {
            Ok(x) => x,
            Err(e) => return Err(e),
        };
        if !contains_token(&self.sys_setup.sys_admin, token) {
            if !contains_token(&setup.ctx_admin, token) && !contains_token(&config.ctx_admin, token) {
                return Err(Error::unauthorized("action requires ctxadmin permissions"));
            }
        }
        Ok((setup, config))
    }

    /// Replaces the system admin tokens, if all of them are safe strings;
    /// otherwise changes nothing.
    pub fn set_sys_admin(&mut self, sys_admin: Vec<String>) -> (r: Result<()>)
        requires
            old(self).wf(),
        ensures
            final(self).wf(),
            r is Ok <==> tokens_safe(sys_admin.deep_view()),
            r is Ok ==> final(self).sys_admins() == sys_admin.deep_view(),
            r is Err ==> final(self).sys_admins() == old(self).sys_admins(),
            final(self).table() == old(self).table(),
    {
        let c = check_tokens(&sys_admin);
        if c.is_err() {
            return c;
        }
        self.sys_setup = SysSetup { sys_admin };
        Ok(())
    }

    /// Decides a context setup request: the token must be a system admin
    /// token and the setup's names safe strings.
    pub fn authorize_ctx_setup(&self, token: &str, setup: &CtxSetup) -> (r: Result<()>)
        ensures
            r is Ok <==> self.sys_admins().contains(token@) && is_safe_str(setup.ctx@)
                && tokens_safe(setup.ctx_admin.deep_view()),
    {
        let a = self.check_sysadmin(token);
        if a.is_err() {
            return a;
        }
        setup.check()
    }

    /// Decides a context config request: the token must administer the
    /// context and the config's names must be safe strings.
    pub fn authorize_ctx_config(&self, token: &str, config: &CtxConfig) -> (r: Result<()>)
        requires
            self.wf(),
        ensures
            r is Ok <==> (lookup(self.table(), config.ctx@) matches Some(v)
                && may_admin(self.sys_admins(), v.0, v.1, token@))
                && is_safe_str(config.ctx@) && tokens_safe(config.ctx_admin.deep_view()),
    {
        match self.check_ctxadmin(token, config.ctx.as_str()) {
            Err(e) => return Err(e),
            Ok(_) => {},
        }
        config.check()
    }

    /// Applies a setup request. A setup that asks for deletion removes the
    /// context's record (its other properties are ignored) and gives
    /// nothing; any other is recorded for its context, and the context's
    /// full record is given.
    pub fn apply_ctx_setup(&mut self, setup: CtxSetup) -> (r: Option<CtxRecord>)
        requires
            old(self).wf(),
        ensures
            final(self).wf(),
            final(self).table() == after_setup(old(self).table(), setup@),
            final(self).sys_admins() == old(self).sys_admins(),
            setup@.delete ==> r is None && lookup(final(self).table(), setup@.ctx) is None,
            !setup@.delete ==> (r matches Some(rec) && rec.ctx@ == setup@.ctx
                && lookup(final(self).table(), setup@.ctx) == Some((rec.setup@, rec.config@))),
    {
        let ghost t = self.table();
        let ghost sv = setup@;
        if setup.delete {
            match self.position(setup.ctx.as_str()) {
                Some(i) => {
                    let _gone = self.records.remove(i);
                    proof {
                        assert(self.table() =~= t.remove(i as int));
                        lemma_unique_remove(t, i as int);
                    }
                },
                None => {},
            }
            return None;
        }
        match self.position(setup.ctx.as_str()) {
            Some(i) => {
                let ctx = setup.ctx.clone();
                let config = self.records[i].config.clone();
                let out = CtxRecord { ctx: setup.ctx.clone(), setup: setup.clone(), config: config.clone() };
                self.records.set(i, CtxRecord { ctx, setup, config });
                proof {
                    assert(self.table() =~= t.update(i as int, (sv.ctx, sv, t[i as int].2)));
                    lemma_unique_update(t, i as int, sv.ctx);
                    lemma_lookup_at(self.table(), i as int);
                }
                Some(out)
            },
            None => {
                let config = CtxConfig::default();
                let out = CtxRecord { ctx: setup.ctx.clone(), setup: setup.clone(), config: config.clone() };
                self.records.push(CtxRecord { ctx: setup.ctx.clone(), setup, config });
                proof {
                    assert(self.table() =~= t.push((sv.ctx, sv, default_config())));
                    lemma_unique_push(t, sv.ctx);
                    lemma_lookup_at(self.table(), t.len() as int);
                }
                Some(out)
            },
        }
    }

    /// Records `config` for its context; gives the context's full record.
    pub fn apply_ctx_config(&mut self, config: CtxConfig) -> (r: CtxRecord)
        requires
            old(self).wf(),
        ensures
            final(self).wf(),
            final(self).table() == with_config(old(self).table(), config@),
            final(self).sys_admins() == old(self).sys_admins(),
            lookup(final(self).table(), config@.ctx) == Some((r.setup@, r.config@)),
            r.ctx@ == config@.ctx,
    {
        let ghost t = self.table();
        let ghost cv = config@;
        match self.position(config.ctx.as_str()) {
            Some(i) => {
                let ctx = config.ctx.clone();
                let setup = self.records[i].setup.clone();
                let out = CtxRecord { ctx: config.ctx.clone(), setup: setup.clone(), config: config.clone() };
                self.records.set(i, CtxRecord { ctx, setup, config });
                proof {
                    assert(self.table() =~= t.update(i as int, (cv.ctx, t[i as int].1, cv)));
                    lemma_unique_update(t, i as int, cv.ctx);
                    lemma_lookup_at(self.table(), i as int);
                }
                out
            },
            None => {
                let setup = CtxSetup::default();
                let out = CtxRecord { ctx: config.ctx.clone(), setup: setup.clone(), config: config.clone() };
                self.records.push(CtxRecord { ctx: config.ctx.clone(), setup, config });
                proof {
                    assert(self.table() =~= t.push((cv.ctx, default_setup(), cv)));
                    lemma_unique_push(t, cv.ctx);
                    lemma_lookup_at(self.table(), t.len() as int);
                }
                out
            },
        }
    }
}

proof fn lemma_unique_update(t: Seq<RecordView>, i: int, ctx: Seq<char>)
    requires
        table_unique(t),
        0 <= i < t.len(),
        t[i].0 == ctx,
    ensures
        forall|r: RecordView| r.0 == ctx ==> table_unique(#[trigger] t.update(i, r)),
{
    assert forall|r: RecordView| r.0 == ctx implies table_unique(#[trigger] t.update(i, r)) by {
        let u = t.update(i, r);
        assert forall|a: int, b: int| 0 <= a < u.len() && 0 <= b < u.len() && a != b implies #[trigger] u[a].0 != #[trigger] u[b].0 by {
            assert(u[a].0 == t[a].0 && u[b].0 == t[b].0);
        }
    }
}

/// Removing a record keeps one record per context, and the removed
/// context has none left.
proof fn lemma_unique_remove(t: Seq<RecordView>, i: int)
    requires
        table_unique(t),
        0 <= i < t.len(),
    ensures
        table_unique(t.remove(i)),
        !has_ctx(t.remove(i), t[i].0),
{
    let u = t.remove(i);
    assert forall|a: int, b: int| 0 <= a < u.len() && 0 <= b < u.len() && a != b implies #[trigger] u[a].0 != #[trigger] u[b].0 by {
        let a2 = if a < i { a } else { a + 1 };
        let b2 = if b < i { b } else { b + 1 };
        assert(u[a] == t[a2] && u[b] == t[b2]);
    }
    if has_ctx(u, t[i].0) {
        let k = choose|k: int| 0 <= k < u.len() && #[trigger] u[k].0 == t[i].0;
        let k2 = if k < i { k } else { k + 1 };
        assert(u[k] == t[k2]);
    }
}

proof fn lemma_unique_push(t: Seq<RecordView>, ctx: Seq<char>)
    requires
        table_unique(t),
        !has_ctx(t, ctx),
    ensures
        forall|r: RecordView| r.0 == ctx ==> table_unique(#[trigger] t.push(r)),
{
    assert forall|r: RecordView| r.0 == ctx implies table_unique(#[trigger] t.push(r)) by {
        let u = t.push(r);
        assert forall|a: int, b: int| 0 <= a < u.len() && 0 <= b < u.len() && a != b implies #[trigger] u[a].0 != #[trigger] u[b].0 by {
            if a < t.len() && b < t.len() {
                assert(u[a] == t[a] && u[b] == t[b]);
            } else if a < t.len() {
                assert(u[a] == t[a]);
            } else {
                assert(u[b] == t[b]);
            }
        }
    }
}

/// In a table with one record per context, the record at `i` is the one
/// looked up under its name.
pub proof fn lemma_lookup_at(t: Seq<RecordView>, i: int)
    requires
        table_unique(t),
        0 <= i < t.len(),
    ensures
        lookup(t, t[i].0) == Some((t[i].1, t[i].2)),
{
    assert(has_ctx(t, t[i].0));
    let k = ctx_index(t, t[i].0);
    assert(t[k].0 == t[i].0);
}

proof fn lemma_lookup_other(t: Seq<RecordView>, u: Seq<RecordView>, ctx: Seq<char>, other: Seq<char>)
    requires
        table_unique(t),
        other != ctx,
        (has_ctx(t, ctx) && u == t.update(ctx_index(t, ctx), (ctx, u[ctx_index(t, ctx)].1, u[ctx_index(t, ctx)].2)))
            || (!has_ctx(t, ctx) && u.len() == t.len() + 1 && u.drop_last() == t && u.last().0 == ctx),
    ensures
        lookup(u, other) == lookup(t, other),
{
    if has_ctx(t, ctx) {
        let i = ctx_index(t, ctx);
        assert(t[i].0 == ctx);
        if has_ctx(t, other) {
            let k = ctx_index(t, other);
            assert(t[k].0 == other);
            assert(u[k] == t[k]);
            assert(has_ctx(u, other));
            let m = ctx_index(u, other);
            assert(u[m].0 == other);
            assert(u[m] == t[m]);
        } else if has_ctx(u, other) {
            let m = ctx_index(u, other);
            assert(u[m].0 == other);
            assert(u[m] == t[m]);
        }
    } else {
        if has_ctx(t, other) {
            let k = ctx_index(t, other);
            assert(t[k].0 == other);
            assert(u[k] == u.drop_last()[k]);
            assert(has_ctx(u, other));
            let m = ctx_index(u, other);
            assert(u[m].0 == other);
            assert(m < t.len());
            assert(u[m] == u.drop_last()[m]);
        } else if has_ctx(u, other) {
            let m = ctx_index(u, other);
            assert(u[m].0 == other);
            assert(m < t.len());
            assert(u[m] == u.drop_last()[m]);
        }
    }
}

/// Removing the record of `ctx` leaves the record of every other context.
proof fn lemma_lookup_removed(t: Seq<RecordView>, ctx: Seq<char>, other: Seq<char>)
    requires
        table_unique(t),
        other != ctx,
    ensures
        lookup(without_ctx(t, ctx), other) == lookup(t, other),
{
    if has_ctx(t, ctx) {
        let i = ctx_index(t, ctx);
        let u = t.remove(i);
        lemma_unique_remove(t, i);
        if has_ctx(t, other) {
            let k = ctx_index(t, other);
            assert(k != i);
            let k2 = if k < i { k } else { k - 1 };
            assert(u[k2] == t[k]);
            assert(has_ctx(u, other));
            lemma_lookup_at(u, k2);
            lemma_lookup_at(t, k);
        } else if has_ctx(u, other) {
            let m = ctx_index(u, other);
            let m2 = if m < i { m } else { m + 1 };
            assert(u[m] == t[m2]);
        }
    }
}

/// Law (setup): after a context setup is recorded, its context holds that
/// setup, keeps its config (or gets the default one), and every token the
/// setup names may administer it.
pub proof fn law_setup_recorded(sys: Seq<Seq<char>>, t: Seq<RecordView>, s: CtxSetupView, token: Seq<char>)
    requires
        table_unique(t),
        !s.delete,
    ensures
        lookup(after_setup(t, s), s.ctx) matches Some(v) && v.0 == s && v.1 == match lookup(t, s.ctx) {
            Some(old) => old.1,
            None => default_config(),
        },
        s.ctx_admin.contains(token) ==> (lookup(after_setup(t, s), s.ctx) matches Some(v) && may_admin(sys, v.0, v.1, token)),
{
    let u = with_setup(t, s);
    if has_ctx(t, s.ctx) {
        let i = ctx_index(t, s.ctx);
        assert(t[i].0 == s.ctx);
        lemma_unique_update(t, i, s.ctx);
        lemma_lookup_at(u, i);
    } else {
        lemma_unique_push(t, s.ctx);
        lemma_lookup_at(u, t.len() as int);
    }
}

/// Law (delete): after a setup that asks for deletion, its context has no
/// record, so no token administers it and nothing is recorded for it.
pub proof fn law_delete_removes(t: Seq<RecordView>, s: CtxSetupView)
    requires
        table_unique(t),
        s.delete,
    ensures
        lookup(after_setup(t, s), s.ctx) is None,
        table_unique(after_setup(t, s)),
{
    if has_ctx(t, s.ctx) {
        let i = ctx_index(t, s.ctx);
        lemma_unique_remove(t, i);
    }
}

/// Law (who administers a context): a token may administer a context
/// exactly when it is a system admin token or is listed among the admin
/// tokens of the context's setup or of its config.
pub proof fn law_admins_are_listed(sys: Seq<Seq<char>>, setup: CtxSetupView, config: CtxConfigView, token: Seq<char>)
    ensures
        may_admin(sys, setup, config, token) <==> (sys.contains(token) || setup.ctx_admin.contains(token)
            || config.ctx_admin.contains(token)),
{
}

/// Law (config admins): after a config is recorded for a context, every
/// admin token the config lists may administer that context, whatever its
/// setup.
pub proof fn law_config_admins_admit(sys: Seq<Seq<char>>, t: Seq<RecordView>, c: CtxConfigView, token: Seq<char>)
    requires
        table_unique(t),
        c.ctx_admin.contains(token),
    ensures
        lookup(with_config(t, c), c.ctx) matches Some(v) && v.1 == c && may_admin(sys, v.0, v.1, token),
{
    law_config_recorded(t, c);
}

/// Law (config): after a context config is recorded, its context holds that
/// config and keeps its setup (or gets the default one).
pub proof fn law_config_recorded(t: Seq<RecordView>, c: CtxConfigView)
    requires
        table_unique(t),
    ensures
        lookup(with_config(t, c), c.ctx) matches Some(v) && v.1 == c && v.0 == match lookup(t, c.ctx) {
            Some(old) => old.0,
            None => default_setup(),
        },
{
    let u = with_config(t, c);
    if has_ctx(t, c.ctx) {
        let i = ctx_index(t, c.ctx);
        assert(t[i].0 == c.ctx);
        lemma_unique_update(t, i, c.ctx);
        lemma_lookup_at(u, i);
    } else {
        lemma_unique_push(t, c.ctx);
        lemma_lookup_at(u, t.len() as int);
    }
}

/// Law (isolation): recording a setup or a config for one context, or
/// deleting it, leaves every other context's record as it was.
pub proof fn law_other_contexts_unchanged(t: Seq<RecordView>, s: CtxSetupView, c: CtxConfigView, other: Seq<char>)
    requires
        table_unique(t),
    ensures
        other != s.ctx ==> lookup(after_setup(t, s), other) == lookup(t, other),
        other != c.ctx ==> lookup(with_config(t, c), other) == lookup(t, other),
{
    if other != s.ctx && s.delete {
        lemma_lookup_removed(t, s.ctx, other);
    }
    if other != s.ctx && !s.delete {
        let u = with_setup(t, s);
        if has_ctx(t, s.ctx) {
            let i = ctx_index(t, s.ctx);
            assert(u[i] == (s.ctx, s, t[i].2));
            assert(u == t.update(i, (s.ctx, u[i].1, u[i].2)));
        } else {
            assert(u.drop_last() =~= t);
        }
        lemma_lookup_other(t, u, s.ctx, other);
    }
    if other != c.ctx {
        let u = with_config(t, c);
        if has_ctx(t, c.ctx) {
            let i = ctx_index(t, c.ctx);
            assert(u[i] == (c.ctx, t[i].1, c));
            assert(u == t.update(i, (c.ctx, u[i].1, u[i].2)));
        } else {
            assert(u.drop_last() =~= t);
        }
        lemma_lookup_other(t, u, c.ctx, other);
    }
}

/// The object store prefix listed for `ctx`: `c/<ctx>/<prefix>`.
pub fn obj_list_prefix(ctx: &str, prefix: &str) -> (r: String)
    ensures
        r@ == seq!['c', '/'] + ctx@ + seq!['/'] + prefix@,
{
    let a = concat("c/", ctx);
    let b = concat(a.as_str(), "/");
    let c = concat(b.as_str(), prefix);
    proof {
        reveal_strlit("c/");
        reveal_strlit("/");
        assert(c@ =~= seq!['c', '/'] + ctx@ + seq!['/'] + prefix@);
    }
    c
}

/// The meta-data that looks up `app_path` in `ctx` regardless of times:
/// `c/<ctx>/<app_path>/0/0`.
pub fn obj_get_meta(ctx: &str, app_path: &str) -> (m: ObjMeta)
    ensures
        m.path@ == seq!['c', '/'] + ctx@ + seq!['/'] + app_path@ + seq!['/', '0', '/', '0'],
        m.created == crate::secs::ZERO,
        m.expires == crate::secs::ZERO,
{
    let m = ObjMeta::new_context(ctx, app_path, "0", "0", crate::secs::ZERO, crate::secs::ZERO);
    proof {
        reveal_strlit("0");
        assert(m.path@ =~= seq!['c', '/'] + ctx@ + seq!['/'] + app_path@ + seq!['/', '0', '/', '0']);
    }
    m
}

/// The path under which a put object is stored:
/// `c/<ctx>/<app_path>/<created>/<expires>/<byte length>`. A creation time
/// below one second is replaced by `now` (given as text and as a value);
/// otherwise the creation text of the request is kept. `expires_text` is
/// the expiry value written out again.
pub open spec fn put_path(meta: ObjMetaView, now_text: Seq<char>, expires_text: Seq<char>, len: nat) -> Seq<char> {
    let created_text = if crate::secs::lt(meta.created, crate::secs::ONE) {
        now_text
    } else {
        segment_or_empty(meta.path, '/', 3)
    };
    seq!['c', '/'] + ctx_of(meta.path) + seq!['/'] + app_path_of(meta.path) + seq!['/'] + created_text
        + seq!['/'] + expires_text + seq!['/'] + decimal(len)
}

/// The meta-data under which a put object is stored (see [put_path]).
pub fn obj_put_meta(meta: &ObjMeta, now_text: &str, now: u64, expires_text: &str, data_len: usize) -> (m: ObjMeta)
    ensures
        m.path@ == put_path(meta@, now_text@, expires_text@, data_len as nat),
        m.created == if crate::secs::lt(meta.created, crate::secs::ONE) { now } else { meta.created },
        m.expires == meta.expires,
{
    let early = crate::secs::less(meta.created, crate::secs::ONE);
    let created_text = if early {
        String::from_str(now_text)
    } else {
        segment(meta.path.as_str(), '/', 3)
    };
    let created = if early { now } else { meta.created };
    let ctx = meta.ctx();
    let app = meta.app_path();
    let base = ObjMeta::new_context(ctx.as_str(), app.as_str(), created_text.as_str(), expires_text, created, meta.expires);
    let t1 = concat(base.path.as_str(), "/");
    let t2 = concat(t1.as_str(), u64_to_text(data_len as u64).as_str());
    proof {
        reveal_strlit("/");
        assert(t2@ =~= put_path(meta@, now_text@, expires_text@, data_len as nat));
    }
    ObjMeta { path: t2, created, expires: meta.expires }
}

} // verus!
