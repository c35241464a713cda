//! The command line of the `vm` utility: which command the arguments ask
//! for, with its options, their defaults from the environment and from
//! fixed values, and the options each command requires.
//!
//! Numbers that stand for seconds stay text here, to be read as doubles by
//! the caller.

use vstd::prelude::*;
use crate::error::{Error, ErrorKind, Result};
use crate::ext::{entries_view, keys_distinct, minimist_parse};
use crate::text::{concat, parse_u64, parse_u64_spec, split, split_str, str_eq};

verus! {

/// Options: each key with its values.
pub type OptsView = Seq<(Seq<char>, Seq<Seq<char>>)>;

/// `i` is the position of the key `k`.
pub open spec fn key_pos(o: OptsView, k: Seq<char>, i: int) -> bool {
    &&& 0 <= i < o.len()
    &&& o[i].0 == k
    &&& forall|j: int| 0 <= j < i ==> (#[trigger] o[j]).0 != k
}

/// The values of a key, if it was given.
pub open spec fn values(o: OptsView, k: Seq<char>) -> Option<Seq<Seq<char>>> {
    if exists|i: int| key_pos(o, k, i) {
        Some(o[choose|i: int| key_pos(o, k, i)].1)
    } else {
        None
    }
}

/// The options with the key present (with no value if it was absent).
pub open spec fn ensured(o: OptsView, k: Seq<char>) -> OptsView {
    if values(o, k) is Some {
        o
    } else {
        o.push((k, Seq::empty()))
    }
}

/// The options with the values of the present key `k` replaced.
pub open spec fn set_values(o: OptsView, k: Seq<char>, vs: Seq<Seq<char>>) -> OptsView {
    o.update(choose|i: int| key_pos(o, k, i), (k, vs))
}

/// `Minimist::set_default`: the key gets `v` if it has no value.
pub open spec fn with_default(o: OptsView, k: Seq<char>, v: Seq<char>) -> OptsView {
    let e = ensured(o, k);
    if values(e, k)->0.len() == 0 {
        set_values(e, k, seq![v])
    } else {
        e
    }
}

/// Law (defaults never override): a key given a value keeps its first
/// value when a fixed default or an environment default is applied.
pub proof fn law_default_keeps_given(o: OptsView, k: Seq<char>, v: Seq<char>, d: Seq<char>, e: Option<Seq<char>>)
    requires
        one(o, k) == Some(v),
    ensures
        one(with_default(o, k, d), k) == Some(v),
        one(with_env_default(o, k, e), k) == Some(v),
{
}

/// Law (defaults fill in): a key with no value takes the fixed default,
/// or the environment default when the variable is set, and other keys
/// keep their values.
pub proof fn law_default_fills_missing(o: OptsView, k: Seq<char>, d: Seq<char>, x: Seq<char>, other: Seq<char>)
    requires
        one(o, k) is None,
    ensures
        one(with_default(o, k, d), k) == Some(d),
        one(with_env_default(o, k, Some(x)), k) == Some(x),
        one(with_env_default(o, k, None), k) is None,
        other != k ==> one(with_default(o, k, d), other) == one(o, other),
{
    lemma_set_default_value(o, k, d, other);
    lemma_set_default_value(o, k, x, other);
}

proof fn lemma_set_default_value(o: OptsView, k: Seq<char>, d: Seq<char>, other: Seq<char>)
    requires
        one(o, k) is None,
    ensures
        values(with_default(o, k, d), k) == Some(seq![d]),
        other != k ==> values(with_default(o, k, d), other) == values(o, other),
{
    let e = ensured(o, k);
    if values(o, k) is None {
        lemma_first_key(e, k, o.len() as int);
        let j = choose|j: int| key_pos(e, k, j);
        if j < o.len() {
            assert(e[j] == o[j]);
            lemma_first_key(o, k, j);
        }
        assert(j == o.len());
        if other != k {
            if exists|m: int| key_pos(o, other, m) {
                let m = choose|m: int| key_pos(o, other, m);
                assert(key_pos(e, other, m));
                let m2 = choose|m2: int| key_pos(e, other, m2);
                if m2 < m {
                    assert(e[m2] == o[m2]);
                } else if m2 > m {
                    assert(e[m].0 == other);
                }
            }
            if exists|m2: int| key_pos(e, other, m2) {
                let m2 = choose|m2: int| key_pos(e, other, m2);
                assert(m2 < o.len());
                assert(e[m2] == o[m2]);
                assert(key_pos(o, other, m2)) by {
                    assert forall|j: int| 0 <= j < m2 implies (#[trigger] o[j]).0 != other by {
                        assert(e[j] == o[j]);
                    }
                }
            }
        }
    }
    assert(values(e, k) is Some);
    let i = choose|i: int| key_pos(e, k, i);
    assert(values(e, k)->0.len() == 0);
    let u = set_values(e, k, seq![d]);
    assert(key_pos(u, k, i)) by {
        assert forall|j: int| 0 <= j < i implies (#[trigger] u[j]).0 != k by {
            assert(u[j] == e[j]);
        }
    }
    let i2 = choose|i2: int| key_pos(u, k, i2);
    if i2 < i {
        assert(u[i2] == e[i2]);
    } else if i2 > i {
        assert(u[i].0 == k);
    }
    if other != k {
        if exists|m: int| key_pos(e, other, m) {
            let m = choose|m: int| key_pos(e, other, m);
            assert(m != i);
            assert(key_pos(u, other, m)) by {
                assert forall|j: int| 0 <= j < m implies (#[trigger] u[j]).0 != other by {
                    if j != i {
                        assert(u[j] == e[j]);
                    }
                }
            }
            let m2 = choose|m2: int| key_pos(u, other, m2);
            if m2 < m {
                if m2 != i {
                    assert(u[m2] == e[m2]);
                }
            } else if m2 > m {
                assert(u[m].0 == other);
            }
        }
        if exists|m2: int| key_pos(u, other, m2) {
            let m2 = choose|m2: int| key_pos(u, other, m2);
            assert(m2 != i);
            assert(u[m2] == e[m2]);
            assert(key_pos(e, other, m2)) by {
                assert forall|j: int| 0 <= j < m2 implies (#[trigger] e[j]).0 != other by {
                    if j != i {
                        assert(u[j] == e[j]);
                    }
                }
            }
        }
    }
}

/// `Minimist::set_default_env`: the default from an environment variable,
/// if it is set.
pub open spec fn with_env_default(o: OptsView, k: Seq<char>, e: Option<Seq<char>>) -> OptsView {
    match e {
        Some(v) => with_default(o, k, v),
        None => o,
    }
}

/// The values of an environment variable, split at commas, added to a key.
pub open spec fn with_split_env(o: OptsView, k: Seq<char>, e: Option<Seq<char>>) -> OptsView {
    match e {
        Some(v) => {
            let x = ensured(o, k);
            set_values(x, k, values(x, k)->0 + split(v, ','))
        },
        None => o,
    }
}

/// `Minimist::to_one_str`: the first value of a key.
pub open spec fn one(o: OptsView, k: Seq<char>) -> Option<Seq<char>> {
    match values(o, k) {
        Some(vs) => if vs.len() > 0 {
            Some(vs[0])
        } else {
            None
        },
        None => None,
    }
}

/// The values of a key, or none if it was not given.
pub open spec fn list_or_empty(o: OptsView, k: Seq<char>) -> Seq<Seq<char>> {
    match values(o, k) {
        Some(vs) => vs,
        None => Seq::empty(),
    }
}

/// `Minimist::as_flag`: the key was given.
pub open spec fn flag(o: OptsView, k: Seq<char>) -> bool {
    values(o, k) is Some
}

/// The environment, as names with values.
pub type EnvView = Seq<(Seq<char>, Seq<char>)>;

/// The value of an environment variable (the first with that name).
pub open spec fn env_get(env: EnvView, name: Seq<char>) -> Option<Seq<char>> {
    if exists|i: int| 0 <= i < env.len() && (#[trigger] env[i]).0 == name {
        Some(env[choose|i: int| 0 <= i < env.len() && (#[trigger] env[i]).0 == name && forall|j: int|
            0 <= j < i ==> (#[trigger] env[j]).0 != name].1)
    } else {
        None
    }
}

/// The process environment.
pub struct Env {
    /// Names with values.
    pub vars: Vec<(String, String)>,
}

impl Env {
    /// The view of the environment.
    pub open spec fn view(&self) -> EnvView {
        self.vars@.map_values(|e: (String, String)| (e.0@, e.1@))
    }

    /// The value of a variable, if it is set.
    pub fn get(&self, name: &str) -> (r: Option<String>)
        ensures
            match env_get(self.view(), name@) {
                Some(v) => r matches Some(x) && x@ == v,
                None => r is None,
            },
    {
        let mut i: usize = 0;
        while i < self.vars.len()
            invariant
                i <= self.vars@.len(),
                forall|j: int| 0 <= j < i ==> (#[trigger] self.view()[j]).0 != name@,
            decreases self.vars@.len() - i,
        {
            if str_eq(self.vars[i].0.as_str(), name) {
                proof {
                    let e = self.view();
                    assert(e[i as int].0 == name@);
                    let c = choose|c: int| 0 <= c < e.len() && (#[trigger] e[c]).0 == name@ && forall|j: int|
                        0 <= j < c ==> (#[trigger] e[j]).0 != name@;
                    assert(0 <= i < e.len() && e[i as int].0 == name@ && forall|j: int|
                        0 <= j < i ==> (#[trigger] e[j]).0 != name@);
                    if c < i {
                        assert(e[c].0 != name@);
                    } else if c > i {
                        assert(e[i as int].0 != name@);
                    }
                }
                return Some(self.vars[i].1.clone());
            }
            i = i + 1;
        }
        None
    }
}

/// Parsed command-line options.
pub struct Options {
    entries: Vec<(String, Vec<String>)>,
}

impl Options {
    /// The keys with their values.
    pub closed spec fn view(&self) -> OptsView {
        entries_view(self.entries@)
    }

    /// No key occurs twice.
    pub closed spec fn wf(&self) -> bool {
        keys_distinct(self.view())
    }

    /// The options an argument list gives (`Minimist::parse`).
    pub fn parse(args: &Vec<String>) -> (r: Self)
        ensures
            r.wf(),
            r@ == crate::ext::minimist_entries(args.deep_view()),
    {
        Options { entries: minimist_parse(args) }
    }

    fn pos(&self, k: &str) -> (r: Option<usize>)
        requires
            self.wf(),
        ensures
            r is None <==> values(self@, k@) is None,
            r matches Some(i) ==> key_pos(self@, k@, i as int) && (choose|j: int| key_pos(self@, k@, j))
                == i,
    {
        let mut i: usize = 0;
        while i < self.entries.len()
            invariant
                i <= self.entries@.len(),
                forall|j: int| 0 <= j < i ==> (#[trigger] self@[j]).0 != k@,
            decreases self.entries@.len() - i,
        {
            if str_eq(self.entries[i].0.as_str(), k) {
                proof {
                    assert(key_pos(self@, k@, i as int));
                    let c = choose|j: int| key_pos(self@, k@, j);
                    if c < i {
                        assert(self@[c].0 != k@);
                    } else if c > i {
                        assert(self@[i as int].0 != k@);
                    }
                }
                return Some(i);
            }
            i = i + 1;
        }
        proof {
            assert forall|j: int| !key_pos(self@, k@, j) by {
                if key_pos(self@, k@, j) {
                    assert(self@[j].0 != k@);
                }
            }
        }
        None
    }

    /// Replaces the values at a position.
    fn set_at(&mut self, i: usize, vs: Vec<String>)
        requires
            i < old(self)@.len(),
            old(self).wf(),
        ensures
            final(self).wf(),
            final(self)@ == old(self)@.update(i as int, (old(self)@[i as int].0, vs.deep_view())),
    {
        let (key, _) = self.entries.remove(i);
        self.entries.insert(i, (key, vs));
        proof {
            assert(self@ =~= old(self)@.update(i as int, (old(self)@[i as int].0, vs.deep_view())));
        }
    }

    /// Makes the key present (with no value if it was absent).
    pub fn ensure(&mut self, k: &str)
        requires
            old(self).wf(),
        ensures
            final(self).wf(),
            final(self)@ == ensured(old(self)@, k@),
    {
        if self.pos(k).is_none() {
            let ghost before = self@;
            let empty: Vec<String> = Vec::new();
            proof {
                assert(empty.deep_view() =~= Seq::<Seq<char>>::empty());
            }
            self.entries.push((String::from_str(k), empty));
            proof {
                assert(self@ =~= before.push((k@, Seq::empty())));
                assert forall|i: int, j: int| 0 <= i < j < self@.len() implies (#[trigger] self@[i]).0
                    != (#[trigger] self@[j]).0 by {
                    if j == before.len() {
                        if before[i].0 == k@ {
                            assert(key_pos(before, k@, i) || exists|m: int| key_pos(before, k@, m)) by {
                                lemma_first_key(before, k@, i);
                            }
                        }
                    }
                }
            }
        }
    }

    /// The key is present after [Options::ensure].
    proof fn lemma_ensured(o: OptsView, k: Seq<char>)
        ensures
            values(ensured(o, k), k) is Some,
    {
        if values(o, k) is None {
            lemma_first_key(o.push((k, Seq::empty())), k, o.len() as int);
        }
    }

    /// The values of a key, if it was given.
    pub fn list(&self, k: &str) -> (r: Option<Vec<String>>)
        requires
            self.wf(),
        ensures
            match values(self@, k@) {
                Some(vs) => r matches Some(x) && x.deep_view() == vs,
                None => r is None,
            },
    {
        match self.pos(k) {
            Some(i) => Some(crate::server::clone_strings(&self.entries[i].1)),
            None => None,
        }
    }

    /// The first value of a key.
    pub fn one(&self, k: &str) -> (r: Option<String>)
        requires
            self.wf(),
        ensures
            match one(self@, k@) {
                Some(v) => r matches Some(x) && x@ == v,
                None => r is None,
            },
    {
        match self.pos(k) {
            Some(i) => if self.entries[i].1.len() > 0 {
                proof {
                    assert(self.entries@[i as int].1.deep_view()[0] == self.entries@[i as int].1@[0]@);
                }
                Some(self.entries[i].1[0].clone())
            } else {
                None
            },
            None => None,
        }
    }

    /// True if the key was given.
    pub fn flag(&self, k: &str) -> (r: bool)
        requires
            self.wf(),
        ensures
            r == flag(self@, k@),
    {
        self.pos(k).is_some()
    }

    /// Gives the key the value `v` if it has no value.
    pub fn set_default(&mut self, k: &str, v: &str)
        requires
            old(self).wf(),
        ensures
            final(self).wf(),
            final(self)@ == with_default(old(self)@, k@, v@),
    {
        self.ensure(k);
        proof {
            Self::lemma_ensured(old(self)@, k@);
        }
        let i = match self.pos(k) {
            Some(i) => i,
            None => {
                return;
            },
        };
        if self.entries[i].1.len() == 0 {
            let mut vs: Vec<String> = Vec::new();
            vs.push(String::from_str(v));
            proof {
                assert(vs.deep_view() =~= seq![v@]);
            }
            self.set_at(i, vs);
        }
    }

    /// Gives the key the value of an environment variable, if it is set
    /// and the key has no value.
    pub fn set_default_env(&mut self, k: &str, env: &Env, name: &str)
        requires
            old(self).wf(),
        ensures
            final(self).wf(),
            final(self)@ == with_env_default(old(self)@, k@, env_get(env.view(), name@)),
    {
        match env.get(name) {
            Some(v) => self.set_default(k, v.as_str()),
            None => {},
        }
    }

    /// Adds the comma-separated pieces of an environment variable, if it is
    /// set, to the values of a key.
    pub fn split_env(&mut self, k: &str, env: &Env, name: &str)
        requires
            old(self).wf(),
        ensures
            final(self).wf(),
            final(self)@ == with_split_env(old(self)@, k@, env_get(env.view(), name@)),
    {
        match env.get(name) {
            Some(v) => {
                self.ensure(k);
                proof {
                    Self::lemma_ensured(old(self)@, k@);
                }
                let i = match self.pos(k) {
                    Some(i) => i,
                    None => {
                        return;
                    },
                };
                let mut vs = crate::server::clone_strings(&self.entries[i].1);
                let mut pieces = split_str(v.as_str(), ',');
                let ghost a = vs.deep_view();
                let ghost b = pieces.deep_view();
                vs.append(&mut pieces);
                proof {
                    assert(vs.deep_view() =~= a + b);
                }
                self.set_at(i, vs);
            },
            None => {},
        }
    }
}

proof fn lemma_first_key(o: OptsView, k: Seq<char>, i: int)
    requires
        0 <= i < o.len(),
        o[i].0 == k,
    ensures
        exists|m: int| key_pos(o, k, m),
    decreases i,
{
    if exists|j: int| 0 <= j < i && (#[trigger] o[j]).0 == k {
        let j = choose|j: int| 0 <= j < i && (#[trigger] o[j]).0 == k;
        lemma_first_key(o, k, j);
    } else {
        assert(key_pos(o, k, i));
    }
}

/// The command that the `vm` arguments ask for.
#[derive(Debug)]
pub enum Arg {
    /// Print the help text.
    Help,
    /// Run the server.
    Serve {
        /// System admin tokens.
        sys_admin: Vec<String>,
        /// Address to bind.
        http_addr: String,
        /// Directory of the object store, if any.
        store: Option<String>,
    },
    /// Run a test server.
    Test {
        /// Address to bind.
        http_addr: String,
        /// File of the javascript code.
        code_file: String,
    },
    /// Check a server's health.
    Health {
        /// The server url.
        url: String,
    },
    /// Set up a context.
    CtxSetup {
        /// The server url.
        url: String,
        /// The system admin token.
        token: String,
        /// The context.
        context: String,
        /// Delete the context.
        delete: bool,
        /// Context admin tokens.
        ctx_admin: Vec<String>,
        /// Function timeout in seconds, as text.
        timeout_secs: String,
        /// Function memory limit.
        max_heap_bytes: usize,
    },
    /// Configure a context.
    CtxConfig {
        /// The server url.
        url: String,
        /// The context admin token.
        token: String,
        /// The context.
        context: String,
        /// Context admin tokens.
        ctx_admin: Vec<String>,
        /// File of the javascript code.
        code_file: String,
    },
    /// List objects.
    ObjList {
        /// The server url.
        url: String,
        /// The context admin token.
        token: String,
        /// The context.
        context: String,
        /// Application path prefix.
        prefix: String,
        /// Only objects created after this time, as text.
        created_gt: String,
        /// At most this many objects.
        limit: u32,
    },
    /// Get an object.
    ObjGet {
        /// The server url.
        url: String,
        /// The context admin token.
        token: String,
        /// The context.
        context: String,
        /// The application path.
        app_path: String,
    },
    /// Put an object.
    ObjPut {
        /// The server url.
        url: String,
        /// The context admin token.
        token: String,
        /// The context.
        context: String,
        /// The application path.
        app_path: String,
        /// Creation time, as text.
        create: String,
        /// Expiry time, as text.
        expire: String,
    },
}

/// The command named by the arguments: the first positional argument
/// (`help` when there is none), or `help` when `-h` or `--help` is given.
pub open spec fn command_of(o: OptsView) -> Seq<char> {
    if flag(o, "h"@) || flag(o, "help"@) {
        "help"@
    } else {
        match one(o, "-"@) {
            Some(c) => c,
            None => "help"@,
        }
    }
}

/// The options of `serve` after defaults.
pub open spec fn serve_opts(o: OptsView, env: EnvView) -> OptsView {
    let a = ensured(with_split_env(o, "sys-admin"@, env_get(env, "VM_SYS_ADMIN_TOKENS"@)), "sys-admin"@);
    let b = with_default(with_env_default(a, "http-addr"@, env_get(env, "VM_HTTP_ADDR"@)), "http-addr"@, "[::]:8080"@);
    with_env_default(b, "store"@, env_get(env, "VM_STORE"@))
}

/// The options of `test` after defaults.
pub open spec fn test_opts(o: OptsView, env: EnvView) -> OptsView {
    let a = with_default(with_env_default(o, "http-addr"@, env_get(env, "VM_HTTP_ADDR"@)), "http-addr"@, "[::]:8080"@);
    with_env_default(a, "code-file"@, env_get(env, "VM_CODE"@))
}

/// `url`, `token` and `context` with their environment defaults.
pub open spec fn ctx_base_opts(o: OptsView, env: EnvView) -> OptsView {
    let a = with_env_default(o, "url"@, env_get(env, "VM_URL"@));
    let b = with_env_default(a, "token"@, env_get(env, "VM_TOKEN"@));
    with_env_default(b, "context"@, env_get(env, "VM_CTX"@))
}

/// Context admin tokens from the environment, and the key made present.
pub open spec fn ctx_admin_opts(o: OptsView, env: EnvView) -> OptsView {
    ensured(with_split_env(o, "ctx-admin"@, env_get(env, "VM_CTX_ADMIN_TOKENS"@)), "ctx-admin"@)
}

/// The options of `ctx-setup` after defaults.
pub open spec fn ctx_setup_opts(o: OptsView, env: EnvView) -> OptsView {
    let a = with_env_default(ctx_base_opts(o, env), "delete"@, env_get(env, "VM_DELETE"@));
    let b = ctx_admin_opts(a, env);
    let c = with_default(with_env_default(b, "timeout-secs"@, env_get(env, "VM_TIMEOUT_SECS"@)), "timeout-secs"@, "10.0"@);
    with_default(with_env_default(c, "max-heap-bytes"@, env_get(env, "VM_MAX_HEAP_BYTES"@)), "max-heap-bytes"@, "33554432"@)
}

/// The options of `ctx-config` after defaults.
pub open spec fn ctx_config_opts(o: OptsView, env: EnvView) -> OptsView {
    let a = ctx_admin_opts(ctx_base_opts(o, env), env);
    with_env_default(a, "code-file"@, env_get(env, "VM_CODE"@))
}

/// The options of `obj-list` after defaults.
pub open spec fn obj_list_opts(o: OptsView, env: EnvView) -> OptsView {
    let a = with_default(with_env_default(ctx_base_opts(o, env), "prefix"@, env_get(env, "VM_PREFIX"@)), "prefix"@, ""@);
    let b = with_default(with_env_default(a, "created-gt"@, env_get(env, "VM_CREATED_GT"@)), "created-gt"@, "0.0"@);
    with_default(with_env_default(b, "limit"@, env_get(env, "VM_LIMIT"@)), "limit"@, "4294967295"@)
}

/// The options of `obj-get` after defaults.
pub open spec fn obj_get_opts(o: OptsView, env: EnvView) -> OptsView {
    with_default(with_env_default(ctx_base_opts(o, env), "app-path"@, env_get(env, "VM_APP_PATH"@)), "app-path"@, ""@)
}

/// The options of `obj-put` after defaults; the creation time defaults to
/// `now`.
pub open spec fn obj_put_opts(o: OptsView, env: EnvView, now: Seq<char>) -> OptsView {
    let a = obj_get_opts(o, env);
    let b = with_default(with_env_default(a, "create"@, env_get(env, "VM_CREATE"@)), "create"@, now);
    with_default(with_env_default(b, "expire"@, env_get(env, "VM_EXPIRE"@)), "expire"@, "0.0"@)
}

/// The first missing key: `prev` if one was found already, else `k` if
/// it has no value.
pub open spec fn then_missing(p: OptsView, prev: Option<Seq<char>>, k: Seq<char>) -> Option<Seq<char>> {
    if prev is Some {
        prev
    } else if one(p, k) is None {
        Some(k)
    } else {
        None
    }
}

/// The refusal of a missing required option.
pub open spec fn missing_error(r: Result<Arg>, k: Seq<char>) -> bool {
    r matches Err(e) && e.kind == ErrorKind::InvalidInput && (e.message matches Some(m) && m@
        == "Argument Error: --"@ + k + " is required"@)
}

/// The text of an optional string.
pub open spec fn opt_text(s: Option<String>) -> Option<Seq<char>> {
    match s {
        Some(x) => Some(x@),
        None => None,
    }
}

/// The outcome of `serve` on its options.
pub open spec fn serve_result(p: OptsView, r: Result<Arg>) -> bool {
    match then_missing(p, None, "http-addr"@) {
        Some(k) => missing_error(r, k),
        None => r matches Ok(Arg::Serve { sys_admin, http_addr, store }) && sys_admin.deep_view()
            == list_or_empty(p, "sys-admin"@) && http_addr@ == one(p, "http-addr"@)->0 && opt_text(store)
            == one(p, "store"@),
    }
}

/// The outcome of `test` on its options.
pub open spec fn test_result(p: OptsView, r: Result<Arg>) -> bool {
    match then_missing(p, then_missing(p, None, "http-addr"@), "code-file"@) {
        Some(k) => missing_error(r, k),
        None => r matches Ok(Arg::Test { http_addr, code_file }) && http_addr@ == one(p, "http-addr"@)->0
            && code_file@ == one(p, "code-file"@)->0,
    }
}

/// The outcome of `health` on its options.
pub open spec fn health_result(p: OptsView, r: Result<Arg>) -> bool {
    match then_missing(p, None, "url"@) {
        Some(k) => missing_error(r, k),
        None => r matches Ok(Arg::Health { url }) && url@ == one(p, "url"@)->0,
    }
}

/// The outcome of `ctx-setup` on its options.
pub open spec fn ctx_setup_result(p: OptsView, r: Result<Arg>) -> bool {
    match then_missing(p, then_missing(p, then_missing(p, then_missing(p, then_missing(p, None, "url"@), "token"@), "context"@), "timeout-secs"@), "max-heap-bytes"@) {
        Some(k) => missing_error(r, k),
        None => match parse_u64_spec(one(p, "max-heap-bytes"@)->0) {
            Some(n) if n <= usize::MAX => r matches Ok(
                Arg::CtxSetup { url, token, context, delete, ctx_admin, timeout_secs, max_heap_bytes },
            ) && url@ == one(p, "url"@)->0 && token@ == one(p, "token"@)->0 && context@ == one(p, "context"@)->0
                && delete == flag(p, "delete"@) && ctx_admin.deep_view() == list_or_empty(p, "ctx-admin"@)
                && timeout_secs@ == one(p, "timeout-secs"@)->0 && max_heap_bytes == n,
            _ => r matches Err(e) && e.kind == ErrorKind::Other,
        },
    }
}

/// The outcome of `ctx-config` on its options.
pub open spec fn ctx_config_result(p: OptsView, r: Result<Arg>) -> bool {
    match then_missing(p, then_missing(p, then_missing(p, then_missing(p, None, "url"@), "token"@), "context"@), "code-file"@) {
        Some(k) => missing_error(r, k),
        None => r matches Ok(Arg::CtxConfig { url, token, context, ctx_admin, code_file }) && url@ == one(
            p,
            "url"@,
        )->0 && token@ == one(p, "token"@)->0 && context@ == one(p, "context"@)->0
            && ctx_admin.deep_view() == list_or_empty(p, "ctx-admin"@) && code_file@ == one(p, "code-file"@)->0,
    }
}

/// The outcome of `obj-list` on its options.
pub open spec fn obj_list_result(p: OptsView, r: Result<Arg>) -> bool {
    match then_missing(p, then_missing(p, then_missing(p, then_missing(p, then_missing(p, then_missing(p, None, "url"@), "token"@), "context"@), "prefix"@), "created-gt"@), "limit"@) {
        Some(k) => missing_error(r, k),
        None => match parse_u64_spec(one(p, "limit"@)->0) {
            Some(n) if n <= u32::MAX => r matches Ok(Arg::ObjList { url, token, context, prefix, created_gt, limit })
                && url@ == one(p, "url"@)->0 && token@ == one(p, "token"@)->0 && context@ == one(p, "context"@)->0
                && prefix@ == one(p, "prefix"@)->0 && created_gt@ == one(p, "created-gt"@)->0 && limit == n,
            _ => r matches Err(e) && e.kind == ErrorKind::Other,
        },
    }
}

/// The outcome of `obj-get` on its options.
pub open spec fn obj_get_result(p: OptsView, r: Result<Arg>) -> bool {
    match then_missing(p, then_missing(p, then_missing(p, then_missing(p, None, "url"@), "token"@), "context"@), "app-path"@) {
        Some(k) => missing_error(r, k),
        None => r matches Ok(Arg::ObjGet { url, token, context, app_path }) && url@ == one(p, "url"@)->0
            && token@ == one(p, "token"@)->0 && context@ == one(p, "context"@)->0 && app_path@ == one(
            p,
            "app-path"@,
        )->0,
    }
}

/// The outcome of `obj-put` on its options.
pub open spec fn obj_put_result(p: OptsView, r: Result<Arg>) -> bool {
    match then_missing(p, then_missing(p, then_missing(p, then_missing(p, then_missing(p, then_missing(p, None, "url"@), "token"@), "context"@), "app-path"@), "create"@), "expire"@) {
        Some(k) => missing_error(r, k),
        None => r matches Ok(Arg::ObjPut { url, token, context, app_path, create, expire }) && url@ == one(
            p,
            "url"@,
        )->0 && token@ == one(p, "token"@)->0 && context@ == one(p, "context"@)->0 && app_path@ == one(
            p,
            "app-path"@,
        )->0 && create@ == one(p, "create"@)->0 && expire@ == one(p, "expire"@)->0,
    }
}

/// What `vm` arguments give: the command with its options, after the
/// defaults of that command; a missing required option is refused
/// (`InvalidInput`), and so are an unreadable number and an unknown
/// command (`Other`).
pub open spec fn arg_result(o: OptsView, env: EnvView, now: Seq<char>, r: Result<Arg>) -> bool {
    let cmd = command_of(o);
    if cmd == "help"@ {
        r matches Ok(Arg::Help)
    } else if cmd == "serve"@ {
        serve_result(serve_opts(o, env), r)
    } else if cmd == "test"@ {
        test_result(test_opts(o, env), r)
    } else if cmd == "health"@ {
        health_result(with_env_default(o, "url"@, env_get(env, "VM_URL"@)), r)
    } else if cmd == "ctx-setup"@ {
        ctx_setup_result(ctx_setup_opts(o, env), r)
    } else if cmd == "ctx-config"@ {
        ctx_config_result(ctx_config_opts(o, env), r)
    } else if cmd == "obj-list"@ {
        obj_list_result(obj_list_opts(o, env), r)
    } else if cmd == "obj-get"@ {
        obj_get_result(obj_get_opts(o, env), r)
    } else if cmd == "obj-put"@ {
        obj_put_result(obj_put_opts(o, env, now), r)
    } else {
        r matches Err(e) && e.kind == ErrorKind::Other && (e.message matches Some(m) && m@
            == "unrecognised command: "@ + cmd)
    }
}

/// The first value of a required option, or its refusal.
fn require(o: &Options, k: &str) -> (r: Result<String>)
    requires
        o.wf(),
    ensures
        match one(o@, k@) {
            Some(v) => r matches Ok(x) && x@ == v,
            None => r matches Err(e) && e.kind == ErrorKind::InvalidInput && (e.message matches Some(m)
                && m@ == "Argument Error: --"@ + k@ + " is required"@),
        },
{
    match o.one(k) {
        Some(v) => Ok(v),
        None => {
            let a = concat("Argument Error: --", k);
            let b = concat(a.as_str(), " is required");
            Err(Error::new(ErrorKind::InvalidInput, b.as_str()))
        },
    }
}

/// The values of a key, or none.
fn list_or_empty_exec(o: &Options, k: &str) -> (r: Vec<String>)
    requires
        o.wf(),
    ensures
        r.deep_view() == list_or_empty(o@, k@),
{
    match o.list(k) {
        Some(v) => v,
        None => {
            let v: Vec<String> = Vec::new();
            proof {
                assert(v.deep_view() =~= Seq::<Seq<char>>::empty());
            }
            v
        },
    }
}

/// A number of at most `max`, or a refusal of kind `Other`.
fn number(t: &str, max: u64) -> (r: Result<u64>)
    ensures
        match parse_u64_spec(t@) {
            Some(n) if n <= max => r == Ok::<u64, Error>(n),
            _ => r matches Err(e) && e.kind == ErrorKind::Other,
        },
{
    match parse_u64(t) {
        Some(n) => if n <= max {
            Ok(n)
        } else {
            Err(Error::other("number too large to fit in target type"))
        },
        None => Err(Error::other("invalid digit found in string")),
    }
}

/// `serve`: system admin tokens, the address to bind, the store.
fn parse_serve(opts: Options, env: &Env) -> (r: Result<Arg>)
    requires
        opts.wf(),
    ensures
        serve_result(serve_opts(opts@, env.view()), r),
{
    let mut o = opts;
    o.split_env("sys-admin", env, "VM_SYS_ADMIN_TOKENS");
    o.ensure("sys-admin");
    o.set_default_env("http-addr", env, "VM_HTTP_ADDR");
    o.set_default("http-addr", "[::]:8080");
    o.set_default_env("store", env, "VM_STORE");
    let sys_admin = list_or_empty_exec(&o, "sys-admin");
    let http_addr = match require(&o, "http-addr") {
        Ok(v) => v,
        Err(e) => {
            return Err(e);
        },
    };
    let store = o.one("store");
    Ok(Arg::Serve { sys_admin, http_addr, store })
}

/// `test`: the address to bind and the code file.
fn parse_test(opts: Options, env: &Env) -> (r: Result<Arg>)
    requires
        opts.wf(),
    ensures
        test_result(test_opts(opts@, env.view()), r),
{
    let mut o = opts;
    o.set_default_env("http-addr", env, "VM_HTTP_ADDR");
    o.set_default("http-addr", "[::]:8080");
    o.set_default_env("code-file", env, "VM_CODE");
    let http_addr = match require(&o, "http-addr") {
        Ok(v) => v,
        Err(e) => {
            return Err(e);
        },
    };
    let code_file = match require(&o, "code-file") {
        Ok(v) => v,
        Err(e) => {
            return Err(e);
        },
    };
    Ok(Arg::Test { http_addr, code_file })
}

/// `health`: the server url.
fn parse_health(opts: Options, env: &Env) -> (r: Result<Arg>)
    requires
        opts.wf(),
    ensures
        health_result(with_env_default(opts@, "url"@, env_get(env.view(), "VM_URL"@)), r),
{
    let mut o = opts;
    o.set_default_env("url", env, "VM_URL");
    let url = match require(&o, "url") {
        Ok(v) => v,
        Err(e) => {
            return Err(e);
        },
    };
    Ok(Arg::Health { url })
}

/// `url`, `token` and `context` from the environment.
fn base_defaults(o: &mut Options, env: &Env)
    requires
        old(o).wf(),
    ensures
        final(o).wf(),
        final(o)@ == ctx_base_opts(old(o)@, env.view()),
{
    o.set_default_env("url", env, "VM_URL");
    o.set_default_env("token", env, "VM_TOKEN");
    o.set_default_env("context", env, "VM_CTX");
}

/// The defaults of `ctx-setup`.
fn ctx_setup_defaults(o: &mut Options, env: &Env)
    requires
        old(o).wf(),
    ensures
        final(o).wf(),
        final(o)@ == ctx_setup_opts(old(o)@, env.view()),
{
    base_defaults(o, env);
    o.set_default_env("delete", env, "VM_DELETE");
    o.split_env("ctx-admin", env, "VM_CTX_ADMIN_TOKENS");
    o.ensure("ctx-admin");
    o.set_default_env("timeout-secs", env, "VM_TIMEOUT_SECS");
    o.set_default("timeout-secs", "10.0");
    o.set_default_env("max-heap-bytes", env, "VM_MAX_HEAP_BYTES");
    o.set_default("max-heap-bytes", "33554432");
}

/// `ctx-setup`: a context's setup.
fn parse_ctx_setup(opts: Options, env: &Env) -> (r: Result<Arg>)
    requires
        opts.wf(),
    ensures
        ctx_setup_result(ctx_setup_opts(opts@, env.view()), r),
{
    let mut o = opts;
    ctx_setup_defaults(&mut o, env);
    let url = match require(&o, "url") {
        Ok(v) => v,
        Err(e) => {
            return Err(e);
        },
    };
    let token = match require(&o, "token") {
        Ok(v) => v,
        Err(e) => {
            return Err(e);
        },
    };
    let context = match require(&o, "context") {
        Ok(v) => v,
        Err(e) => {
            return Err(e);
        },
    };
    let delete = o.flag("delete");
    let ctx_admin = list_or_empty_exec(&o, "ctx-admin");
    let timeout_secs = match require(&o, "timeout-secs") {
        Ok(v) => v,
        Err(e) => {
            return Err(e);
        },
    };
    let heap = match require(&o, "max-heap-bytes") {
        Ok(v) => v,
        Err(e) => {
            return Err(e);
        },
    };
    let max_heap_bytes = match number(heap.as_str(), usize::MAX as u64) {
        Ok(n) => n as usize,
        Err(e) => {
            return Err(e);
        },
    };
    Ok(Arg::CtxSetup { url, token, context, delete, ctx_admin, timeout_secs, max_heap_bytes })
}

/// `ctx-config`: a context's config.
fn parse_ctx_config(opts: Options, env: &Env) -> (r: Result<Arg>)
    requires
        opts.wf(),
    ensures
        ctx_config_result(ctx_config_opts(opts@, env.view()), r),
{
    let mut o = opts;
    base_defaults(&mut o, env);
    o.split_env("ctx-admin", env, "VM_CTX_ADMIN_TOKENS");
    o.ensure("ctx-admin");
    o.set_default_env("code-file", env, "VM_CODE");
    let url = match require(&o, "url") {
        Ok(v) => v,
        Err(e) => {
            return Err(e);
        },
    };
    let token = match require(&o, "token") {
        Ok(v) => v,
        Err(e) => {
            return Err(e);
        },
    };
    let context = match require(&o, "context") {
        Ok(v) => v,
        Err(e) => {
            return Err(e);
        },
    };
    let ctx_admin = list_or_empty_exec(&o, "ctx-admin");
    let code_file = match require(&o, "code-file") {
        Ok(v) => v,
        Err(e) => {
            return Err(e);
        },
    };
    Ok(Arg::CtxConfig { url, token, context, ctx_admin, code_file })
}

/// `obj-list`: which objects to list.
fn parse_obj_list(opts: Options, env: &Env) -> (r: Result<Arg>)
    requires
        opts.wf(),
    ensures
        obj_list_result(obj_list_opts(opts@, env.view()), r),
{
    let mut o = opts;
    base_defaults(&mut o, env);
    o.set_default_env("prefix", env, "VM_PREFIX");
    o.set_default("prefix", "");
    o.set_default_env("created-gt", env, "VM_CREATED_GT");
    o.set_default("created-gt", "0.0");
    o.set_default_env("limit", env, "VM_LIMIT");
    o.set_default("limit", "4294967295");
    let url = match require(&o, "url") {
        Ok(v) => v,
        Err(e) => {
            return Err(e);
        },
    };
    let token = match require(&o, "token") {
        Ok(v) => v,
        Err(e) => {
            return Err(e);
        },
    };
    let context = match require(&o, "context") {
        Ok(v) => v,
        Err(e) => {
            return Err(e);
        },
    };
    let prefix = match require(&o, "prefix") {
        Ok(v) => v,
        Err(e) => {
            return Err(e);
        },
    };
    let created_gt = match require(&o, "created-gt") {
        Ok(v) => v,
        Err(e) => {
            return Err(e);
        },
    };
    let lim = match require(&o, "limit") {
        Ok(v) => v,
        Err(e) => {
            return Err(e);
        },
    };
    let limit = match number(lim.as_str(), u32::MAX as u64) {
        Ok(n) => n as u32,
        Err(e) => {
            return Err(e);
        },
    };
    Ok(Arg::ObjList { url, token, context, prefix, created_gt, limit })
}

/// `app-path` from the environment, else empty.
fn app_path_defaults(o: &mut Options, env: &Env)
    requires
        old(o).wf(),
    ensures
        final(o).wf(),
        final(o)@ == obj_get_opts(old(o)@, env.view()),
{
    base_defaults(o, env);
    o.set_default_env("app-path", env, "VM_APP_PATH");
    o.set_default("app-path", "");
}

/// `obj-get`: which object to get.
fn parse_obj_get(opts: Options, env: &Env) -> (r: Result<Arg>)
    requires
        opts.wf(),
    ensures
        obj_get_result(obj_get_opts(opts@, env.view()), r),
{
    let mut o = opts;
    app_path_defaults(&mut o, env);
    let url = match require(&o, "url") {
        Ok(v) => v,
        Err(e) => {
            return Err(e);
        },
    };
    let token = match require(&o, "token") {
        Ok(v) => v,
        Err(e) => {
            return Err(e);
        },
    };
    let context = match require(&o, "context") {
        Ok(v) => v,
        Err(e) => {
            return Err(e);
        },
    };
    let app_path = match require(&o, "app-path") {
        Ok(v) => v,
        Err(e) => {
            return Err(e);
        },
    };
    Ok(Arg::ObjGet { url, token, context, app_path })
}

/// `obj-put`: where to put an object, created `now` unless given.
fn parse_obj_put(opts: Options, env: &Env, now: &str) -> (r: Result<Arg>)
    requires
        opts.wf(),
    ensures
        obj_put_result(obj_put_opts(opts@, env.view(), now@), r),
{
    let mut o = opts;
    app_path_defaults(&mut o, env);
    o.set_default_env("create", env, "VM_CREATE");
    o.set_default("create", now);
    o.set_default_env("expire", env, "VM_EXPIRE");
    o.set_default("expire", "0.0");
    let url = match require(&o, "url") {
        Ok(v) => v,
        Err(e) => {
            return Err(e);
        },
    };
    let token = match require(&o, "token") {
        Ok(v) => v,
        Err(e) => {
            return Err(e);
        },
    };
    let context = match require(&o, "context") {
        Ok(v) => v,
        Err(e) => {
            return Err(e);
        },
    };
    let app_path = match require(&o, "app-path") {
        Ok(v) => v,
        Err(e) => {
            return Err(e);
        },
    };
    let create = match require(&o, "create") {
        Ok(v) => v,
        Err(e) => {
            return Err(e);
        },
    };
    let expire = match require(&o, "expire") {
        Ok(v) => v,
        Err(e) => {
            return Err(e);
        },
    };
    Ok(Arg::ObjPut { url, token, context, app_path, create, expire })
}

/// Reads the command that `vm` arguments ask for (`now` is the default
/// creation time of `obj-put`).
pub fn arg_parse(opts: Options, env: &Env, now: &str) -> (r: Result<Arg>)
    requires
        opts.wf(),
    ensures
        arg_result(opts@, env.view(), now@, r),
{
    let cmd = if opts.flag("h") || opts.flag("help") {
        String::from_str("help")
    } else {
        match opts.one("-") {
            Some(c) => c,
            None => String::from_str("help"),
        }
    };
    proof {
        reveal_strlit("help");
    }
    let c = cmd.as_str();
    if str_eq(c, "help") {
        Ok(Arg::Help)
    } else if str_eq(c, "serve") {
        parse_serve(opts, env)
    } else if str_eq(c, "test") {
        parse_test(opts, env)
    } else if str_eq(c, "health") {
        parse_health(opts, env)
    } else if str_eq(c, "ctx-setup") {
        parse_ctx_setup(opts, env)
    } else if str_eq(c, "ctx-config") {
        parse_ctx_config(opts, env)
    } else if str_eq(c, "obj-list") {
        parse_obj_list(opts, env)
    } else if str_eq(c, "obj-get") {
        parse_obj_get(opts, env)
    } else if str_eq(c, "obj-put") {
        parse_obj_put(opts, env, now)
    } else {
        let msg = concat("unrecognised command: ", c);
        Err(Error::other(msg.as_str()))
    }
}

/// The paging of `obj-list`: pages of at most 1000 are asked for until the
/// limit is used up, each after the latest creation time seen so far, and
/// paging stops early when a page comes back empty.
pub struct ListPager {
    /// What remains of the limit.
    pub limit: u32,
    /// The latest creation time seen (a double bit pattern).
    pub created_gt: u64,
    /// The number of objects listed.
    pub count: u64,
}

/// The later of two times (double bit patterns): `b` if it is after `a`.
pub open spec fn later(a: u64, b: u64) -> u64 {
    if crate::secs::lt(a, b) {
        b
    } else {
        a
    }
}

/// The latest of a start time and the times of a page.
pub open spec fn latest(start: u64, times: Seq<u64>) -> u64
    decreases times.len(),
{
    if times.len() == 0 {
        start
    } else {
        later(latest(start, times.drop_last()), times.last())
    }
}

impl ListPager {
    /// Paging for a limit, after a creation time.
    pub fn new(limit: u32, created_gt: u64) -> (r: Self)
        ensures
            r.limit == limit,
            r.created_gt == created_gt,
            r.count == 0,
    {
        ListPager { limit, created_gt, count: 0 }
    }

    /// The size of the next page to ask for, if any: at most 1000 of what
    /// remains of the limit, nothing once the limit is used up.
    pub fn next_request(&mut self) -> (r: Option<u32>)
        ensures
            old(self).limit > 1000 ==> r == Some(1000u32) && final(self).limit == old(self).limit - 1000,
            0 < old(self).limit <= 1000 ==> r == Some(old(self).limit) && final(self).limit == 0,
            old(self).limit == 0 ==> r is None && final(self).limit == 0,
            final(self).created_gt == old(self).created_gt,
            final(self).count == old(self).count,
    {
        if self.limit == 0 {
            None
        } else if self.limit > 1000 {
            self.limit = self.limit - 1000;
            Some(1000)
        } else {
            let n = self.limit;
            self.limit = 0;
            Some(n)
        }
    }

    /// Takes a page (the creation times of its objects); false when it is
    /// empty and paging stops.
    pub fn take_page(&mut self, created: &Vec<u64>) -> (r: bool)
        requires
            old(self).count + created@.len() <= u64::MAX,
        ensures
            r == (created@.len() > 0),
            final(self).limit == old(self).limit,
            final(self).count == old(self).count + created@.len(),
            final(self).created_gt == latest(old(self).created_gt, created@),
    {
        if created.len() == 0 {
            return false;
        }
        let ghost start = self.created_gt;
        let ghost c0 = self.count;
        let mut i: usize = 0;
        while i < created.len()
            invariant
                i <= created@.len(),
                self.limit == old(self).limit,
                self.count == c0 + i,
                c0 + created@.len() <= u64::MAX,
                self.created_gt == latest(start, created@.take(i as int)),
            decreases created@.len() - i,
        {
            proof {
                assert(created@.take(i + 1).drop_last() =~= created@.take(i as int));
            }
            let cs = created[i];
            if crate::secs::less(self.created_gt, cs) {
                self.created_gt = cs;
            }
            self.count = self.count + 1;
            i = i + 1;
        }
        proof {
            assert(created@.take(created@.len() as int) =~= created@);
        }
        true
    }
}

} // verus!
