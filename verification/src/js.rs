//! The javascript host's global limits: each can be set once, before it is
//! first read.

use vstd::prelude::*;

verus! {

/// The state after setting `v`: the first value set stays.
pub open spec fn after_set(s: Option<usize>, v: usize) -> Option<usize> {
    match s {
        Some(x) => Some(x),
        None => Some(v),
    }
}

/// The value a read gives: the value set, else the default.
pub open spec fn read_value(s: Option<usize>, default: usize) -> usize {
    match s {
        Some(v) => v,
        None => default,
    }
}

/// A value that can be set once; reading it before it was set fixes the
/// default.
pub struct SetOnce {
    value: Option<usize>,
}

impl SetOnce {
    /// The value, if it was set or read.
    pub closed spec fn view(&self) -> Option<usize> {
        self.value
    }

    /// Not yet set.
    pub fn new() -> (r: Self)
        ensures
            r@ is None,
    {
        SetOnce { value: None }
    }

    /// Sets the value; false, with nothing changed, if it was already set
    /// or read.
    pub fn set(&mut self, v: usize) -> (r: bool)
        ensures
            r == (old(self)@ is None),
            final(self)@ == after_set(old(self)@, v),
    {
        match self.value {
            Some(_) => false,
            None => {
                self.value = Some(v);
                true
            },
        }
    }

    /// The value; if it was not set, it becomes `default` for good.
    pub fn get_or_init(&mut self, default: usize) -> (r: usize)
        ensures
            r == read_value(old(self)@, default),
            final(self)@ == Some(r),
    {
        match self.value {
            Some(v) => v,
            None => {
                self.value = Some(default);
                default
            },
        }
    }
}

/// Default number of javascript threads.
pub const DEFAULT_MAX_THREADS: usize = 32;

/// Default RAM for javascript, in bytes (768 MiB).
pub const DEFAULT_MAX_RAM: usize = 805306368;

/// The javascript host's global limits.
pub struct JsGlobals {
    /// The maximum number of javascript threads.
    pub max_threads: SetOnce,
    /// The maximum RAM for javascript, in bytes.
    pub max_ram: SetOnce,
}

impl JsGlobals {
    /// Neither limit set.
    pub fn new() -> (r: Self)
        ensures
            r.max_threads@ is None,
            r.max_ram@ is None,
    {
        JsGlobals { max_threads: SetOnce::new(), max_ram: SetOnce::new() }
    }
}

/// Sets the maximum number of javascript threads (default 32); false if it
/// was already set or read.
pub fn js_global_set_max_thread(g: &mut JsGlobals, count: usize) -> (r: bool)
    ensures
        r == (old(g).max_threads@ is None),
        final(g).max_threads@ == after_set(old(g).max_threads@, count),
        final(g).max_ram@ == old(g).max_ram@,
{
    g.max_threads.set(count)
}

/// The maximum number of javascript threads: the value set, else 32.
pub fn js_global_get_max_thread(g: &mut JsGlobals) -> (r: usize)
    ensures
        r == read_value(old(g).max_threads@, DEFAULT_MAX_THREADS),
        final(g).max_threads@ == Some(r),
        final(g).max_ram@ == old(g).max_ram@,
{
    g.max_threads.get_or_init(DEFAULT_MAX_THREADS)
}

/// Sets the maximum RAM for javascript in bytes (default 768 MiB); false
/// if it was already set or read.
pub fn js_global_set_max_ram(g: &mut JsGlobals, count: usize) -> (r: bool)
    ensures
        r == (old(g).max_ram@ is None),
        final(g).max_ram@ == after_set(old(g).max_ram@, count),
        final(g).max_threads@ == old(g).max_threads@,
{
    g.max_ram.set(count)
}

/// The maximum RAM for javascript: the value set, else 768 MiB.
pub fn js_global_get_max_ram(g: &mut JsGlobals) -> (r: usize)
    ensures
        r == read_value(old(g).max_ram@, DEFAULT_MAX_RAM),
        final(g).max_ram@ == Some(r),
        final(g).max_threads@ == old(g).max_threads@,
{
    g.max_ram.get_or_init(DEFAULT_MAX_RAM)
}

/// A limit is set at most once: after it was set, a later set is refused
/// and leaves it, and a read gives the value first set, not the default.
pub proof fn law_set_once(before: Option<usize>, first: usize, second: usize, default: usize)
    requires
        before is None,
    ensures
        after_set(before, first) == Some(first),
        after_set(after_set(before, first), second) == Some(first),
        read_value(after_set(before, first), default) == first,
{
}

/// A read fixes the value: a later set is refused and the value stays the
/// one read.
pub proof fn law_read_fixes(before: Option<usize>, default: usize, v: usize)
    ensures
        after_set(Some(read_value(before, default)), v) == Some(read_value(before, default)),
{
}

/// The state after a call: `Some(v)` sets `v`, `None` reads (with the
/// default).
pub open spec fn after_call(s: Option<usize>, call: Option<usize>, default: usize) -> Option<usize> {
    match call {
        Some(v) => after_set(s, v),
        None => Some(read_value(s, default)),
    }
}

/// The state after a sequence of calls.
pub open spec fn after_calls(s: Option<usize>, calls: Seq<Option<usize>>, default: usize) -> Option<usize>
    decreases calls.len(),
{
    if calls.len() == 0 {
        s
    } else {
        after_call(after_calls(s, calls.drop_last(), default), calls.last(), default)
    }
}

/// The value the first call decides: the value it sets, or the default if
/// it reads.
pub open spec fn first_decides(calls: Seq<Option<usize>>, default: usize) -> usize {
    match calls[0] {
        Some(v) => v,
        None => default,
    }
}

/// Law (the first call decides): over any sequence of sets and reads of a
/// limit not yet set, the value is fixed by the first call for good, and
/// every read gives it.
pub proof fn law_first_call_decides(calls: Seq<Option<usize>>, default: usize)
    requires
        calls.len() > 0,
    ensures
        after_calls(None, calls, default) == Some(first_decides(calls, default)),
        forall|k: int|
            0 <= k < calls.len() && #[trigger] calls[k] is None ==> read_value(
                after_calls(None, calls.take(k), default),
                default,
            ) == first_decides(calls, default),
    decreases calls.len(),
{
    if calls.len() == 1 {
        assert(calls.drop_last() =~= Seq::<Option<usize>>::empty());
    } else {
        law_first_call_decides(calls.drop_last(), default);
        assert(calls.drop_last()[0] == calls[0]);
    }
    assert forall|k: int|
        0 <= k < calls.len() && #[trigger] calls[k] is None implies read_value(
            after_calls(None, calls.take(k), default),
            default,
        ) == first_decides(calls, default) by {
        if k == 0 {
            assert(calls.take(0) =~= Seq::<Option<usize>>::empty());
        } else {
            assert(calls.take(k).len() > 0);
            assert(calls.take(k)[0] == calls[0]);
            lemma_prefix_decided(calls, k, default);
        }
    }
}

/// A nonempty prefix of the calls already holds the first call's value.
proof fn lemma_prefix_decided(calls: Seq<Option<usize>>, k: int, default: usize)
    requires
        0 < k <= calls.len(),
    ensures
        after_calls(None, calls.take(k), default) == Some(first_decides(calls, default)),
    decreases k,
{
    let t = calls.take(k);
    assert(t.drop_last() =~= calls.take(k - 1));
    if k == 1 {
        assert(calls.take(0) =~= Seq::<Option<usize>>::empty());
    } else {
        lemma_prefix_decided(calls, k - 1, default);
    }
}

} // verus!
