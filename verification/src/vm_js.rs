//! The javascript engine's errors and configuration, the table of its
//! monitors with the decision a monitor makes on each check, and the
//! engine's set-once global limits.

use vstd::prelude::*;
use crate::error::{error_text, joined, Error, ErrorKind};
use crate::text::concat;

verus! {

/// Javascript error indicating if the engine is still viable or must be
/// dropped and recreated.
#[derive(Debug)]
pub enum JsError {
    /// The javascript thread had to shut down; it is no longer usable.
    Fatal(Error),
    /// An error with the particular request; the thread is still usable.
    NonFatal(Error),
}

/// Builds the message `info: <err>` as an error of kind `Other`.
fn with_info(info: &str, err: &Error) -> (e: Error)
    ensures
        e.kind == ErrorKind::Other,
        e.message matches Some(m) && m@ == joined(info@, error_text(*err)),
{
    let head = concat(info, ": ");
    let msg = concat(head.as_str(), err.to_string().as_str());
    Error::other(msg.as_str())
}

impl JsError {
    /// A fatal error: `info`, a colon and the cause.
    pub fn fatal(info: &str, err: Error) -> (r: JsError)
        ensures
            r matches JsError::Fatal(e) && e.kind == ErrorKind::Other && (e.message matches Some(m)
                && m@ == joined(info@, error_text(err))),
    {
        JsError::Fatal(with_info(info, &err))
    }

    /// A non-fatal error: `info`, a colon and the cause.
    pub fn non_fatal(info: &str, err: Error) -> (r: JsError)
        ensures
            r matches JsError::NonFatal(e) && e.kind == ErrorKind::Other && (e.message matches Some(m)
                && m@ == joined(info@, error_text(err))),
    {
        JsError::NonFatal(with_info(info, &err))
    }

    /// True if the engine must be recreated.
    pub fn is_fatal(&self) -> (r: bool)
        ensures
            r == (self is Fatal),
    {
        match self {
            JsError::Fatal(_) => true,
            JsError::NonFatal(_) => false,
        }
    }

    /// The error inside.
    pub fn error(&self) -> (r: &Error)
        ensures
            match self {
                JsError::Fatal(e) => *r == e,
                JsError::NonFatal(e) => *r == e,
            },
    {
        match self {
            JsError::Fatal(e) => e,
            JsError::NonFatal(e) => e,
        }
    }
}

/// Javascript engine configuration.
pub struct VmJsConfig {
    /// The javascript code to load.
    pub code: String,
    /// The memory usage limit in bytes.
    pub max_mem_bytes: usize,
    /// Idle thread shutdown duration, in seconds.
    pub idle_shutdown_secs: u64,
}

impl Default for VmJsConfig {
    /// No code, 32 MiB of memory, shut down after 120 idle seconds.
    fn default() -> (r: Self)
        ensures
            r.code@ == ""@,
            r.max_mem_bytes == 32 * 1024 * 1024,
            r.idle_shutdown_secs == 120,
    {
        VmJsConfig { code: String::from_str(""), max_mem_bytes: 1024 * 1024 * 32, idle_shutdown_secs: 120 }
    }
}

impl Clone for VmJsConfig {
    fn clone(&self) -> (r: Self)
        ensures
            r.code@ == self.code@,
            r.max_mem_bytes == self.max_mem_bytes,
            r.idle_shutdown_secs == self.idle_shutdown_secs,
    {
        VmJsConfig {
            code: self.code.clone(),
            max_mem_bytes: self.max_mem_bytes,
            idle_shutdown_secs: self.idle_shutdown_secs,
        }
    }
}

/// Handle to a registered monitor: its unique number in the table. The
/// monitor stays registered until it is removed with
/// [MonitorTable::remove].
pub struct MonitorGuard(pub usize);

/// The state of one monitor: its memory limit in bytes, and the time (in
/// milliseconds) at which the running call times out, if one is set.
pub type MonitorState = (usize, Option<u64>);

/// One registered monitor.
struct MonitorEntry {
    uniq: usize,
    max_mem_bytes: usize,
    timeout_at: Option<u64>,
}

/// The registered monitors, by unique number.
pub struct MonitorTable {
    entries: Vec<MonitorEntry>,
    next_uniq: usize,
}

/// What a monitor check does to the javascript engine.
#[derive(Debug, PartialEq, Eq, Structural, Clone, Copy)]
pub enum MonitorAction {
    /// Nothing: the monitor is gone, or everything is within limits.
    Ignore,
    /// Stop the running javascript; the engine was already cancelled.
    Terminate,
    /// Cancel the engine and stop the running javascript.
    CancelAndTerminate,
}

/// The action of a check: a missing monitor is ignored; a cancelled engine
/// is terminated; a timeout that has passed, or memory in use (heap and
/// array buffers together) above the limit, cancels and terminates.
pub open spec fn monitor_action(m: Option<MonitorState>, cancelled: bool, now: u64, used: int) -> MonitorAction {
    match m {
        None => MonitorAction::Ignore,
        Some((max, timeout_at)) => if cancelled {
            MonitorAction::Terminate
        } else if timeout_at matches Some(t) && t <= now {
            MonitorAction::CancelAndTerminate
        } else if used > max {
            MonitorAction::CancelAndTerminate
        } else {
            MonitorAction::Ignore
        },
    }
}

impl MonitorTable {
    /// The monitors by unique number.
    pub closed spec fn view(&self) -> Map<usize, MonitorState> {
        entries_map(self.entries@)
    }

    /// The next unique number to hand out.
    pub closed spec fn next(&self) -> usize {
        self.next_uniq
    }

    /// Unique numbers are distinct and below the next one.
    pub closed spec fn wf(&self) -> bool {
        &&& forall|i: int, j: int|
            0 <= i < j < self.entries@.len() ==> #[trigger] self.entries@[i].uniq != #[trigger] self.entries@[j].uniq
        &&& forall|i: int| 0 <= i < self.entries@.len() ==> #[trigger] self.entries@[i].uniq < self.next_uniq
        &&& self.next_uniq >= 1
    }

    /// An empty table; unique numbers start at 1.
    pub fn new() -> (r: Self)
        ensures
            r.wf(),
            r@ == Map::<usize, MonitorState>::empty(),
            r.next() == 1,
    {
        let r = MonitorTable { entries: Vec::new(), next_uniq: 1 };
        proof {
            assert(r@ =~= Map::<usize, MonitorState>::empty());
        }
        r
    }

    /// The position of a monitor in the table, if it is registered.
    fn find(&self, uniq: usize) -> (r: Option<usize>)
        requires
            self.wf(),
        ensures
            r is None <==> !self@.contains_key(uniq),
            r matches Some(i) ==> i < self.entries@.len() && self.entries@[i as int].uniq == uniq,
    {
        let mut i: usize = 0;
        while i < self.entries.len()
            invariant
                i <= self.entries@.len(),
                forall|m: int| 0 <= m < i ==> (#[trigger] self.entries@[m]).uniq != uniq,
            decreases self.entries@.len() - i,
        {
            if self.entries[i].uniq == uniq {
                return Some(i);
            }
            i = i + 1;
        }
        None
    }

    /// The unique number the next registered monitor gets.
    pub fn next_uniq(&self) -> (r: usize)
        ensures
            r == self.next(),
    {
        self.next_uniq
    }

    /// Registers a monitor with a memory limit and no timeout; its unique
    /// number is one that no registered monitor has.
    pub fn register(&mut self, max_mem_bytes: usize) -> (g: MonitorGuard)
        requires
            old(self).wf(),
            old(self).next() < usize::MAX,
        ensures
            final(self).wf(),
            g.0 == old(self).next(),
            !old(self)@.contains_key(g.0),
            final(self)@ == old(self)@.insert(g.0, (max_mem_bytes, None)),
            final(self).next() == old(self).next() + 1,
    {
        let uniq = self.next_uniq;
        let ghost before = self@;
        let ghost old_entries = self.entries@;
        self.entries.push(MonitorEntry { uniq, max_mem_bytes, timeout_at: None });
        self.next_uniq = uniq + 1;
        proof {
            assert(!before.contains_key(uniq)) by {
                if before.contains_key(uniq) {
                    let i = choose|i: int| 0 <= i < old_entries.len() && #[trigger] old_entries[i].uniq == uniq;
                    assert(old_entries[i].uniq < uniq);
                }
            }
            lemma_view_push(old_entries, self.entries@, uniq, max_mem_bytes);
        }
        MonitorGuard(uniq)
    }

    /// Removes a monitor; true if it was registered.
    pub fn remove(&mut self, uniq: usize) -> (r: bool)
        requires
            old(self).wf(),
        ensures
            final(self).wf(),
            r == old(self)@.contains_key(uniq),
            final(self)@ == old(self)@.remove(uniq),
            final(self).next() == old(self).next(),
    {
        match self.find(uniq) {
            None => {
                proof {
                    assert(self@ =~= self@.remove(uniq));
                }
                false
            },
            Some(i) => {
                let ghost old_entries = self.entries@;
                let ghost before = self@;
                self.entries.remove(i);
                proof {
                    lemma_view_remove(old_entries, self.entries@, i as int);
                }
                true
            },
        }
    }

    /// Sets the timeout of a call on a monitor, `timeout` milliseconds
    /// after `now`; nothing happens to a monitor that is not registered.
    pub fn set_timeout(&mut self, uniq: usize, now: u64, timeout: u64)
        requires
            old(self).wf(),
            now + timeout <= u64::MAX,
        ensures
            final(self).wf(),
            final(self).next() == old(self).next(),
            final(self)@ == (if old(self)@.contains_key(uniq) {
                old(self)@.insert(uniq, (old(self)@[uniq].0, Some((now + timeout) as u64)))
            } else {
                old(self)@
            }),
    {
        self.set_timeout_at(uniq, Some(now + timeout));
    }

    /// Clears the timeout of a monitor; nothing happens to a monitor that
    /// is not registered.
    pub fn clear_timeout(&mut self, uniq: usize)
        requires
            old(self).wf(),
        ensures
            final(self).wf(),
            final(self).next() == old(self).next(),
            final(self)@ == (if old(self)@.contains_key(uniq) {
                old(self)@.insert(uniq, (old(self)@[uniq].0, None))
            } else {
                old(self)@
            }),
    {
        self.set_timeout_at(uniq, None);
    }

    fn set_timeout_at(&mut self, uniq: usize, at: Option<u64>)
        requires
            old(self).wf(),
        ensures
            final(self).wf(),
            final(self).next() == old(self).next(),
            final(self)@ == (if old(self)@.contains_key(uniq) {
                old(self)@.insert(uniq, (old(self)@[uniq].0, at))
            } else {
                old(self)@
            }),
    {
        match self.find(uniq) {
            None => {},
            Some(i) => {
                let ghost old_entries = self.entries@;
                let max = self.entries[i].max_mem_bytes;
                self.entries.set(i, MonitorEntry { uniq, max_mem_bytes: max, timeout_at: at });
                proof {
                    lemma_view_set(old_entries, self.entries@, i as int);
                }
            },
        }
    }

    /// What a check of a monitor does, given whether its engine was
    /// cancelled, the time in milliseconds, and the heap and array buffer
    /// bytes in use.
    pub fn check(&self, uniq: usize, cancelled: bool, now: u64, heap_used: usize, ab_used: usize) -> (r: MonitorAction)
        requires
            self.wf(),
            heap_used + ab_used <= usize::MAX,
        ensures
            r == monitor_action(
                if self@.contains_key(uniq) { Some(self@[uniq]) } else { None },
                cancelled,
                now,
                heap_used + ab_used,
            ),
    {
        match self.find(uniq) {
            None => MonitorAction::Ignore,
            Some(i) => {
                proof {
                    lemma_view_at(self.entries@, i as int);
                }
                let e = &self.entries[i];
                if cancelled {
                    return MonitorAction::Terminate;
                }
                match e.timeout_at {
                    Some(t) => {
                        if t <= now {
                            return MonitorAction::CancelAndTerminate;
                        }
                    },
                    None => {},
                }
                let total = heap_used + ab_used;
                if total > e.max_mem_bytes {
                    MonitorAction::CancelAndTerminate
                } else {
                    MonitorAction::Ignore
                }
            },
        }
    }
}

/// Once the time reaches a call's timeout, a check of an engine that was
/// not cancelled cancels it and stops the call, whatever memory is in use.
pub proof fn law_timeout_fires(max: usize, at: u64, now: u64, used: int)
    requires
        at <= now,
    ensures
        monitor_action(Some((max, Some(at))), false, now, used) == MonitorAction::CancelAndTerminate,
{
}

/// Without a timeout, and within its memory limit, a check of an engine
/// that was not cancelled does nothing.
pub proof fn law_quiet_within_limits(max: usize, now: u64, used: int)
    requires
        used <= max,
    ensures
        monitor_action(Some((max, None)), false, now, used) == MonitorAction::Ignore,
{
}

/// The entries of a table with distinct unique numbers.
spec fn distinct(s: Seq<MonitorEntry>) -> bool {
    forall|i: int, j: int| 0 <= i < j < s.len() ==> #[trigger] s[i].uniq != #[trigger] s[j].uniq
}

/// The monitors that a list of entries holds, by unique number.
spec fn entries_map(s: Seq<MonitorEntry>) -> Map<usize, MonitorState> {
    Map::new(
        |u: usize| exists|i: int| 0 <= i < s.len() && #[trigger] s[i].uniq == u,
        |u: usize| {
            let i = choose|i: int| 0 <= i < s.len() && #[trigger] s[i].uniq == u;
            (s[i].max_mem_bytes, s[i].timeout_at)
        },
    )
}

proof fn lemma_view_at(s: Seq<MonitorEntry>, i: int)
    requires
        distinct(s),
        0 <= i < s.len(),
    ensures
        entries_map(s).contains_key(s[i].uniq),
        entries_map(s)[s[i].uniq] == (s[i].max_mem_bytes, s[i].timeout_at),
{
    let u = s[i].uniq;
    assert(entries_map(s).contains_key(u));
    let c = choose|c: int| 0 <= c < s.len() && #[trigger] s[c].uniq == u;
    if c != i {
        if c < i {
            assert(s[c].uniq != s[i].uniq);
        } else {
            assert(s[i].uniq != s[c].uniq);
        }
    }
}

proof fn lemma_view_push(old_s: Seq<MonitorEntry>, s: Seq<MonitorEntry>, uniq: usize, max: usize)
    requires
        distinct(old_s),
        forall|i: int| 0 <= i < old_s.len() ==> #[trigger] old_s[i].uniq != uniq,
        s == old_s.push(MonitorEntry { uniq, max_mem_bytes: max, timeout_at: None }),
    ensures
        distinct(s),
        entries_map(s) == entries_map(old_s).insert(uniq, (max, None)),
{
    let n = old_s.len() as int;
    assert forall|i: int, j: int| 0 <= i < j < s.len() implies #[trigger] s[i].uniq != #[trigger] s[j].uniq by {
        if j == n {
            assert(old_s[i].uniq != uniq);
        } else {
            assert(old_s[i].uniq != old_s[j].uniq);
        }
    }
    let m = entries_map(old_s).insert(uniq, (max, None));
    assert forall|u: usize| #[trigger] entries_map(s).contains_key(u) <==> m.contains_key(u) by {
        if entries_map(s).contains_key(u) {
            let i = choose|i: int| 0 <= i < s.len() && #[trigger] s[i].uniq == u;
            if i < n {
                assert(old_s[i].uniq == u);
            }
        }
        if m.contains_key(u) && u != uniq {
            let i = choose|i: int| 0 <= i < old_s.len() && #[trigger] old_s[i].uniq == u;
            assert(s[i].uniq == u);
        }
        if u == uniq {
            assert(s[n].uniq == u);
        }
    }
    assert forall|u: usize| #[trigger] entries_map(s).contains_key(u) implies entries_map(s)[u] == m[u] by {
        let i = choose|i: int| 0 <= i < s.len() && #[trigger] s[i].uniq == u;
        lemma_view_at(s, i);
        if i < n {
            lemma_view_at(old_s, i);
        }
    }
    assert(entries_map(s) =~= m);
}

proof fn lemma_view_remove(old_s: Seq<MonitorEntry>, s: Seq<MonitorEntry>, k: int)
    requires
        distinct(old_s),
        0 <= k < old_s.len(),
        s == old_s.remove(k),
    ensures
        distinct(s),
        entries_map(s) == entries_map(old_s).remove(old_s[k].uniq),
        forall|i: int| 0 <= i < s.len() ==> exists|j: int| 0 <= j < old_s.len() && #[trigger] s[i] == old_s[j],
{
    let gone = old_s[k].uniq;
    assert forall|i: int| 0 <= i < s.len() implies exists|j: int|
        0 <= j < old_s.len() && #[trigger] s[i] == old_s[j] by {
        if i < k {
            assert(s[i] == old_s[i]);
        } else {
            assert(s[i] == old_s[i + 1]);
        }
    }
    assert forall|i: int, j: int| 0 <= i < j < s.len() implies #[trigger] s[i].uniq != #[trigger] s[j].uniq by {
        let a = if i < k { i } else { i + 1 };
        let b = if j < k { j } else { j + 1 };
        assert(s[i] == old_s[a]);
        assert(s[j] == old_s[b]);
        assert(old_s[a].uniq != old_s[b].uniq);
    }
    let m = entries_map(old_s).remove(gone);
    assert forall|u: usize| #[trigger] entries_map(s).contains_key(u) <==> m.contains_key(u) by {
        if entries_map(s).contains_key(u) {
            let i = choose|i: int| 0 <= i < s.len() && #[trigger] s[i].uniq == u;
            let a = if i < k { i } else { i + 1 };
            assert(s[i] == old_s[a]);
            assert(old_s[a].uniq == u);
            if a < k {
                assert(old_s[a].uniq != old_s[k].uniq);
            } else {
                assert(old_s[k].uniq != old_s[a].uniq);
            }
        }
        if m.contains_key(u) {
            let j = choose|j: int| 0 <= j < old_s.len() && #[trigger] old_s[j].uniq == u;
            assert(j != k);
            let i = if j < k { j } else { j - 1 };
            assert(s[i] == old_s[j]);
            assert(s[i].uniq == u);
        }
    }
    assert forall|u: usize| #[trigger] entries_map(s).contains_key(u) implies entries_map(s)[u] == m[u] by {
        let i = choose|i: int| 0 <= i < s.len() && #[trigger] s[i].uniq == u;
        let a = if i < k { i } else { i + 1 };
        assert(s[i] == old_s[a]);
        lemma_view_at(s, i);
        lemma_view_at(old_s, a);
    }
    assert(entries_map(s) =~= m);
}

proof fn lemma_view_set(old_s: Seq<MonitorEntry>, s: Seq<MonitorEntry>, k: int)
    requires
        distinct(old_s),
        0 <= k < old_s.len(),
        s.len() == old_s.len(),
        s[k].uniq == old_s[k].uniq,
        forall|i: int| 0 <= i < s.len() && i != k ==> #[trigger] s[i] == old_s[i],
    ensures
        distinct(s),
        entries_map(s) == entries_map(old_s).insert(s[k].uniq, (s[k].max_mem_bytes, s[k].timeout_at)),
{
    assert forall|i: int, j: int| 0 <= i < j < s.len() implies #[trigger] s[i].uniq != #[trigger] s[j].uniq by {
        assert(old_s[i].uniq != old_s[j].uniq);
        if i != k {
            assert(s[i] == old_s[i]);
        }
        if j != k {
            assert(s[j] == old_s[j]);
        }
    }
    let m = entries_map(old_s).insert(s[k].uniq, (s[k].max_mem_bytes, s[k].timeout_at));
    assert forall|u: usize| #[trigger] entries_map(s).contains_key(u) <==> m.contains_key(u) by {
        if entries_map(s).contains_key(u) {
            let i = choose|i: int| 0 <= i < s.len() && #[trigger] s[i].uniq == u;
            if i != k {
                assert(s[i] == old_s[i]);
                assert(old_s[i].uniq == u);
            }
        }
        if m.contains_key(u) && u != s[k].uniq {
            let j = choose|j: int| 0 <= j < old_s.len() && #[trigger] old_s[j].uniq == u;
            assert(j != k);
            assert(s[j] == old_s[j]);
            assert(s[j].uniq == u);
        }
        if u == s[k].uniq {
            assert(s[k].uniq == u);
        }
    }
    assert forall|u: usize| #[trigger] entries_map(s).contains_key(u) implies entries_map(s)[u] == m[u] by {
        let i = choose|i: int| 0 <= i < s.len() && #[trigger] s[i].uniq == u;
        lemma_view_at(s, i);
        if i != k {
            assert(s[i] == old_s[i]);
            lemma_view_at(old_s, i);
        }
    }
    assert(entries_map(s) =~= m);
}

} // verus!
