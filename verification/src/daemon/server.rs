//! The daemon server's decisions: which handler a request goes to, the key
//! of a session, which status entries outlive a reaping, and when an idle
//! daemon exits.
use vstd::prelude::*;

use crate::daemon::status::{sessions_view, DaemonStatus, SessionV};
use crate::json::strings_view;
use crate::text::{push_str, str_eq};

verus! {

/// How long an idle daemon (no sessions, no connections) waits before it
/// exits, in seconds.
pub const DAEMON_IDLE_TTL_SECS: u64 = 600;

/// How long a session may stay unused before it is reaped, in seconds.
pub const SESSION_IDLE_TTL_SECS: u64 = 600;

/// How often the reaper looks, in seconds.
pub const REAPER_CHECK_INTERVAL_SECS: u64 = 60;

/// The handler of a daemon request.
#[derive(Debug, Clone, Copy, PartialEq, Eq, Structural)]
pub enum Route {
    /// `lsp/spawn`: get or create a session.
    Spawn,
    /// `lsp/request`: a request to a session.
    Request,
    /// `lsp/notify`: a notification to a session.
    Notify,
    /// `lsp/wait_notify`: wait for a notification from a session.
    WaitNotify,
    /// `daemon/status`: the daemon's status.
    Status,
    /// `daemon/shutdown`: stop the daemon.
    Shutdown,
    /// Any other method: an error response.
    Unknown,
}

/// The handler of a method name.
pub open spec fn spec_route(method: Seq<char>) -> Route {
    if method == "lsp/spawn"@ {
        Route::Spawn
    } else if method == "lsp/request"@ {
        Route::Request
    } else if method == "lsp/notify"@ {
        Route::Notify
    } else if method == "lsp/wait_notify"@ {
        Route::WaitNotify
    } else if method == "daemon/status"@ {
        Route::Status
    } else if method == "daemon/shutdown"@ {
        Route::Shutdown
    } else {
        Route::Unknown
    }
}

/// The handler of a request's method.
pub fn route(method: &str) -> (r: Route)
    ensures
        r == spec_route(method@),
{
    if str_eq(method, "lsp/spawn") {
        Route::Spawn
    } else if str_eq(method, "lsp/request") {
        Route::Request
    } else if str_eq(method, "lsp/notify") {
        Route::Notify
    } else if str_eq(method, "lsp/wait_notify") {
        Route::WaitNotify
    } else if str_eq(method, "daemon/status") {
        Route::Status
    } else if str_eq(method, "daemon/shutdown") {
        Route::Shutdown
    } else {
        Route::Unknown
    }
}

/// The error message of an unknown method.
pub fn unknown_method_message(method: &str) -> (r: String)
    ensures
        r@ == "Unknown method: "@ + method@,
{
    let mut m = String::new();
    push_str(&mut m, "Unknown method: ");
    push_str(&mut m, method);
    m
}

/// The key of a session: `language:backend:root`, or `language:backend`
/// without a root.
pub open spec fn spec_session_key(language: Seq<char>, backend: Seq<char>, root: Option<Seq<char>>) -> Seq<char> {
    match root {
        Some(r) => language + ":"@ + backend + ":"@ + r,
        None => language + ":"@ + backend,
    }
}

/// The key of a session.
pub fn session_key(language: &str, backend: &str, root: Option<&str>) -> (r: String)
    ensures
        r@ == spec_session_key(
            language@,
            backend@,
            match root {
                Some(x) => Some(x@),
                None => None,
            },
        ),
{
    let mut k = String::new();
    push_str(&mut k, language);
    push_str(&mut k, ":");
    push_str(&mut k, backend);
    match root {
        Some(x) => {
            push_str(&mut k, ":");
            push_str(&mut k, x);
            proof {
                assert(k@ =~= language@ + ":"@ + backend@ + ":"@ + x@);
            }
        },
        None => {
            proof {
                assert(k@ =~= language@ + ":"@ + backend@);
            }
        },
    }
    k
}

/// The sessions whose key is among the live keys, in order.
pub open spec fn live_sessions(ss: Seq<SessionV>, live: Seq<Seq<char>>) -> Seq<SessionV>
    decreases ss.len(),
{
    if ss.len() == 0 {
        Seq::empty()
    } else {
        live_sessions(ss.drop_last(), live) + if live.contains(ss.last().key) {
            seq![ss.last()]
        } else {
            Seq::empty()
        }
    }
}

/// Whether `k` is among the keys.
fn contains_key(keys: &Vec<String>, k: &str) -> (r: bool)
    ensures
        r == strings_view(keys@).contains(k@),
{
    let ghost kv = strings_view(keys@);
    let mut i: usize = 0;
    while i < keys.len()
        invariant
            0 <= i <= keys@.len(),
            kv == strings_view(keys@),
            forall|j: int| 0 <= j < i ==> kv[j] != k@,
        decreases keys.len() - i,
    {
        if str_eq(keys[i].as_str(), k) {
            proof {
                assert(kv[i as int] == k@);
            }
            return true;
        }
        i = i + 1;
    }
    false
}

impl DaemonStatus {
    /// Keeps only the status entries of sessions that still exist, in order;
    /// counters and uptime are unchanged.
    pub fn retain_sessions(&mut self, live_keys: &Vec<String>)
        ensures
            sessions_view(final(self).sessions@) == live_sessions(
                sessions_view(old(self).sessions@),
                strings_view(live_keys@),
            ),
            final(self).total_connections == old(self).total_connections,
            final(self).total_requests == old(self).total_requests,
            final(self).uptime_secs == old(self).uptime_secs,
            final(self).started_at_unix == old(self).started_at_unix,
    {
        let ghost lv = strings_view(live_keys@);
        let mut old_sessions = Vec::new();
        std::mem::swap(&mut old_sessions, &mut self.sessions);
        let ghost ss = sessions_view(old_sessions@);
        let mut kept = Vec::new();
        let old_len = old_sessions.len();
        let mut rest = old_sessions;
        let ghost n = ss.len();
        proof {
            assert(ss.skip(0) =~= ss);
            assert(ss.take(0) =~= Seq::<SessionV>::empty());
        }
        let mut i: usize = 0;
        while rest.len() > 0
            invariant
                i + rest@.len() == n,
                n == ss.len(),
                n == old_len,
                sessions_view(rest@) == ss.skip(i as int),
                sessions_view(kept@) == live_sessions(ss.take(i as int), lv),
                lv == strings_view(live_keys@),
            decreases rest.len(),
        {
            let ghost rv = sessions_view(rest@);
            let s = rest.remove(0);
            proof {
                assert(s.view() == rv[0]);
                assert(rv[0] == ss[i as int]);
                assert(sessions_view(rest@) =~= rv.drop_first());
                assert(rv.drop_first() =~= ss.skip(i + 1));
                assert(ss.take(i + 1).drop_last() =~= ss.take(i as int));
                assert(ss.take(i + 1).last() == ss[i as int]);
            }
            if contains_key(live_keys, s.key.as_str()) {
                let ghost kv = sessions_view(kept@);
                kept.push(s);
                proof {
                    assert(sessions_view(kept@) =~= kv.push(ss[i as int]));
                }
            }
            i = i + 1;
        }
        proof {
            assert(ss.take(i as int) =~= ss);
        }
        self.sessions = kept;
    }
}

/// What the reaper does after a look: the time since which the daemon has
/// been idle, if it is, and whether it exits now.
///
/// A busy daemon (with sessions or connections) is not idle; one that
/// becomes idle starts counting at `now`; one idle for the whole idle TTL
/// exits.
pub open spec fn spec_reaper_step(idle_since: Option<u64>, busy: bool, now: u64) -> (Option<u64>, bool) {
    if busy {
        (None, false)
    } else {
        match idle_since {
            None => (Some(now), false),
            Some(t) => (Some(t), now >= t && now - t >= DAEMON_IDLE_TTL_SECS),
        }
    }
}

/// Decides what the reaper does after a look.
pub fn reaper_step(idle_since: Option<u64>, busy: bool, now: u64) -> (r: (Option<u64>, bool))
    ensures
        r == spec_reaper_step(idle_since, busy, now),
{
    if busy {
        (None, false)
    } else {
        match idle_since {
            None => (Some(now), false),
            Some(t) => (Some(t), now >= t && now - t >= DAEMON_IDLE_TTL_SECS),
        }
    }
}

} // verus!
