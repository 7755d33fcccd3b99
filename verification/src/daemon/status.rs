//! What the daemon reports of itself: counters, uptime and its sessions.
//!
//! Times are Unix seconds handed in by the caller.
use vstd::prelude::*;

use crate::text::str_eq;

verus! {

/// What the daemon knows of one session.
#[derive(Debug)]
pub struct SessionInfo {
    /// The pool key (`language:backend:root`).
    pub key: String,
    /// The language identifier.
    pub language: String,
    /// The server command.
    pub backend: String,
    /// The workspace root.
    pub workspace_root: Option<String>,
    /// How many requests the session served.
    pub request_count: u64,
    /// When the session was created.
    pub created_at: u64,
    /// When the session was last used.
    pub last_used_at: u64,
}

/// The model of a session entry.
pub struct SessionV {
    pub key: Seq<char>,
    pub language: Seq<char>,
    pub backend: Seq<char>,
    pub workspace_root: Option<Seq<char>>,
    pub request_count: int,
    pub created_at: int,
    pub last_used_at: int,
}

impl SessionInfo {
    pub open spec fn view(self) -> SessionV {
        SessionV {
            key: self.key@,
            language: self.language@,
            backend: self.backend@,
            workspace_root: match self.workspace_root {
                Some(r) => Some(r@),
                None => None,
            },
            request_count: self.request_count as int,
            created_at: self.created_at as int,
            last_used_at: self.last_used_at as int,
        }
    }
}

/// The models of session entries.
pub open spec fn sessions_view(v: Seq<SessionInfo>) -> Seq<SessionV> {
    Seq::new(v.len(), |i: int| v[i].view())
}

/// A snapshot of the daemon's state.
#[derive(Debug)]
pub struct DaemonStatus {
    /// Client connections served.
    pub total_connections: u64,
    /// Requests dispatched.
    pub total_requests: u64,
    /// Seconds since start, as of the last refresh.
    pub uptime_secs: u64,
    /// The sessions.
    pub sessions: Vec<SessionInfo>,
    /// When the daemon started (Unix seconds); uptime is counted from it.
    pub started_at_unix: u64,
}

/// The index of the first session with the key.
pub open spec fn session_index(ss: Seq<SessionV>, key: Seq<char>) -> Option<int>
    decreases ss.len(),
{
    if ss.len() == 0 {
        None
    } else {
        match session_index(ss.drop_last(), key) {
            Some(i) => Some(i),
            None => if ss.last().key == key {
                Some(ss.len() - 1)
            } else {
                None
            },
        }
    }
}

/// A session used once more at `now`.
pub open spec fn touched(s: SessionV, now: int) -> SessionV {
    SessionV { request_count: s.request_count + 1, last_used_at: now, ..s }
}

proof fn lemma_session_index(ss: Seq<SessionV>, key: Seq<char>, j: int)
    requires
        0 <= j <= ss.len(),
        forall|k: int| 0 <= k < j ==> (#[trigger] ss[k]).key != key,
    ensures
        j < ss.len() && ss[j].key == key ==> session_index(ss, key) == Some(j),
        j == ss.len() ==> session_index(ss, key) is None,
    decreases ss.len(),
{
    if ss.len() > 0 {
        let q = ss.drop_last();
        lemma_session_index(q, key, if j < q.len() { j } else { q.len() as int });
        if j < q.len() {
            assert(q[j] == ss[j]);
        }
    }
}

impl DaemonStatus {
    /// When the daemon started.
    pub open spec fn started_at(&self) -> int {
        self.started_at_unix as int
    }

    /// A status with no activity, started at `now`.
    pub fn new(now: u64) -> (r: DaemonStatus)
        ensures
            r.total_connections == 0,
            r.total_requests == 0,
            r.uptime_secs == 0,
            r.sessions@.len() == 0,
            r.started_at() == now,
    {
        DaemonStatus {
            total_connections: 0,
            total_requests: 0,
            uptime_secs: 0,
            sessions: Vec::new(),
            started_at_unix: now,
        }
    }

    /// Sets the uptime to the seconds from the start to `now` (0 when `now`
    /// is earlier).
    pub fn refresh_uptime(&mut self, now: u64)
        ensures
            final(self).uptime_secs == (if now >= old(self).started_at() {
                now - old(self).started_at()
            } else {
                0
            }),
            final(self).started_at() == old(self).started_at(),
            final(self).total_connections == old(self).total_connections,
            final(self).total_requests == old(self).total_requests,
            final(self).sessions@ == old(self).sessions@,
    {
        self.uptime_secs = now.saturating_sub(self.started_at_unix);
    }

    /// Counts one more connection (saturating).
    pub fn record_connection(&mut self)
        ensures
            final(self).total_connections == (if old(self).total_connections < u64::MAX {
                old(self).total_connections + 1
            } else {
                old(self).total_connections as int
            }),
            final(self).total_requests == old(self).total_requests,
            final(self).uptime_secs == old(self).uptime_secs,
            final(self).started_at() == old(self).started_at(),
            final(self).sessions@ == old(self).sessions@,
    {
        self.total_connections = self.total_connections.saturating_add(1);
    }

    /// Counts one more request (saturating).
    pub fn record_request(&mut self)
        ensures
            final(self).total_requests == (if old(self).total_requests < u64::MAX {
                old(self).total_requests + 1
            } else {
                old(self).total_requests as int
            }),
            final(self).total_connections == old(self).total_connections,
            final(self).uptime_secs == old(self).uptime_secs,
            final(self).started_at() == old(self).started_at(),
            final(self).sessions@ == old(self).sessions@,
    {
        self.total_requests = self.total_requests.saturating_add(1);
    }

    /// The position of the session with the key.
    fn find_session(&self, key: &str) -> (r: Option<usize>)
        ensures
            match r {
                Some(i) => i < self.sessions@.len() && session_index(sessions_view(self.sessions@), key@)
                    == Some(i as int),
                None => session_index(sessions_view(self.sessions@), key@) is None,
            },
    {
        let ghost sv = sessions_view(self.sessions@);
        let mut i: usize = 0;
        while i < self.sessions.len()
            invariant
                0 <= i <= self.sessions@.len(),
                sv == sessions_view(self.sessions@),
                forall|k: int| 0 <= k < i ==> (#[trigger] sv[k]).key != key@,
            decreases self.sessions.len() - i,
        {
            if str_eq(self.sessions[i].key.as_str(), key) {
                proof {
                    assert(sv[i as int] == self.sessions@[i as int].view());
                    lemma_session_index(sv, key@, i as int);
                }
                return Some(i);
            }
            proof {
                assert(sv[i as int] == self.sessions@[i as int].view());
            }
            i = i + 1;
        }
        proof {
            lemma_session_index(sv, key@, i as int);
        }
        None
    }

    /// Bumps the request count and last-use time of the session with the
    /// key, if there is one; never adds a session.
    pub fn touch_by_key(&mut self, key: &str, now: u64)
        requires
            old(self).sessions_below_max(key@),
        ensures
            sessions_view(final(self).sessions@) == match session_index(
                sessions_view(old(self).sessions@),
                key@,
            ) {
                Some(i) => sessions_view(old(self).sessions@).update(
                    i,
                    touched(sessions_view(old(self).sessions@)[i], now as int),
                ),
                None => sessions_view(old(self).sessions@),
            },
            final(self).total_connections == old(self).total_connections,
            final(self).total_requests == old(self).total_requests,
            final(self).uptime_secs == old(self).uptime_secs,
            final(self).started_at() == old(self).started_at(),
    {
        match self.find_session(key) {
            Some(i) => {
                let ghost sv = sessions_view(self.sessions@);
                let mut s = self.sessions.remove(i);
                proof {
                    assert(sv[i as int] == s.view());
                }
                s.request_count = s.request_count + 1;
                s.last_used_at = now;
                self.sessions.insert(i, s);
                proof {
                    assert(sessions_view(self.sessions@) =~= sv.update(i as int, touched(sv[i as int], now as int)));
                }
            },
            None => {},
        }
    }

    /// Whether the session with the key, if any, can count one more request.
    pub open spec fn sessions_below_max(&self, key: Seq<char>) -> bool {
        match session_index(sessions_view(self.sessions@), key) {
            Some(i) => sessions_view(self.sessions@)[i].request_count < u64::MAX,
            None => true,
        }
    }

    /// Records a use of a session: an existing entry with the key is bumped
    /// (request count and last-use time); otherwise a new entry is added with
    /// one request, created and used at `now`.
    pub fn touch_session(
        &mut self,
        key: &str,
        language: &str,
        backend: &str,
        workspace_root: Option<String>,
        now: u64,
    )
        requires
            old(self).sessions_below_max(key@),
        ensures
            sessions_view(final(self).sessions@) == match session_index(
                sessions_view(old(self).sessions@),
                key@,
            ) {
                Some(i) => sessions_view(old(self).sessions@).update(
                    i,
                    touched(sessions_view(old(self).sessions@)[i], now as int),
                ),
                None => sessions_view(old(self).sessions@).push(
                    SessionV {
                        key: key@,
                        language: language@,
                        backend: backend@,
                        workspace_root: match workspace_root {
                            Some(r) => Some(r@),
                            None => None,
                        },
                        request_count: 1,
                        created_at: now as int,
                        last_used_at: now as int,
                    },
                ),
            },
            final(self).total_connections == old(self).total_connections,
            final(self).total_requests == old(self).total_requests,
            final(self).uptime_secs == old(self).uptime_secs,
            final(self).started_at() == old(self).started_at(),
    {
        match self.find_session(key) {
            Some(_) => {
                self.touch_by_key(key, now);
            },
            None => {
                let ghost sv = sessions_view(self.sessions@);
                self.sessions.push(
                    SessionInfo {
                        key: key.to_owned(),
                        language: language.to_owned(),
                        backend: backend.to_owned(),
                        workspace_root,
                        request_count: 1,
                        created_at: now,
                        last_used_at: now,
                    },
                );
                proof {
                    assert(sessions_view(self.sessions@) =~= sv.push(self.sessions@.last().view()));
                }
            },
        }
    }
}

/// A session key occurs at most once: touching a session never adds a second
/// entry for the same key.
pub proof fn lemma_touch_keeps_keys_unique(ss: Seq<SessionV>, key: Seq<char>, fresh: SessionV)
    requires
        forall|i: int, j: int| 0 <= i < j < ss.len() ==> (#[trigger] ss[i]).key != (#[trigger] ss[j]).key,
        fresh.key == key,
        session_index(ss, key) is None,
    ensures
        forall|i: int, j: int|
            0 <= i < j < ss.push(fresh).len() ==> (#[trigger] ss.push(fresh)[i]).key != (
            #[trigger] ss.push(fresh)[j]).key,
{
    lemma_session_absent(ss, key);
    assert forall|i: int, j: int| 0 <= i < j < ss.push(fresh).len() implies (
    #[trigger] ss.push(fresh)[i]).key != (#[trigger] ss.push(fresh)[j]).key by {
        if j == ss.len() {
            assert(ss.push(fresh)[i] == ss[i]);
        } else {
            assert(ss.push(fresh)[i] == ss[i]);
            assert(ss.push(fresh)[j] == ss[j]);
        }
    }
}

proof fn lemma_session_absent(ss: Seq<SessionV>, key: Seq<char>)
    ensures
        session_index(ss, key) is None ==> forall|i: int| 0 <= i < ss.len() ==> (#[trigger] ss[i]).key
            != key,
    decreases ss.len(),
{
    if ss.len() > 0 {
        let q = ss.drop_last();
        lemma_session_absent(q, key);
        if session_index(ss, key) is None {
            assert forall|i: int| 0 <= i < ss.len() implies (#[trigger] ss[i]).key != key by {
                if i < q.len() {
                    assert(q[i] == ss[i]);
                }
            }
        }
    }
}

} // verus!
