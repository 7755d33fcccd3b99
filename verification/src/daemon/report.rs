//! The daemon status as text: a form for people and a TOON form, each as of
//! a time (Unix seconds) handed in by the caller.
use vstd::prelude::*;

use crate::daemon::status::{sessions_view, DaemonStatus, SessionInfo, SessionV};
use crate::text::{decimal, push_str, push_u64};

verus! {

/// `a - b`, or zero when `b` is larger.
pub open spec fn saturating_diff(a: int, b: int) -> nat {
    if a >= b {
        (a - b) as nat
    } else {
        0
    }
}

/// The decimal text of a non-negative integer.
pub open spec fn dec(n: int) -> Seq<char> {
    decimal(n as nat)
}

/// The first line of a session in the human form: language and backend.
pub open spec fn human_head(s: SessionV) -> Seq<char> {
    "\n  "@ + s.language + " ("@ + s.backend + ")\n"@
}

/// The workspace line of a session, when it has a workspace.
pub open spec fn workspace_line(s: SessionV) -> Seq<char> {
    match s.workspace_root {
        Some(r) => "    workspace: "@ + r + "\n"@,
        None => Seq::empty(),
    }
}

/// The key, request count, age in whole minutes and the seconds part of the
/// idle time of a session.
pub open spec fn human_tail(s: SessionV, now: int) -> Seq<char> {
    "    key: "@ + s.key + "\n"@ + ("    requests: "@ + dec(s.request_count) + "\n"@) + ("    age: "@
        + dec((saturating_diff(now, s.created_at) / 60) as int) + "m\n"@) + ("    idle: "@ + dec(
        (saturating_diff(now, s.last_used_at) % 60) as int,
    ) + "s\n"@)
}

/// One session in the human form: language and backend, the workspace when
/// there is one, key, requests, age in whole minutes and the seconds part of
/// the idle time.
pub open spec fn human_session(s: SessionV, now: int) -> Seq<char> {
    human_head(s) + workspace_line(s) + human_tail(s, now)
}

/// The sessions in the human form, in order.
pub open spec fn human_sessions(ss: Seq<SessionV>, now: int) -> Seq<char>
    decreases ss.len(),
{
    if ss.len() == 0 {
        Seq::empty()
    } else {
        human_sessions(ss.drop_last(), now) + human_session(ss.last(), now)
    }
}

/// The status in the human form: uptime in minutes and seconds, the
/// counters, the number of sessions, then each session, or a note that
/// there are none.
pub open spec fn spec_status_human(up: int, requests: int, connections: int, ss: Seq<SessionV>, now: int) -> Seq<char> {
    "  Uptime: "@ + dec(up / 60) + "m "@ + dec(up % 60) + "s\n"@ + "  Requests: "@ + dec(requests)
        + "\n"@ + "  Connections: "@ + dec(connections) + "\n"@ + "  Sessions: "@ + dec(
        ss.len() as int,
    ) + "\n"@ + if ss.len() == 0 {
        "\n  (no active sessions)\n"@
    } else {
        human_sessions(ss, now)
    }
}

/// The text columns of a TOON row: key, language, backend and workspace
/// (`-` when none).
pub open spec fn toon_text_columns(s: SessionV) -> Seq<char> {
    s.key + " | "@ + s.language + " | "@ + s.backend + " | "@ + match s.workspace_root {
        Some(r) => r,
        None => "-"@,
    }
}

/// One session as a TOON row: key, language, backend, workspace (`-` when
/// none), requests, age and idle time in seconds.
pub open spec fn toon_session(s: SessionV, now: int) -> Seq<char> {
    toon_text_columns(s) + (" | "@ + dec(s.request_count)) + (" | "@ + dec(
        saturating_diff(now, s.created_at) as int,
    )) + (" | "@ + dec(saturating_diff(now, s.last_used_at) as int) + "\n"@)
}

/// The sessions as TOON rows, in order.
pub open spec fn toon_sessions(ss: Seq<SessionV>, now: int) -> Seq<char>
    decreases ss.len(),
{
    if ss.len() == 0 {
        Seq::empty()
    } else {
        toon_sessions(ss.drop_last(), now) + toon_session(ss.last(), now)
    }
}

/// The header of the TOON session table.
pub open spec fn toon_table_header() -> Seq<char> {
    "#\n"@ + "# key | language | backend | workspace | requests | age_s | idle_s\n"@
        + "# --- | -------- | ------- | --------- | -------- | ----- | ------\n"@
}

/// The status in TOON form: a header of counters, then, when there are
/// sessions, a table of them.
pub open spec fn spec_status_toon(up: int, requests: int, connections: int, ss: Seq<SessionV>, now: int) -> Seq<char> {
    "# daemon status\n"@ + "# uptime_secs="@ + dec(up) + "\n"@ + "# total_requests="@ + dec(requests)
        + "\n"@ + "# total_connections="@ + dec(connections) + "\n"@ + "# sessions="@ + dec(
        ss.len() as int,
    ) + "\n"@ + if ss.len() == 0 {
        Seq::empty()
    } else {
        toon_table_header() + toon_sessions(ss, now)
    }
}

/// Appends a line `<label><n><suffix>`.
fn push_labeled(out: &mut String, label: &str, n: u64, suffix: &str)
    ensures
        final(out)@ == old(out)@ + label@ + decimal(n as nat) + suffix@,
{
    push_str(out, label);
    push_u64(out, n);
    push_str(out, suffix);
    proof {
        assert(final(out)@ =~= old(out)@ + label@ + decimal(n as nat) + suffix@);
    }
}

/// Appends the key, request count, age and idle time of a session.
fn push_human_tail(out: &mut String, s: &SessionInfo, now: u64)
    ensures
        final(out)@ == old(out)@ + human_tail(s.view(), now as int),
{
    let ghost o = out@;
    push_str(out, "    key: ");
    push_str(out, s.key.as_str());
    push_str(out, "\n");
    let ghost k = out@;
    proof {
        assert(k =~= o + ("    key: "@ + s.key@ + "\n"@));
    }
    let age: u64 = if now >= s.created_at {
        now - s.created_at
    } else {
        0
    };
    let idle: u64 = if now >= s.last_used_at {
        now - s.last_used_at
    } else {
        0
    };
    push_labeled(out, "    requests: ", s.request_count, "\n");
    push_labeled(out, "    age: ", age / 60, "m\n");
    push_labeled(out, "    idle: ", idle % 60, "s\n");
    proof {
        assert(out@ =~= o + human_tail(s.view(), now as int));
    }
}

/// Appends one session in the human form.
fn push_human_session(out: &mut String, s: &SessionInfo, now: u64)
    ensures
        final(out)@ == old(out)@ + human_session(s.view(), now as int),
{
    let ghost sv = s.view();
    let ghost o = out@;
    push_str(out, "\n  ");
    push_str(out, s.language.as_str());
    push_str(out, " (");
    push_str(out, s.backend.as_str());
    push_str(out, ")\n");
    let ghost w0 = out@;
    proof {
        assert(w0 =~= o + human_head(sv));
    }
    match &s.workspace_root {
        Some(r) => {
            push_str(out, "    workspace: ");
            push_str(out, r.as_str());
            push_str(out, "\n");
        },
        None => {},
    }
    let ghost w1 = out@;
    proof {
        assert(w1 =~= w0 + workspace_line(sv));
    }
    push_human_tail(out, s, now);
    proof {
        assert(out@ =~= o + human_session(sv, now as int));
    }
}

/// Appends one session as a TOON row.
fn push_toon_session(out: &mut String, s: &SessionInfo, now: u64)
    ensures
        final(out)@ == old(out)@ + toon_session(s.view(), now as int),
{
    let ghost sv = s.view();
    let ghost o = out@;
    push_str(out, s.key.as_str());
    push_str(out, " | ");
    push_str(out, s.language.as_str());
    push_str(out, " | ");
    push_str(out, s.backend.as_str());
    push_str(out, " | ");
    match &s.workspace_root {
        Some(r) => push_str(out, r.as_str()),
        None => push_str(out, "-"),
    }
    let ghost w = out@;
    proof {
        assert(w =~= o + toon_text_columns(sv));
    }
    let age: u64 = if now >= s.created_at {
        now - s.created_at
    } else {
        0
    };
    let idle: u64 = if now >= s.last_used_at {
        now - s.last_used_at
    } else {
        0
    };
    push_str(out, " | ");
    push_u64(out, s.request_count);
    push_str(out, " | ");
    push_u64(out, age);
    push_labeled(out, " | ", idle, "\n");
    proof {
        assert(out@ =~= o + toon_session(sv, now as int));
    }
}

impl DaemonStatus {
    /// The status in the human form, as of `now`.
    pub fn format_human(&self, now: u64) -> (r: String)
        ensures
            r@ == spec_status_human(
                self.uptime_secs as int,
                self.total_requests as int,
                self.total_connections as int,
                sessions_view(self.sessions@),
                now as int,
            ),
    {
        let mut out = String::new();
        let ghost ss = sessions_view(self.sessions@);
        push_labeled(&mut out, "  Uptime: ", self.uptime_secs / 60, "m ");
        push_labeled(&mut out, "", self.uptime_secs % 60, "s\n");
        push_labeled(&mut out, "  Requests: ", self.total_requests, "\n");
        push_labeled(&mut out, "  Connections: ", self.total_connections, "\n");
        push_labeled(&mut out, "  Sessions: ", self.sessions.len() as u64, "\n");
        let ghost head = out@;
        proof {
            reveal_strlit("");
            assert(""@ =~= Seq::<char>::empty());
        }
        if self.sessions.len() == 0 {
            push_str(&mut out, "\n  (no active sessions)\n");
        } else {
            let mut i: usize = 0;
            while i < self.sessions.len()
                invariant
                    0 <= i <= self.sessions@.len(),
                    ss == sessions_view(self.sessions@),
                    out@ == head + human_sessions(ss.take(i as int), now as int),
                decreases self.sessions.len() - i,
            {
                push_human_session(&mut out, &self.sessions[i], now);
                proof {
                    assert(ss.take(i + 1).drop_last() =~= ss.take(i as int));
                    assert(ss.take(i + 1).last() == self.sessions@[i as int].view());
                }
                i = i + 1;
            }
            proof {
                assert(ss.take(i as int) =~= ss);
            }
        }
        proof {
            assert(out@ =~= spec_status_human(
                self.uptime_secs as int,
                self.total_requests as int,
                self.total_connections as int,
                ss,
                now as int,
            ));
        }
        out
    }

    /// The status in TOON form, as of `now`.
    pub fn format_toon(&self, now: u64) -> (r: String)
        ensures
            r@ == spec_status_toon(
                self.uptime_secs as int,
                self.total_requests as int,
                self.total_connections as int,
                sessions_view(self.sessions@),
                now as int,
            ),
    {
        let mut out = String::new();
        let ghost ss = sessions_view(self.sessions@);
        push_str(&mut out, "# daemon status\n");
        push_labeled(&mut out, "# uptime_secs=", self.uptime_secs, "\n");
        push_labeled(&mut out, "# total_requests=", self.total_requests, "\n");
        push_labeled(&mut out, "# total_connections=", self.total_connections, "\n");
        push_labeled(&mut out, "# sessions=", self.sessions.len() as u64, "\n");
        let ghost head = out@;
        if self.sessions.len() > 0 {
            push_str(&mut out, "#\n");
            push_str(&mut out, "# key | language | backend | workspace | requests | age_s | idle_s\n");
            push_str(&mut out, "# --- | -------- | ------- | --------- | -------- | ----- | ------\n");
            let ghost head2 = out@;
            proof {
                assert(head2 =~= head + toon_table_header());
            }
            let mut i: usize = 0;
            while i < self.sessions.len()
                invariant
                    0 <= i <= self.sessions@.len(),
                    ss == sessions_view(self.sessions@),
                    out@ == head2 + toon_sessions(ss.take(i as int), now as int),
                decreases self.sessions.len() - i,
            {
                push_toon_session(&mut out, &self.sessions[i], now);
                proof {
                    assert(ss.take(i + 1).drop_last() =~= ss.take(i as int));
                    assert(ss.take(i + 1).last() == self.sessions@[i as int].view());
                }
                i = i + 1;
            }
            proof {
                assert(ss.take(i as int) =~= ss);
            }
        }
        proof {
            assert(out@ =~= spec_status_toon(
                self.uptime_secs as int,
                self.total_requests as int,
                self.total_connections as int,
                ss,
                now as int,
            ));
        }
        out
    }
}

} // verus!
