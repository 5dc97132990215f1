//! Daemon lifecycle decisions: starting it and waiting until it answers,
//! recognising its process before signalling it, reading its pid file, and
//! reporting its status.
use vstd::prelude::*;

use crate::config::ThunderConfig;
use crate::daemon::ClientResponse;
use crate::fix::{all_digits, digits_value, is_digit};
use crate::text::{
    chars_of, concat, decimal, decimal_usize, opt_view, slice_chars, split_on, str_eq, str_split,
    trim, trim_exec, views,
};

verus! {

broadcast use vstd::string::group_string_axioms;

// ---------------------------------------------------------------------------
// Starting the daemon
// ---------------------------------------------------------------------------

/// How many times the daemon is asked whether it answers after it was
/// started, a pause apart, before giving up.
pub const START_POLLS: u32 = 30;

/// Where starting the daemon stands.
#[derive(Debug, Clone, Copy, PartialEq, Eq, Structural)]
pub enum StartPhase {
    /// Nothing was started yet.
    Probe,
    /// The daemon was started and asked this many times since.
    Spawned { polls: u32 },
}

/// Why the daemon could not be started.
#[derive(Debug, Clone, Copy, PartialEq, Eq, Structural)]
pub enum StartFailure {
    /// It does not run and the configuration does not start it.
    AutoStartDisabled,
    /// It was started but never answered.
    NoAnswer,
}

/// What to do next.
#[derive(Debug, Clone, Copy, PartialEq, Eq, Structural)]
pub enum StartAction {
    /// The daemon answers.
    Done,
    /// Start the daemon process (`thunderd --root <root>`), then ask again.
    Spawn,
    /// Pause, then ask again.
    Wait,
    /// Give up.
    Fail(StartFailure),
}

/// One step of starting the daemon, after asking it whether it answers:
/// an answer ends it; before anything was started, an unstarted daemon is
/// started when the configuration allows; after that, it is asked again a
/// pause apart, `START_POLLS` times in all.
pub open spec fn start_step_spec(phase: StartPhase, answered: bool, auto_start: bool) -> (StartPhase, StartAction) {
    if answered {
        (phase, StartAction::Done)
    } else {
        match phase {
            StartPhase::Probe => if auto_start {
                (StartPhase::Spawned { polls: 0 }, StartAction::Spawn)
            } else {
                (phase, StartAction::Fail(StartFailure::AutoStartDisabled))
            },
            StartPhase::Spawned { polls } => if polls + 1 < START_POLLS {
                (StartPhase::Spawned { polls: (polls + 1) as u32 }, StartAction::Wait)
            } else {
                (StartPhase::Spawned { polls: START_POLLS }, StartAction::Fail(StartFailure::NoAnswer))
            },
        }
    }
}

/// One step of starting the daemon (`ensure_daemon`).
pub fn ensure_daemon_step(phase: StartPhase, answered: bool, config: &ThunderConfig) -> (r: (StartPhase, StartAction))
    requires
        phase matches StartPhase::Spawned { polls } ==> polls < START_POLLS,
    ensures
        r == start_step_spec(phase, answered, config.daemon.auto_start),
        r.0 matches StartPhase::Spawned { polls } ==> polls <= START_POLLS,
{
    if answered {
        return (phase, StartAction::Done);
    }
    match phase {
        StartPhase::Probe => if config.daemon.auto_start {
            (StartPhase::Spawned { polls: 0 }, StartAction::Spawn)
        } else {
            (phase, StartAction::Fail(StartFailure::AutoStartDisabled))
        },
        StartPhase::Spawned { polls } => if polls + 1 < START_POLLS {
            (StartPhase::Spawned { polls: polls + 1 }, StartAction::Wait)
        } else {
            (StartPhase::Spawned { polls: START_POLLS }, StartAction::Fail(StartFailure::NoAnswer))
        },
    }
}

/// The actions of starting a daemon that never answers, from `phase`.
pub open spec fn unanswered_run(phase: StartPhase, auto_start: bool, fuel: nat) -> Seq<StartAction>
    decreases fuel,
{
    if fuel == 0 {
        Seq::empty()
    } else {
        let (next, action) = start_step_spec(phase, false, auto_start);
        if action is Fail {
            seq![action]
        } else {
            seq![action] + unanswered_run(next, auto_start, (fuel - 1) as nat)
        }
    }
}

/// A daemon that never answers is started once, waited for `START_POLLS - 1`
/// times, and then given up on; without automatic start it is given up on
/// at once. Starting always ends.
pub proof fn lemma_start_gives_up(auto_start: bool)
    ensures
        auto_start ==> unanswered_run(StartPhase::Probe, auto_start, (START_POLLS + 1) as nat)
            == seq![StartAction::Spawn] + Seq::new((START_POLLS - 1) as nat, |i: int| StartAction::Wait)
            + seq![StartAction::Fail(StartFailure::NoAnswer)],
        !auto_start ==> unanswered_run(StartPhase::Probe, auto_start, 1) == seq![
            StartAction::Fail(StartFailure::AutoStartDisabled),
        ],
{
    if auto_start {
        lemma_waits(0, auto_start);
        let tail = unanswered_run(StartPhase::Spawned { polls: 0 }, auto_start, START_POLLS as nat);
        assert(unanswered_run(StartPhase::Probe, auto_start, (START_POLLS + 1) as nat) == seq![
            StartAction::Spawn,
        ] + tail);
        assert(tail =~= Seq::new((START_POLLS - 1) as nat, |i: int| StartAction::Wait) + seq![
            StartAction::Fail(StartFailure::NoAnswer),
        ]);
        assert(seq![StartAction::Spawn] + (Seq::new((START_POLLS - 1) as nat, |i: int| StartAction::Wait)
            + seq![StartAction::Fail(StartFailure::NoAnswer)]) =~= seq![StartAction::Spawn]
            + Seq::new((START_POLLS - 1) as nat, |i: int| StartAction::Wait) + seq![
            StartAction::Fail(StartFailure::NoAnswer),
        ]);
    } else {
        assert(unanswered_run(StartPhase::Probe, auto_start, 1) =~= seq![
            StartAction::Fail(StartFailure::AutoStartDisabled),
        ]);
    }
}

/// From `polls` asks, an unanswering daemon is waited for until the last
/// ask, then given up on.
proof fn lemma_waits(polls: u32, auto_start: bool)
    requires
        polls < START_POLLS,
    ensures
        unanswered_run(StartPhase::Spawned { polls }, auto_start, (START_POLLS - polls) as nat)
            =~= Seq::new((START_POLLS - 1 - polls) as nat, |i: int| StartAction::Wait) + seq![
            StartAction::Fail(StartFailure::NoAnswer),
        ],
    decreases START_POLLS - polls,
{
    if polls + 1 < START_POLLS {
        lemma_waits((polls + 1) as u32, auto_start);
        let rest = unanswered_run(
            StartPhase::Spawned { polls: (polls + 1) as u32 },
            auto_start,
            (START_POLLS - polls - 1) as nat,
        );
        assert(unanswered_run(StartPhase::Spawned { polls }, auto_start, (START_POLLS - polls) as nat)
            == seq![StartAction::Wait] + rest);
    } else {
        assert(unanswered_run(StartPhase::Spawned { polls }, auto_start, 1) =~= seq![
            StartAction::Fail(StartFailure::NoAnswer),
        ]);
    }
}

// ---------------------------------------------------------------------------
// The pid file and the process behind it
// ---------------------------------------------------------------------------

/// `str::parse::<u32>`: an optional `+`, then one or more decimal digits
/// whose value fits a `u32`.
pub open spec fn parse_u32(s: Seq<char>) -> Option<u32> {
    let body = if s.len() > 0 && s[0] == '+' {
        s.skip(1)
    } else {
        s
    };
    if body.len() == 0 || !all_digits(body) || digits_value(body) > u32::MAX {
        None
    } else {
        Some(digits_value(body) as u32)
    }
}

/// The pid in a pid file: its trimmed contents as a `u32`.
pub open spec fn pid_spec(contents: Seq<char>) -> Option<u32> {
    parse_u32(trim(contents))
}

proof fn lemma_digits_bounds(s: Seq<char>, k: int)
    requires
        0 <= k <= s.len(),
        all_digits(s),
    ensures
        digits_value(s.take(k)) <= digits_value(s),
        digits_value(s) >= 0,
    decreases s.len(),
{
    if s.len() > 0 {
        assert(all_digits(s.drop_last())) by {
            assert forall|i: int| 0 <= i < s.drop_last().len() implies is_digit(
                #[trigger] s.drop_last()[i],
            ) by {
                assert(s.drop_last()[i] == s[i]);
            }
        }
        if k < s.len() {
            assert(s.drop_last().take(k) =~= s.take(k));
            lemma_digits_bounds(s.drop_last(), k);
        } else {
            assert(s.take(k) =~= s);
            lemma_digits_bounds(s.drop_last(), 0);
        }
    } else {
        assert(s.take(k) =~= s);
    }
}

/// The pid in a pid file's contents.
pub fn parse_pid(contents: &str) -> (r: Option<u32>)
    ensures
        r == pid_spec(contents@),
{
    let t = trim_exec(chars_of(contents).as_slice());
    let n = t.len();
    let start: usize = if n > 0 && t[0] == '+' {
        1
    } else {
        0
    };
    let ghost body = if t@.len() > 0 && t@[0] == '+' {
        t@.skip(1)
    } else {
        t@
    };
    proof {
        assert(body =~= t@.subrange(start as int, n as int));
    }
    if start >= n {
        return None;
    }
    let mut acc: u64 = 0;
    let mut i = start;
    proof {
        assert(body.take(0) =~= Seq::<char>::empty());
    }
    while i < n
        invariant
            t@ == trim(contents@),
            body == (if t@.len() > 0 && t@[0] == '+' {
                t@.skip(1)
            } else {
                t@
            }),
            n == t@.len(),
            start <= i <= n,
            body == t@.subrange(start as int, n as int),
            forall|k: int| 0 <= k < i - start ==> is_digit(#[trigger] body[k]),
            acc as int == digits_value(body.take(i - start)),
            acc <= u32::MAX,
        decreases n - i,
    {
        let c = t[i];
        if !('0' <= c && c <= '9') {
            assert(!is_digit(body[i - start]));
            return None;
        }
        proof {
            let s = body.take(i - start + 1);
            assert(s.drop_last() =~= body.take(i - start));
            assert(s.last() == c);
        }
        acc = acc * 10 + (c as u64 - '0' as u64);
        i = i + 1;
        if acc > 4294967295 {
            proof {
                if all_digits(body) {
                    lemma_digits_bounds(body, i - start);
                }
            }
            return None;
        }
    }
    proof {
        assert(body.take(n - start) =~= body);
    }
    Some(acc as u32)
}

/// The last component of a path, as `Path::file_name` finds it: the last
/// piece between `/` that is neither empty nor `.`, unless it is `..`.
pub open spec fn file_name_spec(p: Seq<char>) -> Option<Seq<char>> {
    match last_named(split_on(p, '/')) {
        Some(n) => if n == ".."@ {
            None
        } else {
            Some(n)
        },
        None => None,
    }
}

/// The last piece that is neither empty nor `.`.
pub open spec fn last_named(pieces: Seq<Seq<char>>) -> Option<Seq<char>>
    decreases pieces.len(),
{
    if pieces.len() == 0 {
        None
    } else if pieces.last().len() == 0 || pieces.last() == "."@ {
        last_named(pieces.drop_last())
    } else {
        Some(pieces.last())
    }
}

/// The last component of a path.
pub fn file_name(p: &str) -> (r: Option<String>)
    ensures
        opt_view(r) == file_name_spec(p@),
{
    let pieces = str_split(p, '/');
    let ghost ps = split_on(p@, '/');
    let mut i: usize = pieces.len();
    proof {
        assert(ps.take(ps.len() as int) =~= ps);
    }
    while i > 0
        invariant
            ps == split_on(p@, '/'),
            views(pieces@) == ps,
            i <= ps.len(),
            last_named(ps) == last_named(ps.take(i as int)),
        decreases i,
    {
        proof {
            assert(ps.take(i as int).drop_last() =~= ps.take(i - 1));
            assert(ps.take(i as int).last() == pieces@[i - 1]@);
        }
        let piece = &pieces[i - 1];
        let pc = chars_of(piece.as_str());
        if pc.len() != 0 && !str_eq(piece.as_str(), ".") {
            if str_eq(piece.as_str(), "..") {
                return None;
            }
            return Some(String::from_str(piece.as_str()));
        }
        i = i - 1;
    }
    proof {
        assert(ps.take(0) =~= Seq::<Seq<char>>::empty());
    }
    None
}

/// Whether a process is the daemon, from what `/proc` says of it: its
/// `comm` (trimmed) names it, or, without a `comm`, one of the NUL-separated
/// arguments of its `cmdline` is a path whose last component names it.
/// With neither, it is not taken for the daemon.
pub open spec fn looks_like_daemon_spec(comm: Option<Seq<char>>, cmdline: Option<Seq<char>>) -> bool {
    match comm {
        Some(c) => trim(c) == "thunderd"@,
        None => match cmdline {
            Some(t) => exists|i: int|
                0 <= i < split_on(t, '\0').len() && #[trigger] file_name_spec(split_on(t, '\0')[i])
                    == Some("thunderd"@),
            None => false,
        },
    }
}

/// Whether a process is the daemon (best effort, so that a stale pid file
/// never leads to signalling an unrelated process).
pub fn process_looks_like_thunderd(comm: Option<&str>, cmdline: Option<&str>) -> (b: bool)
    ensures
        b == looks_like_daemon_spec(
            match comm {
                Some(c) => Some(c@),
                None => None,
            },
            match cmdline {
                Some(t) => Some(t@),
                None => None,
            },
        ),
{
    match comm {
        Some(c) => {
            let t = trim_exec(chars_of(c).as_slice());
            let named = chars_of("thunderd");
            return crate::text::chars_eq(t.as_slice(), named.as_slice());
        },
        None => {},
    }
    let text = match cmdline {
        Some(t) => t,
        None => {
            return false;
        },
    };
    let parts = str_split(text, '\0');
    let ghost ps = split_on(text@, '\0');
    let mut i: usize = 0;
    while i < parts.len()
        invariant
            comm is None,
            cmdline == Some(text),
            ps == split_on(text@, '\0'),
            views(parts@) == ps,
            i <= ps.len(),
            forall|k: int| 0 <= k < i ==> #[trigger] file_name_spec(ps[k]) != Some("thunderd"@),
        decreases ps.len() - i,
    {
        match file_name(parts[i].as_str()) {
            Some(name) => {
                if str_eq(name.as_str(), "thunderd") {
                    assert(file_name_spec(ps[i as int]) == Some("thunderd"@));
                    return true;
                }
            },
            None => {},
        }
        i = i + 1;
    }
    false
}

// ---------------------------------------------------------------------------
// Status
// ---------------------------------------------------------------------------

/// Whether the daemon runs for a root, how many lines it indexed, and its root.
#[derive(Debug, Clone)]
pub struct DaemonStatus {
    pub running: bool,
    pub lines_indexed: Option<usize>,
    pub root: Option<String>,
}

/// The status of the daemon for `root`, from its answer to a ping (none
/// when it does not answer).
pub fn daemon_status(root: &str, ping: Option<ClientResponse>) -> (r: DaemonStatus)
    ensures
        match ping {
            Some(resp) => r.running && r.lines_indexed == resp.lines_indexed && opt_view(r.root)
                == opt_view(resp.root),
            None => !r.running && r.lines_indexed is None && opt_view(r.root) == Some(root@),
        },
{
    match ping {
        Some(resp) => DaemonStatus { running: true, lines_indexed: resp.lines_indexed, root: resp.root },
        None => DaemonStatus {
            running: false,
            lines_indexed: None,
            root: Some(String::from_str(root)),
        },
    }
}

/// What `daemon status` reports: the line count and root when the daemon
/// runs; otherwise that it does not, which is a failure.
pub open spec fn status_message_spec(status: DaemonStatus, root: Seq<char>) -> (Seq<char>, bool) {
    if status.running {
        (
            "thunderd: running ("@ + decimal(
                match status.lines_indexed {
                    Some(n) => n as nat,
                    None => 0,
                },
            ) + " lines) — "@ + root,
            false,
        )
    } else {
        ("thunderd: not running for "@ + root, true)
    }
}

/// What `daemon status` reports, and whether it is a failure.
pub fn status_message(status: &DaemonStatus, root: &str) -> (r: (String, bool))
    ensures
        (r.0@, r.1) == status_message_spec(*status, root@),
{
    if status.running {
        let n: usize = match status.lines_indexed {
            Some(n) => n,
            None => 0,
        };
        let mut m = concat("thunderd: running (", decimal_usize(n).as_str());
        m.append(" lines) — ");
        m.append(root);
        (m, false)
    } else {
        (concat("thunderd: not running for ", root), true)
    }
}

/// What `daemon stop` reports.
pub fn stop_message(stopped: bool) -> (r: &'static str)
    ensures
        r@ == (if stopped {
            "thunderd: stopped"@
        } else {
            "thunderd: not running"@
        }),
{
    if stopped {
        "thunderd: stopped"
    } else {
        "thunderd: not running"
    }
}

} // verus!
