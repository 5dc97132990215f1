//! The `doctor` report: what was found on this machine, line by line.
use vstd::prelude::*;

use crate::control::DaemonStatus;
use crate::text::{concat, concat3, decimal, decimal_usize, opt_view, views};

verus! {

broadcast use vstd::string::group_string_axioms;

/// What `doctor` found out about this machine.
#[derive(Debug)]
pub struct DoctorFacts {
    /// The running executable.
    pub exe: Option<String>,
    /// The ripgrep binary found.
    pub ripgrep: Option<String>,
    /// The daemon binary next to the executable.
    pub thunderd: Option<String>,
    /// The `thefuck` binary found.
    pub thefuck: Option<String>,
    /// The configuration file, when it exists.
    pub config_file: Option<String>,
    /// The data directory, when it exists.
    pub data_dir: Option<String>,
    /// The daemon's status, or why it could not be learned.
    pub daemon: Result<DaemonStatus, String>,
    /// Whether the daemon answers for the root.
    pub socket_reachable: bool,
    /// The project root.
    pub root: String,
    /// Whether the shell integration set `THUNDER_LAST_CMD`.
    pub last_cmd_set: bool,
    /// Whether `EDITOR` or `VISUAL` is set.
    pub editor_env_set: bool,
    /// Whether the configuration names an editor.
    pub editor_configured: bool,
}

/// The line about a binary.
pub open spec fn binary_line(name: Seq<char>, path: Option<Seq<char>>) -> Seq<char> {
    match path {
        Some(p) => "[ok] "@ + name + ": "@ + p,
        None => "[fail] "@ + name + ": not found"@,
    }
}

/// The line about the daemon's status.
pub open spec fn daemon_line(daemon: Result<DaemonStatus, String>) -> Seq<char> {
    match daemon {
        Ok(s) => if s.running {
            "[ok] thunderd running ("@ + decimal(
                match s.lines_indexed {
                    Some(n) => n as nat,
                    None => 0,
                },
            ) + " lines indexed)"@
        } else {
            "[warn] thunderd not running — run `tn d st` for fast search"@
        },
        Err(e) => "[warn] daemon check failed: "@ + e@,
    }
}

/// The report, line by line (empty lines separate its sections).
pub open spec fn doctor_report_spec(f: DoctorFacts) -> Seq<Seq<char>> {
    seq!["Thunder Doctor"@, "=============="@, Seq::empty()] + seq![
        binary_line("tn / thunder"@, opt_view(f.exe)),
        binary_line("ripgrep"@, opt_view(f.ripgrep)),
        binary_line("thunderd"@, opt_view(f.thunderd)),
        binary_line("thefuck (optional)"@, opt_view(f.thefuck)),
        Seq::empty(),
        match f.config_file {
            Some(p) => "[ok] config: "@ + p@,
            None => "[warn] config missing — run `tn c --init`"@,
        },
        match f.data_dir {
            Some(d) => "[ok] data dir: "@ + d@,
            None => "[warn] data dir will be created on first use"@,
        },
        Seq::empty(),
        daemon_line(f.daemon),
    ] + (if f.socket_reachable {
        seq!["[ok] daemon socket reachable for "@ + f.root@]
    } else {
        Seq::empty()
    }) + seq![
        Seq::empty(),
        if f.last_cmd_set {
            "[ok] shell integration: THUNDER_LAST_CMD is set"@
        } else {
            "[warn] shell integration not loaded — run `eval \"$(tn i zsh)\"`"@
        },
        if f.editor_env_set {
            "[ok] editor env var set"@
        } else if f.editor_configured {
            "[ok] editor configured in config"@
        } else {
            "[hint] set EDITOR or general.editor for --open support"@
        },
    ]
}

/// The line about a binary.
fn binary_report(name: &str, path: &Option<String>) -> (r: String)
    ensures
        r@ == binary_line(name@, opt_view(*path)),
{
    match path {
        Some(p) => {
            let mut r = concat3("[ok] ", name, ": ");
            r.append(p.as_str());
            r
        },
        None => concat3("[fail] ", name, ": not found"),
    }
}

/// The line about the daemon's status.
fn daemon_report(daemon: &Result<DaemonStatus, String>) -> (r: String)
    ensures
        r@ == daemon_line(*daemon),
{
    match daemon {
        Ok(s) => if s.running {
            let n: usize = match s.lines_indexed {
                Some(n) => n,
                None => 0,
            };
            concat3("[ok] thunderd running (", decimal_usize(n).as_str(), " lines indexed)")
        } else {
            String::from_str("[warn] thunderd not running — run `tn d st` for fast search")
        },
        Err(e) => concat("[warn] daemon check failed: ", e.as_str()),
    }
}

/// The report, line by line.
pub fn doctor_report(f: &DoctorFacts) -> (r: Vec<String>)
    ensures
        views(r@) == doctor_report_spec(*f),
{
    let mut r: Vec<String> = Vec::new();
    r.push(String::from_str("Thunder Doctor"));
    r.push(String::from_str("=============="));
    r.push(String::new());
    r.push(binary_report("tn / thunder", &f.exe));
    r.push(binary_report("ripgrep", &f.ripgrep));
    r.push(binary_report("thunderd", &f.thunderd));
    r.push(binary_report("thefuck (optional)", &f.thefuck));
    r.push(String::new());
    r.push(
        match &f.config_file {
            Some(p) => concat("[ok] config: ", p.as_str()),
            None => String::from_str("[warn] config missing — run `tn c --init`"),
        },
    );
    r.push(
        match &f.data_dir {
            Some(d) => concat("[ok] data dir: ", d.as_str()),
            None => String::from_str("[warn] data dir will be created on first use"),
        },
    );
    r.push(String::new());
    r.push(daemon_report(&f.daemon));
    let ghost first = views(r@);
    if f.socket_reachable {
        r.push(concat("[ok] daemon socket reachable for ", f.root.as_str()));
    }
    let ghost second = views(r@);
    r.push(String::new());
    r.push(
        if f.last_cmd_set {
            String::from_str("[ok] shell integration: THUNDER_LAST_CMD is set")
        } else {
            String::from_str("[warn] shell integration not loaded — run `eval \"$(tn i zsh)\"`")
        },
    );
    r.push(
        if f.editor_env_set {
            String::from_str("[ok] editor env var set")
        } else if f.editor_configured {
            String::from_str("[ok] editor configured in config")
        } else {
            String::from_str("[hint] set EDITOR or general.editor for --open support")
        },
    );
    proof {
        assert(views(r@) =~= doctor_report_spec(*f));
    }
    r
}

} // verus!
