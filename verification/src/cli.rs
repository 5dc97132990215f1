//! Command-line decisions: shells, the short binary name, option building
//! for the `search` and `pick` commands, and the text printed for a fix.
use vstd::prelude::*;

use crate::config::{detected_preview, resolve_preview, ThunderConfig};
use crate::pick::PickOptions;
use crate::safety::{preview_verdict, validate_preview_command, PreviewRejection};
use crate::search::SearchOptions;
use crate::text::{chars_of, concat, concat3, opt_view, str_eq, string_of, views};

verus! {

broadcast use vstd::string::group_string_axioms;

/// A shell with init scripts and completions.
#[derive(Debug, Clone, Copy, PartialEq, Eq, Structural)]
pub enum ShellKind {
    Zsh,
    Bash,
    Fish,
}

/// The shell's name.
pub open spec fn shell_name(s: ShellKind) -> Seq<char> {
    match s {
        ShellKind::Zsh => "zsh"@,
        ShellKind::Bash => "bash"@,
        ShellKind::Fish => "fish"@,
    }
}

impl ShellKind {
    /// The shell's name, as its init script is selected by.
    pub fn as_str(self) -> (r: &'static str)
        ensures
            r@ == shell_name(self),
    {
        match self {
            ShellKind::Zsh => "zsh",
            ShellKind::Bash => "bash",
            ShellKind::Fish => "fish",
        }
    }
}

/// The shell a name selects, when it is one of the supported shells.
pub fn shell_from_name(name: &str) -> (r: Option<ShellKind>)
    ensures
        r matches Some(s) ==> shell_name(s) == name@,
        r is None ==> name@ != "zsh"@ && name@ != "bash"@ && name@ != "fish"@,
{
    if str_eq(name, "zsh") {
        Some(ShellKind::Zsh)
    } else if str_eq(name, "bash") {
        Some(ShellKind::Bash)
    } else if str_eq(name, "fish") {
        Some(ShellKind::Fish)
    } else {
        None
    }
}

/// The text after the last `c` in `s` (all of `s` when there is none).
pub open spec fn after_last(s: Seq<char>, c: char) -> Seq<char>
    decreases s.len(),
{
    if s.len() == 0 {
        s
    } else if s.last() == c {
        Seq::empty()
    } else {
        after_last(s.drop_last(), c).push(s.last())
    }
}

/// The program was started as `tn` (or `tn.exe`): the last `/` segment of
/// its first argument, when that argument is text, is one of those.
pub open spec fn short_binary_spec(arg0: Option<Seq<char>>) -> bool {
    match arg0 {
        Some(a) => after_last(a, '/') == "tn"@ || after_last(a, '/') == "tn.exe"@,
        None => false,
    }
}

/// Whether the program runs under its short name.
pub fn is_short_binary_name(arg0: Option<&str>) -> (b: bool)
    ensures
        b == short_binary_spec(
            match arg0 {
                Some(a) => Some(a@),
                None => None,
            },
        ),
{
    match arg0 {
        None => false,
        Some(a) => {
            let cs = chars_of(a);
            let mut start: usize = cs.len();
            proof {
                assert(cs@.take(cs@.len() as int) =~= cs@);
                assert(cs@.skip(cs@.len() as int) =~= Seq::<char>::empty());
                assert(after_last(cs@, '/') + Seq::<char>::empty() =~= after_last(cs@, '/'));
            }
            while start > 0 && cs[start - 1] != '/'
                invariant
                    cs@ == a@,
                    start <= cs@.len(),
                    after_last(cs@, '/') == after_last(cs@.take(start as int), '/') + cs@.skip(
                        start as int,
                    ),
                decreases start,
            {
                proof {
                    let t = cs@.take(start as int);
                    assert(t.drop_last() =~= cs@.take(start - 1));
                    assert(cs@.skip(start - 1) =~= seq![t.last()] + cs@.skip(start as int));
                    assert(after_last(t.drop_last(), '/').push(t.last()) + cs@.skip(start as int)
                        =~= after_last(t.drop_last(), '/') + cs@.skip(start - 1));
                }
                start = start - 1;
            }
            proof {
                if start == 0 {
                    assert(cs@.take(0) =~= Seq::<char>::empty());
                } else {
                    assert(cs@.take(start as int).last() == '/');
                }
                assert(Seq::<char>::empty() + cs@.skip(start as int) =~= cs@.skip(start as int));
                assert(cs@.skip(start as int) =~= cs@.subrange(start as int, cs@.len() as int));
            }
            let base = string_of(&cs.as_slice()[start..cs.len()]);
            str_eq(base.as_str(), "tn") || str_eq(base.as_str(), "tn.exe")
        },
    }
}

/// What `fix` prints: the bare correction when it is being applied, else
/// the correction with a hint on how to apply it (in the short form when
/// run as `tn`).
pub open spec fn fix_output_spec(suggestion: Seq<char>, apply: bool, short: bool) -> Seq<char> {
    if apply {
        suggestion + "\n"@
    } else {
        "Suggested fix:\n  "@ + suggestion + "\n\n"@ + (if short {
            "Run `tn f -y` to use this correction."@
        } else {
            "Run `thunder fix --apply` to use this correction."@
        }) + "\n"@
    }
}

/// The text `fix` prints.
pub fn fix_output_text(suggestion: &str, apply: bool, short: bool) -> (r: String)
    ensures
        r@ == fix_output_spec(suggestion@, apply, short),
{
    if apply {
        return concat(suggestion, "\n");
    }
    let hint = if short {
        "Run `tn f -y` to use this correction."
    } else {
        "Run `thunder fix --apply` to use this correction."
    };
    let mut r = concat3("Suggested fix:\n  ", suggestion, "\n\n");
    r.append(hint);
    r.append("\n");
    r
}

/// How `config` is used without `--init`.
pub fn config_usage(short: bool) -> (r: &'static str)
    ensures
        r@ == (if short {
            "usage: tn c --init"@
        } else {
            "usage: thunder config --init"@
        }),
{
    if short {
        "usage: tn c --init"
    } else {
        "usage: thunder config --init"
    }
}

/// The preview the `pick` command falls back to: the configured or
/// detected one (from which candidate programs answered).
pub fn options_preview(config: &ThunderConfig, available: &[bool]) -> (r: Option<String>)
    ensures
        r matches Some(p) && p@ == match config.pick.preview {
            Some(q) => q@,
            None => detected_preview(available@),
        },
{
    Some(resolve_preview(config, available))
}

/// Options for `search`, from the configuration and the command line: a
/// preview given on the command line must pass `validate_preview_command`.
pub fn search_command_options(
    config: ThunderConfig,
    cwd: String,
    paths: Vec<String>,
    ignore_case: bool,
    fixed_strings: bool,
    fzf: bool,
    multi: bool,
    preview: Option<String>,
    rg: Option<String>,
    no_daemon: bool,
) -> (r: Result<SearchOptions, PreviewRejection>)
    ensures
        match preview {
            Some(p) => preview_verdict(
                p@,
                match r {
                    Ok(_) => Ok(()),
                    Err(e) => Err(e),
                },
            ),
            None => r is Ok,
        },
        r matches Ok(o) ==> {
            &&& o.cwd@ == cwd@
            &&& views(o.paths@) == views(paths@)
            &&& o.case_insensitive == ignore_case
            &&& o.fixed_strings == fixed_strings
            &&& opt_view(o.rg_path) == opt_view(rg)
            &&& o.use_fzf == (fzf || config.pick.use_fzf)
            &&& opt_view(o.preview_cmd) == match preview {
                Some(p) => Some(p@),
                None => opt_view(config.pick.preview),
            }
            &&& o.pick.multi == multi
            &&& o.pick.height@ == config.pick.height@
            &&& o.pick.reverse && o.pick.preview_cmd is None && o.pick.query is None
            &&& o.pick.prompt@ == "> "@
            &&& o.use_daemon == !no_daemon
            &&& o.config == config
        },
{
    let use_fzf = fzf || config.pick.use_fzf;
    let mut options = SearchOptions::from_config(config, cwd);
    match preview {
        Some(p) => {
            match validate_preview_command(p.as_str()) {
                Err(e) => {
                    return Err(e);
                },
                Ok(()) => {},
            }
            options.preview_cmd = Some(p);
        },
        None => {},
    }
    options.paths = paths;
    options.case_insensitive = ignore_case;
    options.fixed_strings = fixed_strings;
    options.rg_path = rg;
    options.use_fzf = use_fzf;
    options.pick.multi = multi;
    options.use_daemon = !no_daemon;
    Ok(options)
}

/// Options for `pick`: from the configuration, with the selection mode and
/// query of the command line, and its preview (which must pass
/// `validate_preview_command`) or else the configured or detected one.
pub fn pick_command_options(
    config: &ThunderConfig,
    multi: bool,
    query: Option<String>,
    preview: Option<String>,
    available: &[bool],
) -> (r: Result<PickOptions, PreviewRejection>)
    ensures
        match preview {
            Some(p) => preview_verdict(
                p@,
                match r {
                    Ok(_) => Ok(()),
                    Err(e) => Err(e),
                },
            ),
            None => r is Ok,
        },
        r matches Ok(o) ==> {
            &&& o.multi == multi
            &&& o.height@ == config.pick.height@
            &&& o.reverse == config.pick.reverse
            &&& o.prompt@ == config.pick.prompt@
            &&& opt_view(o.query) == opt_view(query)
            &&& opt_view(o.preview_cmd) == Some(
                match preview {
                    Some(p) => p@,
                    None => match config.pick.preview {
                        Some(q) => q@,
                        None => detected_preview(available@),
                    },
                },
            )
        },
{
    match &preview {
        Some(p) => match validate_preview_command(p.as_str()) {
            Err(e) => {
                return Err(e);
            },
            Ok(()) => {},
        },
        None => {},
    }
    let mut options = PickOptions::from_config(config);
    options.multi = multi;
    options.preview_cmd = match preview {
        Some(p) => Some(p),
        None => options_preview(config, available),
    };
    options.query = query;
    Ok(options)
}

} // verus!
