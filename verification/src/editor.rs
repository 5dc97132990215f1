//! The editor: which one to use, how its command line is split into an
//! argument vector (never through a shell), and the arguments it is
//! started with.
use vstd::prelude::*;

use shell_words::ParseError;

use crate::config::ThunderConfig;
use crate::text::{chars_of, concat, decimal, decimal_string, trim, trim_exec, views};

verus! {

broadcast use vstd::string::group_string_axioms;

/// `shell_words::ParseError`, the error of an unterminated quote.
#[verifier::external_type_specification]
#[verifier::external_body]
pub struct ExParseError(ParseError);

/// The words that `shell_words::split` makes of a command line (POSIX
/// shell word splitting with quote removal), or `None` where it reports a
/// parse error.
pub uninterp spec fn shell_split(s: Seq<char>) -> Option<Seq<Seq<char>>>;

/// `shell_words::split`, trusted to give the words `shell_split` names for
/// the input and to fail exactly where `shell_split` is `None`.
#[verifier::external_body]
fn split_words(s: &str) -> (r: Result<Vec<String>, ParseError>)
    ensures
        match r {
            Ok(v) => shell_split(s@) == Some(views(v@)),
            Err(_) => shell_split(s@) is None,
        },
{
    shell_words::split(s)
}

/// Why an editor command cannot be used.
#[derive(Debug, Clone, Copy, PartialEq, Eq, Structural)]
pub enum EditorError {
    /// It has an unterminated quote.
    Unparsable,
    /// It has no words.
    Empty,
}

/// The argument vector of an editor command, from its split words (`None`
/// when splitting failed): an error when splitting failed or gave no word.
pub fn argv_from_words(words: Option<Vec<String>>) -> (r: Result<Vec<String>, EditorError>)
    ensures
        match words {
            None => r == Err::<Vec<String>, EditorError>(EditorError::Unparsable),
            Some(w) => if w@.len() == 0 {
                r == Err::<Vec<String>, EditorError>(EditorError::Empty)
            } else {
                r matches Ok(v) && v@ == w@
            },
        },
{
    match words {
        None => Err(EditorError::Unparsable),
        Some(w) => if w.len() == 0 {
            Err(EditorError::Empty)
        } else {
            Ok(w)
        },
    }
}

/// Split an editor command into argv without invoking a shell.
pub fn editor_argv(editor: &str) -> (r: Result<Vec<String>, EditorError>)
    ensures
        match shell_split(editor@) {
            None => r == Err::<Vec<String>, EditorError>(EditorError::Unparsable),
            Some(w) => if w.len() == 0 {
                r == Err::<Vec<String>, EditorError>(EditorError::Empty)
            } else {
                r matches Ok(v) && views(v@) == w
            },
        },
{
    let words = match split_words(editor) {
        Ok(v) => Some(v),
        Err(_) => None,
    };
    argv_from_words(words)
}

/// The editor to use: the configured one, else the first of the
/// environment's `THUNDER_EDITOR`, `VISUAL` and `EDITOR` (given in that
/// order in `env`) that is set to more than white space, else `vi`.
pub open spec fn editor_spec(configured: Option<Seq<char>>, env: Seq<Option<Seq<char>>>) -> Seq<char>
    decreases env.len(),
{
    match configured {
        Some(e) => e,
        None => if env.len() == 0 {
            "vi"@
        } else {
            match env[0] {
                Some(v) => if trim(v).len() > 0 {
                    v
                } else {
                    editor_spec(None, env.drop_first())
                },
                None => editor_spec(None, env.drop_first()),
            }
        },
    }
}

/// The views of optional strings.
pub open spec fn opt_views(v: Seq<Option<String>>) -> Seq<Option<Seq<char>>> {
    v.map_values(
        |o: Option<String>|
            match o {
                Some(s) => Some(s@),
                None => None,
            },
    )
}

/// The editor to use.
pub fn resolve_editor(config: &ThunderConfig, env: &Vec<Option<String>>) -> (r: String)
    ensures
        r@ == editor_spec(
            match config.general.editor {
                Some(e) => Some(e@),
                None => None,
            },
            opt_views(env@),
        ),
{
    match &config.general.editor {
        Some(e) => {
            return String::from_str(e.as_str());
        },
        None => {},
    }
    let ghost ev = opt_views(env@);
    let mut i: usize = 0;
    proof {
        assert(ev.skip(0) =~= ev);
    }
    while i < env.len()
        invariant
            config.general.editor is None,
            ev == opt_views(env@),
            i <= ev.len(),
            editor_spec(None, ev) == editor_spec(None, ev.skip(i as int)),
        decreases ev.len() - i,
    {
        proof {
            assert(ev.skip(i as int).drop_first() =~= ev.skip(i + 1));
            assert(ev.skip(i as int)[0] == ev[i as int]);
        }
        match &env[i] {
            Some(v) => {
                let t = trim_exec(chars_of(v.as_str()).as_slice());
                if t.len() > 0 {
                    return String::from_str(v.as_str());
                }
            },
            None => {},
        }
        i = i + 1;
    }
    String::from_str("vi")
}

/// The editor's arguments after its program: its own flags, then `+<line>`
/// when a line is asked for, then the file.
pub open spec fn editor_args_spec(argv: Seq<Seq<char>>, line: Option<u64>, path: Seq<char>) -> Seq<Seq<char>> {
    argv.drop_first() + (match line {
        Some(l) => seq!["+"@ + decimal(l as nat)],
        None => Seq::empty(),
    }) + seq![path]
}

/// The arguments the editor is started with (its program is `argv[0]`).
pub fn editor_args(argv: &Vec<String>, line: Option<u64>, path: &str) -> (r: Vec<String>)
    requires
        argv@.len() > 0,
    ensures
        views(r@) == editor_args_spec(views(argv@), line, path@),
{
    let ghost av = views(argv@);
    let mut r: Vec<String> = Vec::new();
    let mut i: usize = 1;
    while i < argv.len()
        invariant
            av == views(argv@),
            1 <= i <= av.len(),
            views(r@) == av.subrange(1, i as int),
        decreases av.len() - i,
    {
        let ghost b = r@;
        r.push(String::from_str(argv[i].as_str()));
        proof {
            assert(views(r@) =~= views(b).push(av[i as int]));
            assert(av.subrange(1, i + 1) =~= av.subrange(1, i as int).push(av[i as int]));
        }
        i = i + 1;
    }
    proof {
        assert(av.subrange(1, av.len() as int) =~= av.drop_first());
    }
    let ghost before = views(r@);
    match line {
        Some(l) => {
            r.push(concat("+", decimal_string(l).as_str()));
        },
        None => {},
    }
    r.push(String::from_str(path));
    proof {
        assert(views(r@) =~= editor_args_spec(av, line, path@));
    }
    r
}

} // verus!
