//! Guards against shell injection and path escapes: preview commands,
//! commands about to be run, and relative paths from the index.
use vstd::prelude::*;

use crate::config::{join_path, join_path_exec};
use crate::text::{
    chars_of, contains, has_char, lemma_split_on_nonempty, split_on, str_contains, str_eq, str_has_char,
    str_split, trim, trim_exec, views,
};

verus! {

broadcast use vstd::string::group_string_axioms;

// ---------------------------------------------------------------------------
// Preview commands
// ---------------------------------------------------------------------------

/// Why a preview command was refused.
#[derive(Debug, Clone)]
pub enum PreviewRejection {
    /// The command is empty.
    Empty,
    /// The command holds this shell token.
    UnsafeToken(String),
    /// The command has no `{1}` placeholder for the file path.
    MissingPlaceholder,
}

/// The shell tokens a preview command may not hold, in the order they are checked.
pub open spec fn forbidden_tokens() -> Seq<Seq<char>> {
    seq![";"@, "|"@, "&"@, "$"@, "`"@, "$("@, "\n"@, "\r"@]
}

/// The first forbidden token among `tokens` that `cmd` holds.
pub open spec fn first_token_in(cmd: Seq<char>, tokens: Seq<Seq<char>>) -> Option<Seq<char>>
    decreases tokens.len(),
{
    if tokens.len() == 0 {
        None
    } else if contains(cmd, tokens[0]) {
        Some(tokens[0])
    } else {
        first_token_in(cmd, tokens.drop_first())
    }
}

/// The forbidden tokens, in order.
fn forbidden_token_list() -> (r: Vec<&'static str>)
    ensures
        r@.map_values(|t: &str| t@) == forbidden_tokens(),
{
    let mut v: Vec<&'static str> = Vec::new();
    v.push(";");
    v.push("|");
    v.push("&");
    v.push("$");
    v.push("`");
    v.push("$(");
    v.push("\n");
    v.push("\r");
    assert(v@.map_values(|t: &str| t@) =~= forbidden_tokens());
    v
}

/// The verdict on preview command `cmd`: it must be non-empty, hold none of
/// `; | & $ \` $( \n \r`, and include the `{1}` file placeholder; the
/// first failing check is the one reported.
pub open spec fn preview_verdict(cmd: Seq<char>, r: Result<(), PreviewRejection>) -> bool {
    if cmd.len() == 0 {
        r matches Err(PreviewRejection::Empty)
    } else {
        match first_token_in(cmd, forbidden_tokens()) {
            Some(t) => r matches Err(PreviewRejection::UnsafeToken(u)) && u@ == t,
            None => if contains(cmd, "{1}"@) {
                r is Ok
            } else {
                r matches Err(PreviewRejection::MissingPlaceholder)
            },
        }
    }
}

/// Check a preview command before it is handed to the picker.
pub fn validate_preview_command(cmd: &str) -> (r: Result<(), PreviewRejection>)
    ensures
        preview_verdict(cmd@, r),
{
    if cmd.is_empty() {
        return Err(PreviewRejection::Empty);
    }
    let tokens = forbidden_token_list();
    let ghost ts = tokens@.map_values(|t: &str| t@);
    let mut i: usize = 0;
    assert(ts.skip(0) =~= ts);
    while i < tokens.len()
        invariant
            ts == tokens@.map_values(|t: &str| t@),
            ts == forbidden_tokens(),
            cmd@.len() > 0,
            i <= ts.len(),
            first_token_in(cmd@, ts) == first_token_in(cmd@, ts.skip(i as int)),
        decreases ts.len() - i,
    {
        proof {
            assert(ts.skip(i as int).drop_first() =~= ts.skip(i + 1));
            assert(ts.skip(i as int)[0] == tokens@[i as int]@);
        }
        let token = tokens[i];
        if str_contains(cmd, token) {
            return Err(PreviewRejection::UnsafeToken(String::from_str(token)));
        }
        i = i + 1;
    }
    if !str_contains(cmd, "{1}") {
        return Err(PreviewRejection::MissingPlaceholder);
    }
    Ok(())
}

/// `first_token_in` finds nothing only when `cmd` holds none of the tokens.
proof fn lemma_no_token(cmd: Seq<char>, tokens: Seq<Seq<char>>)
    requires
        first_token_in(cmd, tokens) is None,
    ensures
        forall|i: int| 0 <= i < tokens.len() ==> !contains(cmd, #[trigger] tokens[i]),
    decreases tokens.len(),
{
    if tokens.len() > 0 {
        lemma_no_token(cmd, tokens.drop_first());
        assert forall|i: int| 0 <= i < tokens.len() implies !contains(cmd, #[trigger] tokens[i]) by {
            if i > 0 {
                assert(tokens[i] == tokens.drop_first()[i - 1]);
            }
        }
    }
}

/// A preview command that is accepted holds none of the shell tokens
/// `; | & $ \` $( \n \r` and names the file with `{1}`.
pub proof fn lemma_accepted_preview_safe(cmd: Seq<char>)
    requires
        preview_verdict(cmd, Ok(())),
    ensures
        forall|i: int| 0 <= i < forbidden_tokens().len() ==> !contains(cmd, #[trigger] forbidden_tokens()[i]),
        contains(cmd, "{1}"@),
{
    lemma_no_token(cmd, forbidden_tokens());
}

// ---------------------------------------------------------------------------
// Commands about to run
// ---------------------------------------------------------------------------

/// Why a command was refused before running it.
#[derive(Debug, Clone, Copy, PartialEq, Eq, Structural)]
pub enum CommandRejection {
    /// Nothing but white space.
    Empty,
    /// It spans several lines.
    Multiline,
    /// It holds a known destructive pattern.
    Blocked,
}

/// Known destructive patterns.
pub open spec fn blocked_patterns() -> Seq<Seq<char>> {
    seq!["rm -rf /"@, ":(){ :|:& };:"@, "mkfs"@, "dd if="@, "> /dev/sd"@]
}

/// The verdict on a command about to be run: `None` when it may run.
pub open spec fn command_verdict(cmd: Seq<char>) -> Option<CommandRejection> {
    let t = trim(cmd);
    if t.len() == 0 {
        Some(CommandRejection::Empty)
    } else if has_char(t, '\n') || has_char(t, '\r') {
        Some(CommandRejection::Multiline)
    } else if exists|i: int| 0 <= i < blocked_patterns().len() && contains(t, blocked_patterns()[i]) {
        Some(CommandRejection::Blocked)
    } else {
        None
    }
}

/// Block obviously dangerous commands before execution: empty ones,
/// multi-line ones, and those holding a known destructive pattern.
pub fn validate_safe_command(command: &str) -> (r: Result<(), CommandRejection>)
    ensures
        match command_verdict(command@) {
            None => r is Ok,
            Some(e) => r == Err::<(), CommandRejection>(e),
        },
{
    let cs = chars_of(command);
    let t = trim_exec(cs.as_slice());
    let ts = crate::text::string_of(t.as_slice());
    if t.len() == 0 {
        return Err(CommandRejection::Empty);
    }
    if str_has_char(ts.as_str(), '\n') || str_has_char(ts.as_str(), '\r') {
        return Err(CommandRejection::Multiline);
    }
    let mut patterns: Vec<&'static str> = Vec::new();
    patterns.push("rm -rf /");
    patterns.push(":(){ :|:& };:");
    patterns.push("mkfs");
    patterns.push("dd if=");
    patterns.push("> /dev/sd");
    let ghost ps = patterns@.map_values(|p: &str| p@);
    assert(ps =~= blocked_patterns());
    let mut i: usize = 0;
    while i < patterns.len()
        invariant
            ps == patterns@.map_values(|p: &str| p@),
            ps == blocked_patterns(),
            ts@ == trim(command@),
            ts@.len() > 0,
            !has_char(ts@, '\n') && !has_char(ts@, '\r'),
            i <= ps.len(),
            forall|k: int| 0 <= k < i ==> !contains(ts@, ps[k]),
        decreases ps.len() - i,
    {
        if str_contains(ts.as_str(), patterns[i]) {
            assert(contains(ts@, blocked_patterns()[i as int]));
            return Err(CommandRejection::Blocked);
        }
        i = i + 1;
    }
    Ok(())
}

/// A command holding a known destructive pattern is never allowed to run,
/// whatever surrounds it.
pub proof fn lemma_blocked_never_runs(cmd: Seq<char>, i: int)
    requires
        0 <= i < blocked_patterns().len(),
        contains(trim(cmd), blocked_patterns()[i]),
    ensures
        command_verdict(cmd) is Some,
{
}

/// A command spanning several lines is never allowed to run.
pub proof fn lemma_multiline_never_runs(cmd: Seq<char>)
    requires
        has_char(trim(cmd), '\n') || has_char(trim(cmd), '\r'),
    ensures
        command_verdict(cmd) == Some(CommandRejection::Multiline) || command_verdict(cmd) == Some(
            CommandRejection::Empty,
        ),
{
}

// ---------------------------------------------------------------------------
// Relative paths
// ---------------------------------------------------------------------------

/// A piece between slashes that is a component of its own: not empty
/// (repeated and trailing slashes) and not `.` (which Unix paths drop).
pub open spec fn is_normal_piece(p: Seq<char>) -> bool {
    p.len() > 0 && p != "."@
}

/// The pieces of `ps` that are components of their own, in order.
pub open spec fn normal_pieces(ps: Seq<Seq<char>>) -> Seq<Seq<char>>
    decreases ps.len(),
{
    if ps.len() == 0 {
        Seq::empty()
    } else if is_normal_piece(ps.last()) {
        normal_pieces(ps.drop_last()).push(ps.last())
    } else {
        normal_pieces(ps.drop_last())
    }
}

/// The components of a Unix path (`Path::components`), each as its text:
/// `/` for the root of an absolute path, `.` for a leading current
/// directory of a relative one, `..` for a parent directory, and the names
/// between slashes; empty pieces and inner `.` pieces are dropped.
pub open spec fn path_components(s: Seq<char>) -> Seq<Seq<char>> {
    let pieces = split_on(s, '/');
    (if s.len() > 0 && s[0] == '/' {
        seq!["/"@]
    } else if pieces[0] == "."@ {
        seq!["."@]
    } else {
        Seq::empty()
    }) + normal_pieces(pieces)
}

/// Whether a piece of text is exactly `.`.
fn is_dot(p: &str) -> (b: bool)
    ensures
        b == (p@ == "."@),
{
    str_eq(p, ".")
}

/// The components of a Unix path, each as its text.
pub fn path_components_exec(s: &str) -> (r: Vec<String>)
    ensures
        views(r@) == path_components(s@),
{
    let pieces = str_split(s, '/');
    proof {
        lemma_split_on_nonempty(s@, '/');
        reveal_strlit("/");
        reveal_strlit(".");
    }
    let cs = chars_of(s);
    let mut r: Vec<String> = Vec::new();
    if cs.len() > 0 && cs[0] == '/' {
        r.push(String::from_str("/"));
    } else if is_dot(pieces[0].as_str()) {
        r.push(String::from_str("."));
    }
    let ghost head = views(r@);
    let mut i: usize = 0;
    while i < pieces.len()
        invariant
            i <= pieces@.len(),
            views(pieces@) == split_on(s@, '/'),
            views(r@) == head + normal_pieces(views(pieces@).take(i as int)),
        decreases pieces@.len() - i,
    {
        let ghost before = r@;
        proof {
            assert(views(pieces@).take(i + 1).drop_last() =~= views(pieces@).take(i as int));
            assert(views(pieces@).take(i + 1).last() == pieces@[i as int]@);
        }
        let p = pieces[i].as_str();
        let pc = chars_of(p);
        let ghost pre = views(pieces@).take(i as int);
        let ghost next = views(pieces@).take(i + 1);
        if pc.len() > 0 && !is_dot(p) {
            r.push(String::from_str(p));
            proof {
                assert(is_normal_piece(next.last()));
                assert(normal_pieces(next) == normal_pieces(pre).push(p@));
                assert(views(r@) =~= views(before).push(p@));
                assert(views(r@) =~= head + normal_pieces(next));
            }
        } else {
            proof {
                assert(!is_normal_piece(next.last()));
                assert(normal_pieces(next) == normal_pieces(pre));
            }
        }
        i = i + 1;
    }
    proof {
        assert(views(pieces@).take(pieces@.len() as int) =~= views(pieces@));
    }
    r
}

/// `p` has a `..` (parent directory) component.
pub open spec fn has_parent_component(p: Seq<char>) -> bool {
    path_components(p).contains(".."@)
}

/// Whether a relative path stays below its base: it has no `..` component.
pub fn is_safe_relative_path(path: &str) -> (b: bool)
    ensures
        b == !has_parent_component(path@),
{
    let comps = path_components_exec(path);
    let mut i: usize = 0;
    while i < comps.len()
        invariant
            i <= comps@.len(),
            views(comps@) == path_components(path@),
            forall|k: int| 0 <= k < i ==> views(comps@)[k] != ".."@,
        decreases comps@.len() - i,
    {
        if str_eq(comps[i].as_str(), "..") {
            assert(views(comps@)[i as int] == ".."@);
            return false;
        }
        i = i + 1;
    }
    true
}

/// Why a path was refused.
#[derive(Debug, Clone, Copy, PartialEq, Eq, Structural)]
pub enum PathError {
    /// The resolved path lies outside the project root.
    EscapesRoot,
}

/// The path to resolve for `path` inside `root`: `path` itself when it is
/// absolute, else `root` joined with it.
pub fn join_target(root: &str, path: &str) -> (r: String)
    ensures
        r@ == (if path@.len() > 0 && path@[0] == '/' {
            path@
        } else {
            join_path(root@, path@)
        }),
{
    join_path_exec(root, path)
}

/// Accept a resolved path only when it lies under the root: the root's
/// components are the first components of the path (`Path::starts_with`).
pub fn check_within_root(root: &str, canonical: &str) -> (r: Result<(), PathError>)
    ensures
        r is Ok <==> path_components(root@).is_prefix_of(path_components(canonical@)),
        r matches Err(e) ==> e == PathError::EscapesRoot,
{
    let a = path_components_exec(root);
    let b = path_components_exec(canonical);
    assert(views(a@).len() == a@.len() && views(b@).len() == b@.len());
    if a.len() > b.len() {
        return Err(PathError::EscapesRoot);
    }
    let mut i: usize = 0;
    while i < a.len()
        invariant
            views(a@) == path_components(root@),
            views(b@) == path_components(canonical@),
            a@.len() <= b@.len(),
            i <= a@.len(),
            forall|k: int| 0 <= k < i ==> views(a@)[k] == views(b@)[k],
        decreases a@.len() - i,
    {
        if !str_eq(a[i].as_str(), b[i].as_str()) {
            proof {
                assert(views(a@)[i as int] == a@[i as int]@);
                assert(views(b@)[i as int] == b@[i as int]@);
                if views(a@).is_prefix_of(views(b@)) {
                    assert(views(a@)[i as int] == views(b@).subrange(0, views(a@).len() as int)[i as int]);
                }
            }
            return Err(PathError::EscapesRoot);
        }
        i = i + 1;
    }
    assert(views(a@) =~= views(b@).subrange(0, views(a@).len() as int));
    Ok(())
}

} // verus!
