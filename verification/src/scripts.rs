//! Project scripts offered by the palette: `npm run` scripts from
//! `package.json` and targets from a `Makefile`.
use vstd::prelude::*;

use crate::text::{
    chars_of, concat, find_from, find_from_exec, lemma_find_from, has_char, is_ws, lines_spec, occurs_at,
    slice_chars, str_has_char, str_lines, string_of, trim, trim_end, trim_exec, trim_start,
};

verus! {

broadcast use vstd::string::group_string_axioms;

/// The views of labelled commands.
pub open spec fn pair_views(v: Seq<(String, String)>) -> Seq<(Seq<char>, Seq<char>)> {
    v.map_values(|p: (String, String)| (p.0@, p.1@))
}

/// The most Makefile targets offered.
pub const MAX_MAKE_TARGETS: usize = 20;

/// The target a Makefile line declares: the trimmed text before its first
/// `:`, for a trimmed line that is neither empty, a comment nor a special
/// `.` line, when that text is non-empty, does not start with `.` and holds
/// no `%` (pattern rules are left out).
pub open spec fn make_target(line: Seq<char>) -> Option<Seq<char>> {
    let t = trim(line);
    if t.len() == 0 || t[0] == '#' || t[0] == '.' {
        None
    } else {
        match find_from(t, seq![':'], 0) {
            None => None,
            Some(i) => {
                let target = trim(t.take(i));
                if target.len() == 0 || target[0] == '.' || has_char(target, '%') {
                    None
                } else {
                    Some(target)
                }
            },
        }
    }
}

/// The targets declared by `lines`, in order.
pub open spec fn make_targets(lines: Seq<Seq<char>>) -> Seq<Seq<char>>
    decreases lines.len(),
{
    if lines.len() == 0 {
        Seq::empty()
    } else {
        let before = make_targets(lines.drop_last());
        match make_target(lines.last()) {
            Some(t) => before.push(t),
            None => before,
        }
    }
}

/// `make <target>` as both label and command, for the first
/// `MAX_MAKE_TARGETS` targets of `text`.
pub open spec fn makefile_scripts(text: Seq<char>) -> Seq<(Seq<char>, Seq<char>)> {
    let targets = make_targets(lines_spec(text));
    let kept = if targets.len() > MAX_MAKE_TARGETS {
        targets.take(MAX_MAKE_TARGETS as int)
    } else {
        targets
    };
    kept.map_values(|t: Seq<char>| ("make "@ + t, "make "@ + t))
}

/// The target one Makefile line declares.
pub fn make_target_of(line: &str) -> (r: Option<String>)
    ensures
        match make_target(line@) {
            Some(t) => r matches Some(s) && s@ == t,
            None => r is None,
        },
{
    let t = trim_exec(chars_of(line).as_slice());
    if t.len() == 0 || t[0] == '#' || t[0] == '.' {
        return None;
    }
    let colon: Vec<char> = vec![':'];
    proof {
        assert(colon@ =~= seq![':']);
    }
    match find_from_exec(t.as_slice(), colon.as_slice(), 0) {
        None => None,
        Some(i) => {
            proof {
                lemma_find_from(t@, colon@, 0);
            }
            let head = slice_chars(t.as_slice(), 0, i);
            proof {
                assert(head@ =~= t@.take(i as int));
            }
            let target = trim_exec(head.as_slice());
            if target.len() == 0 || target[0] == '.' {
                return None;
            }
            let s = string_of(target.as_slice());
            if str_has_char(s.as_str(), '%') {
                None
            } else {
                Some(s)
            }
        },
    }
}

/// The scripts a Makefile offers: `make <target>` for its first twenty
/// targets.
pub fn parse_makefile(text: &str) -> (r: Vec<(String, String)>)
    ensures
        pair_views(r@) == makefile_scripts(text@),
        r@.len() <= MAX_MAKE_TARGETS,
{
    let lines = str_lines(text);
    let ghost ls = lines_spec(text@);
    let mut r: Vec<(String, String)> = Vec::new();
    let mut i: usize = 0;
    while i < lines.len() && r.len() < MAX_MAKE_TARGETS
        invariant
            lines@.map_values(|s: String| s@) == ls,
            i <= lines@.len(),
            r@.len() <= MAX_MAKE_TARGETS,
            r@.len() == make_targets(ls.take(i as int)).len(),
            pair_views(r@) == make_targets(ls.take(i as int)).map_values(
                |t: Seq<char>| ("make "@ + t, "make "@ + t),
            ),
        decreases lines@.len() - i,
    {
        proof {
            assert(ls.take(i + 1).drop_last() =~= ls.take(i as int));
            assert(ls.take(i + 1).last() == lines@[i as int]@);
        }
        match make_target_of(lines[i].as_str()) {
            Some(t) => {
                let label = concat("make ", t.as_str());
                let cmd = concat("make ", t.as_str());
                let ghost before = r@;
                r.push((label, cmd));
                proof {
                    assert(pair_views(r@) =~= pair_views(before).push(("make "@ + t@, "make "@ + t@)));
                }
            },
            None => {},
        }
        i = i + 1;
    }
    proof {
        lemma_make_targets_grow(ls, i as int);
        let all = make_targets(ls);
        if i == ls.len() {
            assert(ls.take(i as int) =~= ls);
        } else {
            assert(all.take(all.len() as int) =~= all);
        }
    }
    r
}

/// Extending the lines only appends targets.
proof fn lemma_make_targets_grow(ls: Seq<Seq<char>>, i: int)
    requires
        0 <= i <= ls.len(),
    ensures
        make_targets(ls.take(i)).len() <= make_targets(ls).len(),
        make_targets(ls).take(make_targets(ls.take(i)).len() as int) =~= make_targets(ls.take(i)),
    decreases ls.len() - i,
{
    if i == ls.len() {
        assert(ls.take(i) =~= ls);
    } else {
        lemma_make_targets_grow(ls.drop_last(), i);
        assert(ls.drop_last().take(i) =~= ls.take(i));
        let before = make_targets(ls.drop_last());
        let small = make_targets(ls.take(i));
        assert(before.take(small.len() as int) =~= small);
        match make_target(ls.last()) {
            Some(t) => {
                assert(make_targets(ls) == before.push(t));
                assert(before.push(t).take(small.len() as int) =~= before.take(small.len() as int));
            },
            None => {},
        }
    }
}

/// The scripts of `package.json`: `npm run <name>` labels for the entries
/// of its `scripts` object, each with its command (empty when the value is
/// not a string).
pub open spec fn npm_scripts_spec(entries: Seq<(Seq<char>, Option<Seq<char>>)>) -> Seq<(Seq<char>, Seq<char>)> {
    entries.map_values(
        |e: (Seq<char>, Option<Seq<char>>)|
            (
                "npm run "@ + e.0,
                match e.1 {
                    Some(c) => c,
                    None => Seq::empty(),
                },
            ),
    )
}

/// The views of `scripts` entries: name and string value, if any.
pub open spec fn entry_views(v: Seq<(String, Option<String>)>) -> Seq<(Seq<char>, Option<Seq<char>>)> {
    v.map_values(
        |e: (String, Option<String>)|
            (
                e.0@,
                match e.1 {
                    Some(c) => Some(c@),
                    None => None,
                },
            ),
    )
}

/// `npm run` scripts from the entries of `package.json`'s `scripts` object,
/// in their order.
pub fn npm_scripts(entries: &Vec<(String, Option<String>)>) -> (r: Vec<(String, String)>)
    ensures
        pair_views(r@) == npm_scripts_spec(entry_views(entries@)),
{
    let mut r: Vec<(String, String)> = Vec::new();
    let mut i: usize = 0;
    while i < entries.len()
        invariant
            i <= entries@.len(),
            pair_views(r@) == npm_scripts_spec(entry_views(entries@.take(i as int))),
        decreases entries@.len() - i,
    {
        let label = concat("npm run ", entries[i].0.as_str());
        let cmd = match &entries[i].1 {
            Some(c) => String::from_str(c.as_str()),
            None => String::new(),
        };
        let ghost before = r@;
        r.push((label, cmd));
        proof {
            assert(entries@.take(i + 1) =~= entries@.take(i as int).push(entries@[i as int]));
            assert(pair_views(r@) =~= pair_views(before).push((label@, cmd@)));
            assert(npm_scripts_spec(entry_views(entries@.take(i + 1))) =~= npm_scripts_spec(
                entry_views(entries@.take(i as int)),
            ).push((label@, cmd@)));
        }
        i = i + 1;
    }
    proof {
        assert(entries@.take(entries@.len() as int) =~= entries@);
    }
    r
}

/// What `serde_json` reads from `text` under its top-level member `key`:
/// `None` when the text is not valid JSON; `Some(None)` when it parses but
/// has no such member or the member is not an object; otherwise the
/// member's entries in the order in which `serde_json` walks the object
/// (name, and the value when it is a string).
pub uninterp spec fn json_object_member(text: Seq<char>, key: Seq<char>) -> Option<Option<Seq<(Seq<char>, Option<Seq<char>>)>>>;

/// `serde_json::from_str` into a `serde_json::Value`, then `Value::get`
/// of `key`, `Value::as_object`, and `Value::as_str` on each entry's value.
/// Claimed: the result is `json_object_member` of the text and the key;
/// `None` exactly when the parse fails.
#[verifier::external_body]
fn object_member_entries(text: &str, key: &str) -> (r: Option<Option<Vec<(String, Option<String>)>>>)
    ensures
        match r {
            None => json_object_member(text@, key@) is None,
            Some(None) => json_object_member(text@, key@) == Some(
                None::<Seq<(Seq<char>, Option<Seq<char>>)>>,
            ),
            Some(Some(v)) => json_object_member(text@, key@) == Some(Some(entry_views(v@))),
        },
{
    let value: serde_json::Value = match serde_json::from_str(text) {
        Ok(v) => v,
        Err(_) => return None,
    };
    let obj = match value.get(key).and_then(serde_json::Value::as_object) {
        Some(o) => o,
        None => return Some(None),
    };
    let mut out = Vec::new();
    for (name, cmd) in obj {
        out.push((name.clone(), cmd.as_str().map(str::to_string)));
    }
    Some(Some(out))
}

/// The entries of `package.json`'s `scripts` object: `None` when the text
/// is not valid JSON, none when there is no `scripts` object (a `scripts`
/// member that is not an object holds no scripts).
pub open spec fn package_json_scripts(text: Seq<char>) -> Option<Seq<(Seq<char>, Option<Seq<char>>)>> {
    match json_object_member(text, "scripts"@) {
        None => None,
        Some(None) => Some(Seq::empty()),
        Some(Some(e)) => Some(e),
    }
}

/// The entries of `package.json`'s `scripts` object, as above.
fn parse_package_json(text: &str) -> (r: Option<Vec<(String, Option<String>)>>)
    ensures
        match r {
            Some(v) => package_json_scripts(text@) == Some(entry_views(v@)),
            None => package_json_scripts(text@) is None,
        },
{
    match object_member_entries(text, "scripts") {
        None => None,
        Some(None) => {
            let v: Vec<(String, Option<String>)> = Vec::new();
            assert(entry_views(v@) =~= Seq::empty());
            Some(v)
        },
        Some(Some(v)) => Some(v),
    }
}

/// Why the project scripts could not be collected.
#[derive(Debug, Clone, Copy, PartialEq, Eq, Structural)]
pub enum ScriptsError {
    /// `package.json` is not valid JSON.
    InvalidPackageJson,
}

/// The scripts of `package.json`'s text, when it parses.
pub open spec fn package_part(package_json: Option<Seq<char>>) -> Seq<(Seq<char>, Seq<char>)> {
    match package_json {
        Some(t) => match package_json_scripts(t) {
            Some(e) => npm_scripts_spec(e),
            None => Seq::empty(),
        },
        None => Seq::empty(),
    }
}

/// The scripts of a Makefile's text, if there is one.
pub open spec fn makefile_part(makefile: Option<Seq<char>>) -> Seq<(Seq<char>, Seq<char>)> {
    match makefile {
        Some(t) => makefile_scripts(t),
        None => Seq::empty(),
    }
}

/// The project's scripts from already parsed `package.json` entries (when
/// there is a `package.json`), then those of the `Makefile` (when there is one).
pub fn scripts_from_entries(
    package_scripts: Option<&Vec<(String, Option<String>)>>,
    makefile: Option<&str>,
) -> (r: Vec<(String, String)>)
    ensures
        pair_views(r@) == (match package_scripts {
            Some(e) => npm_scripts_spec(entry_views(e@)),
            None => Seq::empty(),
        }) + (match makefile {
            Some(t) => makefile_scripts(t@),
            None => Seq::empty(),
        }),
{
    let mut r: Vec<(String, String)> = match package_scripts {
        Some(e) => npm_scripts(e),
        None => Vec::new(),
    };
    match makefile {
        Some(t) => {
            let mut m = parse_makefile(t);
            let ghost a = r@;
            let ghost b = m@;
            r.append(&mut m);
            proof {
                assert(pair_views(r@) =~= pair_views(a) + pair_views(b));
            }
        },
        None => {
            assert(pair_views(r@) =~= pair_views(r@) + Seq::empty());
        },
    }
    r
}

/// The project's scripts from the texts of `package.json` and the
/// `Makefile` (each when the file exists): the `npm run` scripts, then the
/// Makefile targets. Fails exactly when `package.json` is there and is not
/// valid JSON.
pub fn collect_project_scripts(package_json: Option<&str>, makefile: Option<&str>) -> (r: Result<
    Vec<(String, String)>,
    ScriptsError,
>)
    ensures
        r is Err <==> (package_json matches Some(t) && package_json_scripts(t@) is None),
        r matches Err(e) ==> e == ScriptsError::InvalidPackageJson,
        r matches Ok(v) ==> pair_views(v@) == package_part(opt_str_view(package_json)) + makefile_part(
            opt_str_view(makefile),
        ),
{
    match package_json {
        Some(t) => match parse_package_json(t) {
            Some(entries) => Ok(scripts_from_entries(Some(&entries), makefile)),
            None => Err(ScriptsError::InvalidPackageJson),
        },
        None => Ok(scripts_from_entries(None, makefile)),
    }
}

/// The view of an optional text.
pub open spec fn opt_str_view(s: Option<&str>) -> Option<Seq<char>> {
    match s {
        Some(t) => Some(t@),
        None => None,
    }
}

/// Trimming never makes a text longer.
proof fn lemma_trim_shorter(s: Seq<char>)
    ensures
        trim_start(s).len() <= s.len(),
        trim_end(s).len() <= s.len(),
    decreases s.len(),
{
    if s.len() > 0 {
        lemma_trim_shorter(s.drop_first());
        lemma_trim_shorter(s.drop_last());
    }
}

/// A text that trimming leaves alone starts with a character that is not
/// white space.
proof fn lemma_trimmed_first(s: Seq<char>)
    requires
        trim(s) == s,
        s.len() > 0,
    ensures
        !is_ws(s[0]),
{
    if is_ws(s[0]) {
        lemma_trim_shorter(s.drop_first());
        lemma_trim_shorter(trim_start(s));
        assert(trim_start(s) == trim_start(s.drop_first()));
    }
}

/// Trailing white space is trimmed from the end only: a head ending in a
/// character that is not white space is kept whole.
proof fn lemma_trim_end_after(a: Seq<char>, b: Seq<char>)
    requires
        a.len() > 0,
        !is_ws(a.last()),
    ensures
        trim_end(a + b) == a + trim_end(b),
    decreases b.len(),
{
    if b.len() == 0 {
        assert(a + b =~= a);
        assert(a + trim_end(b) =~= a);
    } else {
        assert((a + b).last() == b.last());
        if is_ws(b.last()) {
            assert((a + b).drop_last() =~= a + b.drop_last());
            lemma_trim_end_after(a, b.drop_last());
        }
    }
}

/// Leading white space is trimmed from the start only.
proof fn lemma_trim_start_plain(s: Seq<char>)
    requires
        s.len() > 0,
        !is_ws(s[0]),
    ensures
        trim_start(s) == s,
{
}

/// A Makefile line `T:` or `T: deps` declares the target `T` whenever `T`
/// is trimmed, not empty, does not start with `.` or `#`, and holds no `%`
/// and no `:`: no other character keeps a target out.
pub proof fn lemma_plain_target_kept(target: Seq<char>, deps: Seq<char>)
    requires
        trim(target) == target,
        target.len() > 0,
        target[0] != '.',
        target[0] != '#',
        !has_char(target, '%'),
        !has_char(target, ':'),
    ensures
        make_target(target + seq![':'] + deps) == Some(target),
{
    let head = target + seq![':'];
    let line = head + deps;
    lemma_trimmed_first(target);
    assert(line[0] == target[0]);
    lemma_trim_start_plain(line);
    assert(head.last() == ':');
    lemma_trim_end_after(head, deps);
    let t = trim(line);
    assert(t == head + trim_end(deps));
    assert(t[0] == target[0]);
    let n = target.len() as int;
    let colon = seq![':'];
    assert(t.subrange(n, n + 1) =~= colon);
    assert(occurs_at(t, colon, n));
    lemma_find_from(t, colon, 0);
    match find_from(t, colon, 0) {
        Some(i) => {
            if i < n {
                assert(t.subrange(i, i + 1)[0] == t[i]);
                assert(t[i] == target[i]);
                assert(target.contains(':'));
            }
            assert(i == n);
            assert(t.take(i) =~= target);
        },
        None => {},
    }
}

} // verus!
