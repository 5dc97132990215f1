//! Command history (deduplicated, newest last, bounded) and the lookup of a
//! path among recently opened files.
use vstd::prelude::*;

use crate::text::{
    chars_of, ends_with_exec, is_prefix, is_suffix, lines_spec, str_eq, str_lines, str_starts_with,
    string_of, trim, trim_exec, views,
};

verus! {

broadcast use vstd::string::group_string_axioms;

/// What a command line adds to the history: the trimmed command, unless it
/// is empty or a call of this tool itself (`tn`, `thunder`, with or
/// without arguments).
pub open spec fn history_entry_spec(command: Seq<char>) -> Option<Seq<char>> {
    let t = trim(command);
    if t.len() == 0 || t == "tn"@ || t == "thunder"@ || is_prefix("tn "@, t) || is_prefix(
        "thunder "@,
        t,
    ) {
        None
    } else {
        Some(t)
    }
}

/// What a command line adds to the history.
pub fn history_entry(command: &str) -> (r: Option<String>)
    ensures
        match history_entry_spec(command@) {
            Some(e) => r matches Some(s) && s@ == e,
            None => r is None,
        },
{
    let tc = trim_exec(chars_of(command).as_slice());
    let t = string_of(tc.as_slice());
    if tc.len() == 0 || str_eq(t.as_str(), "tn") || str_eq(t.as_str(), "thunder") || str_starts_with(
        t.as_str(),
        "tn ",
    ) || str_starts_with(t.as_str(), "thunder ") {
        None
    } else {
        Some(t)
    }
}

/// The tool never records its own invocations: a command whose trimmed
/// text is `tn` or `thunder`, or starts with `tn ` or `thunder `, adds
/// nothing to the history; any other command that is not blank is
/// recorded as its trimmed text.
pub proof fn lemma_own_invocations_not_recorded(command: Seq<char>)
    ensures
        trim(command) == "tn"@ || trim(command) == "thunder"@ || is_prefix("tn "@, trim(command))
            || is_prefix("thunder "@, trim(command)) ==> history_entry_spec(command) is None,
        trim(command).len() > 0 && trim(command) != "tn"@ && trim(command) != "thunder"@ && !is_prefix(
            "tn "@,
            trim(command),
        ) && !is_prefix("thunder "@, trim(command)) ==> history_entry_spec(command) == Some(
            trim(command),
        ),
{
}

/// `lines` without any occurrence of `e`, in order.
pub open spec fn without(lines: Seq<Seq<char>>, e: Seq<char>) -> Seq<Seq<char>>
    decreases lines.len(),
{
    if lines.len() == 0 {
        Seq::empty()
    } else if lines.last() == e {
        without(lines.drop_last(), e)
    } else {
        without(lines.drop_last(), e).push(lines.last())
    }
}

/// The last `max` lines (all of them when there are fewer).
pub open spec fn keep_last(lines: Seq<Seq<char>>, max: nat) -> Seq<Seq<char>> {
    if lines.len() > max {
        lines.skip(lines.len() - max)
    } else {
        lines
    }
}

/// The history after `entry` is added: earlier occurrences removed, the
/// entry last, and only the newest `max_entries` kept.
pub open spec fn appended_spec(lines: Seq<Seq<char>>, entry: Seq<char>, max_entries: nat) -> Seq<Seq<char>> {
    keep_last(without(lines, entry).push(entry), max_entries)
}

/// The history after `entry` is added.
pub fn append_history_lines(lines: Vec<String>, entry: String, max_entries: usize) -> (r: Vec<String>)
    ensures
        views(r@) == appended_spec(views(lines@), entry@, max_entries as nat),
{
    let ghost ls = views(lines@);
    let mut kept: Vec<String> = Vec::new();
    let mut i: usize = 0;
    while i < lines.len()
        invariant
            ls == views(lines@),
            i <= lines@.len(),
            views(kept@) == without(ls.take(i as int), entry@),
            kept@.len() <= i,
        decreases lines@.len() - i,
    {
        proof {
            assert(ls.take(i + 1).drop_last() =~= ls.take(i as int));
            assert(ls.take(i + 1).last() == lines@[i as int]@);
        }
        if !str_eq(lines[i].as_str(), entry.as_str()) {
            let ghost before = kept@;
            kept.push(String::from_str(lines[i].as_str()));
            proof {
                assert(views(kept@) =~= views(before).push(lines@[i as int]@));
            }
        }
        i = i + 1;
    }
    proof {
        assert(ls.take(ls.len() as int) =~= ls);
    }
    let ghost before = kept@;
    kept.push(entry);
    proof {
        assert(views(kept@) =~= views(before).push(entry@));
    }
    if kept.len() > max_entries {
        let drop = kept.len() - max_entries;
        let mut r: Vec<String> = Vec::new();
        let mut j: usize = drop;
        while j < kept.len()
            invariant
                drop <= j <= kept@.len(),
                views(r@) == views(kept@).subrange(drop as int, j as int),
            decreases kept@.len() - j,
        {
            let ghost b = r@;
            r.push(String::from_str(kept[j].as_str()));
            proof {
                assert(views(r@) =~= views(b).push(kept@[j as int]@));
                assert(views(kept@).subrange(drop as int, j + 1) =~= views(kept@).subrange(
                    drop as int,
                    j as int,
                ).push(kept@[j as int]@));
            }
            j = j + 1;
        }
        proof {
            assert(views(kept@).subrange(drop as int, kept@.len() as int) =~= views(kept@).skip(
                drop as int,
            ));
        }
        r
    } else {
        kept
    }
}

/// The history stored in `contents`: its lines trimmed, empty ones
/// dropped, and only the newest `limit` kept.
pub open spec fn history_lines_spec(contents: Seq<char>, limit: nat) -> Seq<Seq<char>> {
    keep_last(nonempty_trimmed(lines_spec(contents)), limit)
}

/// The lines trimmed, without the empty ones.
pub open spec fn nonempty_trimmed(lines: Seq<Seq<char>>) -> Seq<Seq<char>>
    decreases lines.len(),
{
    if lines.len() == 0 {
        Seq::empty()
    } else if trim(lines.last()).len() == 0 {
        nonempty_trimmed(lines.drop_last())
    } else {
        nonempty_trimmed(lines.drop_last()).push(trim(lines.last()))
    }
}

/// The history stored in a history file's contents.
pub fn history_lines(contents: &str, limit: usize) -> (r: Vec<String>)
    ensures
        views(r@) == history_lines_spec(contents@, limit as nat),
{
    let lines = str_lines(contents);
    let ghost ls = lines_spec(contents@);
    let mut kept: Vec<String> = Vec::new();
    let mut i: usize = 0;
    while i < lines.len()
        invariant
            views(lines@) == ls,
            i <= lines@.len(),
            views(kept@) == nonempty_trimmed(ls.take(i as int)),
        decreases lines@.len() - i,
    {
        proof {
            assert(ls.take(i + 1).drop_last() =~= ls.take(i as int));
            assert(ls.take(i + 1).last() == lines@[i as int]@);
        }
        let t = trim_exec(chars_of(lines[i].as_str()).as_slice());
        if t.len() > 0 {
            let ghost before = kept@;
            kept.push(string_of(t.as_slice()));
            proof {
                assert(views(kept@) =~= views(before).push(t@));
            }
        }
        i = i + 1;
    }
    proof {
        assert(ls.take(ls.len() as int) =~= ls);
    }
    if kept.len() > limit {
        let drop = kept.len() - limit;
        let mut r: Vec<String> = Vec::new();
        let mut j: usize = drop;
        while j < kept.len()
            invariant
                drop <= j <= kept@.len(),
                views(r@) == views(kept@).subrange(drop as int, j as int),
            decreases kept@.len() - j,
        {
            let ghost b = r@;
            r.push(String::from_str(kept[j].as_str()));
            proof {
                assert(views(r@) =~= views(b).push(kept@[j as int]@));
                assert(views(kept@).subrange(drop as int, j + 1) =~= views(kept@).subrange(
                    drop as int,
                    j as int,
                ).push(kept@[j as int]@));
            }
            j = j + 1;
        }
        proof {
            assert(views(kept@).subrange(drop as int, kept@.len() as int) =~= views(kept@).skip(
                drop as int,
            ));
        }
        r
    } else {
        kept
    }
}

/// `e` does not occur in `without(lines, e)`, which keeps the other lines.
pub proof fn lemma_without(lines: Seq<Seq<char>>, e: Seq<char>)
    ensures
        !without(lines, e).contains(e),
        without(lines, e).len() <= lines.len(),
        forall|x: Seq<char>| x != e ==> (without(lines, e).contains(x) <==> lines.contains(x)),
    decreases lines.len(),
{
    if lines.len() > 0 {
        lemma_without(lines.drop_last(), e);
        let w = without(lines.drop_last(), e);
        assert forall|x: Seq<char>| x != e implies (without(lines, e).contains(x)
            <==> lines.contains(x)) by {
            lemma_contains_split(lines, x);
            if lines.last() != e {
                lemma_contains_split(w.push(lines.last()), x);
                assert(w.push(lines.last()).drop_last() =~= w);
            }
        }
        if lines.last() != e {
            assert(!w.push(lines.last()).contains(e)) by {
                if w.push(lines.last()).contains(e) {
                    let k = choose|k: int| 0 <= k < w.len() + 1 && w.push(lines.last())[k] == e;
                    assert(k < w.len() ==> w[k] == e);
                }
            }
        }
    }
}

/// A list holds `x` when its front does or its last element is `x`.
proof fn lemma_contains_split(lines: Seq<Seq<char>>, x: Seq<char>)
    requires
        lines.len() > 0,
    ensures
        lines.contains(x) <==> (lines.drop_last().contains(x) || lines.last() == x),
{
    if lines.contains(x) {
        let k = choose|k: int| 0 <= k < lines.len() && lines[k] == x;
        if k < lines.len() - 1 {
            assert(lines.drop_last()[k] == x);
        }
    }
    if lines.drop_last().contains(x) {
        let k = choose|k: int| 0 <= k < lines.drop_last().len() && lines.drop_last()[k] == x;
        assert(lines[k] == x);
    }
    if lines.last() == x {
        assert(lines[lines.len() - 1] == x);
    }
}

/// Removing an element that does not occur changes nothing.
pub proof fn lemma_without_absent(lines: Seq<Seq<char>>, e: Seq<char>)
    requires
        !lines.contains(e),
    ensures
        without(lines, e) == lines,
    decreases lines.len(),
{
    if lines.len() > 0 {
        assert(!lines.drop_last().contains(e)) by {
            if lines.drop_last().contains(e) {
                let k = choose|k: int| 0 <= k < lines.drop_last().len() && lines.drop_last()[k] == e;
                assert(lines[k] == e);
            }
        }
        lemma_without_absent(lines.drop_last(), e);
        assert(lines.last() != e);
        assert(lines.drop_last().push(lines.last()) =~= lines);
    }
}

/// Removing `e` from a list that ends with its only occurrence leaves the
/// rest.
proof fn lemma_without_push(lines: Seq<Seq<char>>, e: Seq<char>)
    requires
        !lines.contains(e),
    ensures
        without(lines.push(e), e) == lines,
{
    assert(lines.push(e).drop_last() =~= lines);
    lemma_without_absent(lines, e);
}

/// Adding the same command twice leaves the history as adding it once:
/// it occurs once, last.
pub proof fn lemma_append_history_idempotent(lines: Seq<Seq<char>>, entry: Seq<char>, max_entries: nat)
    ensures
        appended_spec(appended_spec(lines, entry, max_entries), entry, max_entries) == appended_spec(
            lines,
            entry,
            max_entries,
        ),
{
    let w = without(lines, entry);
    lemma_without(lines, entry);
    let k = w.push(entry);
    let once = keep_last(k, max_entries);
    if k.len() > max_entries {
        let d = k.len() - max_entries;
        if max_entries == 0 {
            assert(once =~= Seq::<Seq<char>>::empty());
            assert(without(once, entry) =~= Seq::<Seq<char>>::empty());
            assert(appended_spec(once, entry, max_entries) =~= Seq::<Seq<char>>::empty());
        } else {
            let pre = w.skip(d);
            assert(once =~= pre.push(entry));
            assert(!pre.contains(entry)) by {
                if pre.contains(entry) {
                    let j = choose|j: int| 0 <= j < pre.len() && pre[j] == entry;
                    assert(w.contains(entry)) by {
                        assert(w[j + d] == entry);
                    }
                }
            }
            lemma_without_push(pre, entry);
            assert(without(once, entry).push(entry) =~= once);
        }
    } else {
        assert(once == k);
        lemma_without_push(w, entry);
    }
}

/// After a command is added, it is the newest entry and occurs exactly
/// once, and the history holds at most `max_entries` lines.
pub proof fn lemma_append_history_shape(lines: Seq<Seq<char>>, entry: Seq<char>, max_entries: nat)
    requires
        max_entries > 0,
    ensures
        appended_spec(lines, entry, max_entries).len() <= max_entries,
        appended_spec(lines, entry, max_entries).last() == entry,
        !appended_spec(lines, entry, max_entries).drop_last().contains(entry),
{
    let w = without(lines, entry);
    lemma_without(lines, entry);
    let k = w.push(entry);
    let r = keep_last(k, max_entries);
    if k.len() > max_entries {
        let d = k.len() - max_entries;
        assert(r.drop_last() =~= w.skip(d));
        assert(!w.skip(d).contains(entry)) by {
            if w.skip(d).contains(entry) {
                let j = choose|j: int| 0 <= j < w.skip(d).len() && w.skip(d)[j] == entry;
                assert(w[j + d] == entry);
            }
        }
    } else {
        assert(r.drop_last() =~= w);
    }
}

/// Whether a recent-files entry stands for `path`: the same text, or one
/// ends with the other.
pub open spec fn recent_matches(entry: Seq<char>, path: Seq<char>) -> bool {
    entry == path || is_suffix(path, entry) || is_suffix(entry, path)
}

/// The first recent-files entry that stands for `path`.
pub open spec fn recent_match_spec(entries: Seq<Seq<char>>, path: Seq<char>) -> Option<int>
    decreases entries.len(),
{
    if entries.len() == 0 {
        None
    } else {
        match recent_match_spec(entries.drop_last(), path) {
            Some(i) => Some(i),
            None => if recent_matches(entries.last(), path) {
                Some(entries.len() - 1)
            } else {
                None
            },
        }
    }
}

/// The position of the first recent-files entry (by path) that stands for
/// `path`; its score is the path's recency score.
pub fn find_recent_match(path: &str, entry_paths: &Vec<String>) -> (r: Option<usize>)
    ensures
        match recent_match_spec(views(entry_paths@), path@) {
            Some(i) => r == Some(i as usize),
            None => r is None,
        },
{
    let ghost es = views(entry_paths@);
    let pc = chars_of(path);
    let mut i: usize = 0;
    while i < entry_paths.len()
        invariant
            es == views(entry_paths@),
            pc@ == path@,
            i <= es.len(),
            recent_match_spec(es.take(i as int), path@) is None,
        decreases es.len() - i,
    {
        proof {
            assert(es.take(i + 1).drop_last() =~= es.take(i as int));
            assert(es.take(i + 1).last() == entry_paths@[i as int]@);
        }
        let ec = chars_of(entry_paths[i].as_str());
        if str_eq(entry_paths[i].as_str(), path) || ends_with_exec(ec.as_slice(), pc.as_slice())
            || ends_with_exec(pc.as_slice(), ec.as_slice()) {
            proof {
                lemma_recent_prefix(es, i as int + 1, path@);
            }
            return Some(i);
        }
        i = i + 1;
    }
    proof {
        assert(es.take(es.len() as int) =~= es);
    }
    None
}

/// A match found among the first entries is the first match of all.
proof fn lemma_recent_prefix(es: Seq<Seq<char>>, n: int, path: Seq<char>)
    requires
        0 < n <= es.len(),
        recent_match_spec(es.take(n), path) is Some,
    ensures
        recent_match_spec(es, path) == recent_match_spec(es.take(n), path),
    decreases es.len() - n,
{
    if n == es.len() {
        assert(es.take(n) =~= es);
    } else {
        assert(es.drop_last().take(n) =~= es.take(n));
        lemma_recent_prefix(es.drop_last(), n, path);
    }
}

} // verus!
