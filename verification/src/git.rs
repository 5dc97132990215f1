//! Git working-tree states from `git status --porcelain` output, kept as a
//! map from path to state.
use vstd::prelude::*;
use vstd::utf8::{decode_utf8, is_char_boundary, valid_utf8};

use crate::corpus::{utf8, utf8_str};
use crate::text::{
    chars_of, find_from, find_from_exec, is_suffix, lemma_find_from, lines_spec, slice_chars,
    str_eq, str_lines, string_of, trim, trim_exec, ends_with_exec,
};

verus! {

broadcast use vstd::string::group_string_axioms;

/// The state of a path in the working tree.
#[derive(Debug, Clone, Copy, PartialEq, Eq, Structural)]
pub enum GitState {
    Modified,
    Staged,
    Untracked,
}

/// The text before the first ` -> ` (the old name of a rename), or all of it.
pub open spec fn before_arrow(s: Seq<char>) -> Seq<char> {
    match find_from(s, " -> "@, 0) {
        Some(i) => s.take(i),
        None => s,
    }
}

/// Byte 3 of a porcelain line long enough to carry a path starts a
/// character (slicing the line there is defined).
pub open spec fn path_slice_defined(line: Seq<char>) -> bool {
    utf8(line).len() >= 4 ==> is_char_boundary(utf8(line), 3)
}

/// What one porcelain line says: lines shorter than four bytes say nothing;
/// otherwise the path is the text after the two status bytes and the space,
/// trimmed, with a rename's old name kept. A staged change (first status
/// byte other than space or `?`) wins over an untracked one (second byte
/// `?`), which wins over a modification (second byte other than space).
pub open spec fn status_line(line: Seq<char>) -> Option<(Seq<char>, GitState)> {
    let b = utf8(line);
    if b.len() < 4 {
        None
    } else {
        let path = trim(before_arrow(trim(decode_utf8(b.subrange(3, b.len() as int)))));
        if b[0] != 32 && b[0] != 63 {
            Some((path, GitState::Staged))
        } else if b[1] == 63 {
            Some((path, GitState::Untracked))
        } else if b[1] != 32 {
            Some((path, GitState::Modified))
        } else {
            None
        }
    }
}

/// The position of key `k` in `e`.
pub open spec fn key_index(e: Seq<(Seq<char>, GitState)>, k: Seq<char>) -> Option<int>
    decreases e.len(),
{
    if e.len() == 0 {
        None
    } else if e.last().0 == k {
        Some(e.len() - 1)
    } else {
        key_index(e.drop_last(), k)
    }
}

/// `e` with `k` mapped to `v`: an existing entry is replaced in place, a new
/// key goes last.
pub open spec fn assoc_insert(e: Seq<(Seq<char>, GitState)>, k: Seq<char>, v: GitState) -> Seq<(Seq<char>, GitState)> {
    match key_index(e, k) {
        Some(i) => e.update(i, (k, v)),
        None => e.push((k, v)),
    }
}

/// The entries that the lines give, each line's path mapped to its state,
/// later lines overriding earlier ones.
pub open spec fn status_entries(lines: Seq<Seq<char>>) -> Seq<(Seq<char>, GitState)>
    decreases lines.len(),
{
    if lines.len() == 0 {
        Seq::empty()
    } else {
        let before = status_entries(lines.drop_last());
        match status_line(lines.last()) {
            Some((p, s)) => assoc_insert(before, p, s),
            None => before,
        }
    }
}

/// No key occurs twice.
pub open spec fn distinct_keys(e: Seq<(Seq<char>, GitState)>) -> bool {
    forall|i: int, j: int| 0 <= i < j < e.len() ==> (#[trigger] e[i]).0 != (#[trigger] e[j]).0
}

/// The state that `path` gets: that of its own entry, else that of the
/// first entry (in order) whose key ends `path`, else none.
pub open spec fn lookup_spec(e: Seq<(Seq<char>, GitState)>, path: Seq<char>) -> Option<GitState> {
    match key_index(e, path) {
        Some(i) => Some(e[i].1),
        None => match first_suffix_key(e, path) {
            Some(i) => Some(e[i].1),
            None => None,
        },
    }
}

/// The first entry whose key is a suffix of `path`.
pub open spec fn first_suffix_key(e: Seq<(Seq<char>, GitState)>, path: Seq<char>) -> Option<int>
    decreases e.len(),
{
    if e.len() == 0 {
        None
    } else {
        match first_suffix_key(e.drop_last(), path) {
            Some(i) => Some(i),
            None => if is_suffix(e.last().0, path) {
                Some(e.len() - 1)
            } else {
                None
            },
        }
    }
}

/// `key_index` finds the one entry with the key.
pub proof fn lemma_key_index(e: Seq<(Seq<char>, GitState)>, k: Seq<char>)
    ensures
        match key_index(e, k) {
            Some(i) => 0 <= i < e.len() && e[i].0 == k,
            None => forall|j: int| 0 <= j < e.len() ==> (#[trigger] e[j]).0 != k,
        },
    decreases e.len(),
{
    if e.len() > 0 {
        lemma_key_index(e.drop_last(), k);
        if e.last().0 != k {
            assert forall|j: int| 0 <= j < e.len() - 1 implies (#[trigger] e[j]).0 == e.drop_last()[j].0 by {}
        }
    }
}

/// `first_suffix_key` finds the first entry whose key ends `path`.
pub proof fn lemma_first_suffix_key(e: Seq<(Seq<char>, GitState)>, path: Seq<char>)
    ensures
        match first_suffix_key(e, path) {
            Some(i) => 0 <= i < e.len() && is_suffix(e[i].0, path) && forall|j: int|
                0 <= j < i ==> !is_suffix(#[trigger] e[j].0, path),
            None => forall|j: int| 0 <= j < e.len() ==> !is_suffix(#[trigger] e[j].0, path),
        },
    decreases e.len(),
{
    if e.len() > 0 {
        lemma_first_suffix_key(e.drop_last(), path);
        assert forall|j: int| 0 <= j < e.len() - 1 implies #[trigger] e[j] == e.drop_last()[j] by {}
    }
}

/// Inserting keeps keys distinct.
pub proof fn lemma_assoc_insert_distinct(e: Seq<(Seq<char>, GitState)>, k: Seq<char>, v: GitState)
    requires
        distinct_keys(e),
    ensures
        distinct_keys(assoc_insert(e, k, v)),
{
    lemma_key_index(e, k);
}

/// With distinct keys, an entry holding `k` is the one `key_index` finds.
proof fn lemma_key_index_unique(e: Seq<(Seq<char>, GitState)>, k: Seq<char>, i: int)
    requires
        distinct_keys(e),
        0 <= i < e.len(),
        e[i].0 == k,
    ensures
        key_index(e, k) == Some(i),
{
    lemma_key_index(e, k);
    match key_index(e, k) {
        Some(j) => {
            if j < i {
                assert(e[j].0 != e[i].0);
            } else if j > i {
                assert(e[i].0 != e[j].0);
            }
        },
        None => {
            assert(e[i].0 != k);
        },
    }
}

/// What a path is mapped to is what it gets: after `k` is mapped to `v`,
/// looking `k` up gives `v`.
pub proof fn lemma_insert_then_get(e: Seq<(Seq<char>, GitState)>, k: Seq<char>, v: GitState)
    requires
        distinct_keys(e),
    ensures
        lookup_spec(assoc_insert(e, k, v), k) == Some(v),
{
    lemma_key_index(e, k);
    lemma_assoc_insert_distinct(e, k, v);
    let e2 = assoc_insert(e, k, v);
    match key_index(e, k) {
        Some(i) => {
            assert(e2[i] == (k, v));
            lemma_key_index_unique(e2, k, i);
        },
        None => {
            assert(e2 == e.push((k, v)));
            assert(e2.last() == (k, v));
        },
    }
}

/// Path states read from `git status --porcelain`: distinct paths in the
/// order they first appeared.
pub struct GitStatusMap {
    entries: Vec<(String, GitState)>,
}

/// The views of entries.
pub open spec fn entry_views(v: Seq<(String, GitState)>) -> Seq<(Seq<char>, GitState)> {
    v.map_values(|p: (String, GitState)| (p.0@, p.1))
}

impl GitStatusMap {
    #[verifier::type_invariant]
    closed spec fn inv(&self) -> bool {
        distinct_keys(entry_views(self.entries@))
    }

    /// The entries: paths with their states.
    pub closed spec fn spec_entries(&self) -> Seq<(Seq<char>, GitState)> {
        entry_views(self.entries@)
    }

    /// An empty map.
    pub fn new() -> (r: GitStatusMap)
        ensures
            r.spec_entries().len() == 0,
    {
        let r = GitStatusMap { entries: Vec::new() };
        assert(r.spec_entries() =~= Seq::<(Seq<char>, GitState)>::empty());
        r
    }

    /// Map `path` to `state`, replacing what it had.
    pub fn insert(&mut self, path: String, state: GitState)
        ensures
            final(self).spec_entries() == assoc_insert(old(self).spec_entries(), path@, state),
    {
        proof {
            use_type_invariant(&*self);
            lemma_key_index(self.spec_entries(), path@);
            lemma_assoc_insert_distinct(self.spec_entries(), path@, state);
        }
        let ghost old_e = self.spec_entries();
        let mut found: Option<usize> = None;
        let mut i: usize = self.entries.len();
        assert(old_e.take(old_e.len() as int) =~= old_e);
        while i > 0
            invariant_except_break
                found is None,
            invariant
                i <= self.entries@.len(),
                old_e == entry_views(self.entries@),
                key_index(old_e, path@) == key_index(old_e.take(i as int), path@),
            ensures
                found matches Some(k) ==> k + 1 == i && old_e[k as int].0 == path@,
                found is None ==> i == 0,
            decreases i,
        {
            proof {
                assert(old_e.take(i as int).drop_last() =~= old_e.take(i - 1));
            }
            if str_eq(self.entries[i - 1].0.as_str(), path.as_str()) {
                found = Some(i - 1);
                break;
            }
            i = i - 1;
        }
        proof {
            if found is None {
                assert(old_e.take(0) =~= Seq::<(Seq<char>, GitState)>::empty());
            }
        }
        match found {
            Some(k) => {
                proof {
                    assert(old_e.take(k + 1).last() == old_e[k as int]);
                    assert(key_index(old_e, path@) == Some(k as int));
                }
                let mut entries = Vec::new();
                std::mem::swap(&mut entries, &mut self.entries);
                entries.set(k, (path, state));
                proof {
                    assert(entry_views(entries@) =~= old_e.update(k as int, (path@, state)));
                }
                self.entries = entries;
            },
            None => {
                assert(key_index(old_e, path@) is None);
                assert(assoc_insert(old_e, path@, state) == old_e.push((path@, state)));
                let mut entries = Vec::new();
                std::mem::swap(&mut entries, &mut self.entries);
                entries.push((path, state));
                proof {
                    assert(entry_views(entries@) =~= old_e.push((path@, state)));
                }
                self.entries = entries;
            },
        }
    }

    /// The state for `path`: its own entry's, else that of the first entry
    /// whose path ends `path`, else none.
    pub fn get(&self, path: &str) -> (r: Option<GitState>)
        ensures
            r == lookup_spec(self.spec_entries(), path@),
    {
        let ghost e = self.spec_entries();
        proof {
            lemma_key_index(e, path@);
            lemma_first_suffix_key(e, path@);
        }
        let mut i: usize = 0;
        while i < self.entries.len()
            invariant
                e == entry_views(self.entries@),
                i <= e.len(),
                forall|j: int| 0 <= j < i ==> (#[trigger] e[j]).0 != path@,
            decreases e.len() - i,
        {
            if str_eq(self.entries[i].0.as_str(), path) {
                proof {
                    use_type_invariant(self);
                    assert(e[i as int].0 == path@);
                    lemma_key_index(e, path@);
                    let m = key_index(e, path@);
                    if m != Some(i as int) {
                        let mi = m->0;
                        assert(e[mi].0 == e[i as int].0);
                    }
                }
                return Some(self.entries[i].1);
            }
            i = i + 1;
        }
        let pc = chars_of(path);
        let mut j: usize = 0;
        while j < self.entries.len()
            invariant
                e == entry_views(self.entries@),
                key_index(e, path@) is None,
                pc@ == path@,
                j <= e.len(),
                forall|t: int| 0 <= t < j ==> !is_suffix(#[trigger] e[t].0, path@),
            decreases e.len() - j,
        {
            let kc = chars_of(self.entries[j].0.as_str());
            if ends_with_exec(pc.as_slice(), kc.as_slice()) {
                proof {
                    assert(e[j as int].0 == kc@);
                    lemma_first_suffix_key(e, path@);
                    let f = first_suffix_key(e, path@);
                    if f is None {
                        assert(!is_suffix(e[j as int].0, path@));
                    } else if f != Some(j as int) {
                        let fi = f->0;
                        if fi < j {
                            assert(!is_suffix(e[fi].0, path@));
                        } else {
                            assert(!is_suffix(e[j as int].0, path@));
                        }
                    }
                }
                return Some(self.entries[j].1);
            }
            j = j + 1;
        }
        None
    }
}

/// The path and state of one porcelain line.
fn status_of_line(line: &str) -> (r: Option<(String, GitState)>)
    requires
        path_slice_defined(line@),
    ensures
        match status_line(line@) {
            Some((p, s)) => r matches Some((q, t)) && q@ == p && t == s,
            None => r is None,
        },
{
    let b = line.as_bytes();
    if b.len() < 4 {
        return None;
    }
    let index = b[0];
    let worktree = b[1];
    let state = if index != 32 && index != 63 {
        GitState::Staged
    } else if worktree == 63 {
        GitState::Untracked
    } else if worktree != 32 {
        GitState::Modified
    } else {
        return None;
    };
    proof {
        vstd::utf8::encode_utf8_valid_utf8(line@);
        vstd::utf8::valid_utf8_split(b@, 3);
    }
    let rest = match utf8_str(&b[3..b.len()]) {
        Some(s) => s,
        None => {
            return None;
        },
    };
    let t = trim_exec(chars_of(rest).as_slice());
    let arrow: Vec<char> = vec![' ', '-', '>', ' '];
    proof {
        reveal_strlit(" -> ");
        assert(arrow@ =~= " -> "@);
    }
    let head = match find_from_exec(t.as_slice(), arrow.as_slice(), 0) {
        Some(i) => {
            proof {
                lemma_find_from(t@, arrow@, 0);
            }
            let h = slice_chars(t.as_slice(), 0, i);
            proof {
                assert(h@ =~= t@.take(i as int));
            }
            h
        },
        None => t,
    };
    let path = trim_exec(head.as_slice());
    Some((string_of(path.as_slice()), state))
}

/// Every line of `text` can be sliced where its path starts.
pub open spec fn porcelain_defined(text: Seq<char>) -> bool {
    forall|i: int| 0 <= i < lines_spec(text).len() ==> path_slice_defined(#[trigger] lines_spec(text)[i])
}

/// The path states that `git status --porcelain` output gives.
pub fn parse_git_status(text: &str) -> (r: GitStatusMap)
    requires
        porcelain_defined(text@),
    ensures
        r.spec_entries() == status_entries(lines_spec(text@)),
        distinct_keys(r.spec_entries()),
{
    let lines = str_lines(text);
    let ghost ls = lines_spec(text@);
    let mut map = GitStatusMap::new();
    let mut i: usize = 0;
    proof {
        assert(ls.take(0) =~= Seq::<Seq<char>>::empty());
    }
    while i < lines.len()
        invariant
            lines@.map_values(|s: String| s@) == ls,
            porcelain_defined(text@),
            ls == lines_spec(text@),
            i <= ls.len(),
            map.spec_entries() == status_entries(ls.take(i as int)),
        decreases ls.len() - i,
    {
        proof {
            assert(ls.take(i + 1).drop_last() =~= ls.take(i as int));
            assert(ls.take(i + 1).last() == lines@[i as int]@);
            assert(path_slice_defined(ls[i as int]));
        }
        match status_of_line(lines[i].as_str()) {
            Some((p, s)) => {
                map.insert(p, s);
            },
            None => {},
        }
        i = i + 1;
    }
    proof {
        assert(ls.take(ls.len() as int) =~= ls);
        use_type_invariant(&map);
    }
    map
}

} // verus!
