//! The trigram search index: every line of every indexed file, its text and
//! lowercase text in a corpus, and for each trigram key the lines holding it.
use vstd::prelude::*;
use vstd::hash_map::{HashMapWithView, StringHashMap};
use vstd::hash_set::HashSetWithView;

use crate::text::{lines_spec, str_lines, views};
use crate::corpus::{
    append_bytes, has_trigram, key_at, lossy_text, trigram_keys_spec, trigrams, utf8, utf8_lossy,
    LineCorpus, LineRef,
};
use crate::safety::{has_parent_component, is_safe_relative_path};
use crate::order::{insert_sorted, strictly_sorted};
use crate::text::{contains, find_from, lemma_find_contains, lowercase, occurs_at, to_lowercase};

verus! {

broadcast use {vstd::string::group_string_axioms, vstd::std_specs::hash::group_hash_axioms};

/// One hit of an index search.
#[derive(Debug, Clone)]
pub struct IndexMatch {
    pub path: String,
    pub line_number: u64,
    pub column: u64,
    pub line_text: String,
}

/// What a hit is: path, line number, 1-based byte column, and the bytes of
/// the line's text.
pub type HitView = (Seq<char>, u64, u64, Seq<u8>);

impl IndexMatch {
    pub open spec fn hit_view(&self) -> HitView {
        (self.path@, self.line_number, self.column, utf8(self.line_text@))
    }
}

/// The views of a list of hits.
pub open spec fn hit_views(v: Seq<IndexMatch>) -> Seq<HitView> {
    v.map_values(|m: IndexMatch| m.hit_view())
}

/// The 1-based column of byte position `pos` (wrapping to zero past `u64::MAX`).
pub open spec fn column_spec(pos: int) -> u64 {
    if pos < u64::MAX {
        (pos + 1) as u64
    } else {
        0
    }
}

/// The 1-based column of byte position `pos`.
pub fn column_number(pos: usize) -> (c: u64)
    ensures
        c == column_spec(pos as int),
{
    let p = pos as u64;
    if p < u64::MAX {
        p + 1
    } else {
        0
    }
}

/// The needle a search looks for: the lowercased query when case is
/// ignored, else the query, as UTF-8.
pub open spec fn needle_of(query: Seq<char>, ignore_case: bool) -> Seq<u8> {
    if ignore_case {
        utf8(lowercase(query))
    } else {
        utf8(query)
    }
}

/// The trigram postings of `lines` are right: every listed line holds the
/// key, every line holding a key is listed under it, and only keys some line
/// holds are present.
pub open spec fn postings_ok(m: Map<u64, Vec<usize>>, lines: Seq<LineRef>, corpus: LineCorpus, upto: int) -> bool {
    &&& forall|k: u64| #[trigger] m.contains_key(k) ==> exists|i: int|
        0 <= i < upto && has_trigram(#[trigger] corpus.lower_view(lines[i]), k)
    &&& forall|k: u64, j: int|
        #![trigger m[k]@[j]]
        m.contains_key(k) && 0 <= j < m[k]@.len() ==> m[k]@[j] < upto && has_trigram(
            corpus.lower_view(lines[m[k]@[j] as int]),
            k,
        )
    &&& forall|k: u64, i: int|
        #![trigger has_trigram(corpus.lower_view(lines[i]), k)]
        0 <= i < upto && has_trigram(corpus.lower_view(lines[i]), k) ==> m.contains_key(k)
            && m[k]@.contains(i as usize)
}

/// The search index of one project.
pub struct SearchIndex {
    root: String,
    max_file_size: u64,
    lines: Vec<LineRef>,
    trigrams: HashMapWithView<u64, Vec<usize>>,
    file_ranges: StringHashMap<(usize, usize)>,
    files: Vec<String>,
    corpus: LineCorpus,
}

impl SearchIndex {
    /// The well-formedness every index keeps.
    #[verifier::type_invariant]
    closed spec fn inv(&self) -> bool {
        &&& postings_ok(self.trigrams@, self.lines@, self.corpus, self.lines@.len() as int)
        &&& strictly_sorted(views(self.files@))
        &&& forall|f: Seq<char>|
            self.file_ranges@.contains_key(f) <==> views(self.files@).contains(f)
    }

    /// The project root.
    pub closed spec fn spec_root(&self) -> Seq<char> {
        self.root@
    }

    /// The largest file size indexed.
    pub closed spec fn spec_max_file_size(&self) -> u64 {
        self.max_file_size
    }

    /// The indexed lines.
    pub closed spec fn spec_lines(&self) -> Seq<LineRef> {
        self.lines@
    }

    /// The indexed files.
    pub closed spec fn spec_files(&self) -> Set<Seq<char>> {
        self.file_ranges@.dom()
    }

    /// The corpus.
    pub closed spec fn spec_corpus(&self) -> LineCorpus {
        self.corpus
    }

    /// The bytes of line `i`'s text as search sees it.
    pub open spec fn text_of(&self, i: int) -> Seq<u8> {
        self.spec_corpus().text_view(self.spec_lines()[i])
    }

    /// The bytes of line `i`'s lowercase text as search sees it.
    pub open spec fn lower_of(&self, i: int) -> Seq<u8> {
        self.spec_corpus().lower_view(self.spec_lines()[i])
    }

    /// Some indexed line holds trigram key `k`.
    pub open spec fn key_present(&self, k: u64) -> bool {
        exists|i: int| 0 <= i < self.spec_lines().len() && has_trigram(self.lower_of(i), k)
    }

    /// Line `i` survives trigram filtering for the lowercase needle `tn`:
    /// short needles filter nothing; otherwise some needle key must be
    /// present in the index, and the line must hold every present needle key.
    pub open spec fn is_candidate(&self, tn: Seq<u8>, i: int) -> bool {
        if tn.len() >= 3 {
            &&& exists|w: int| 0 <= w < tn.len() + 1 && self.key_present(key_at(tn, w))
            &&& forall|w: int|
                0 <= w < tn.len() + 1 && self.key_present(key_at(tn, w)) ==> has_trigram(
                    self.lower_of(i),
                    key_at(tn, w),
                )
        } else {
            true
        }
    }

    /// The hit on line `i` for `query`, if any: the line survives trigram
    /// filtering and its text (its lowercase text when ignoring case) holds
    /// the needle (the lowercased query when ignoring case), first at byte `pos`.
    pub open spec fn hit_at(&self, query: Seq<char>, ignore_case: bool, i: int) -> Option<HitView> {
        let tn = utf8(lowercase(query));
        let needle = if ignore_case {
            tn
        } else {
            utf8(query)
        };
        let hay = if ignore_case {
            self.lower_of(i)
        } else {
            self.text_of(i)
        };
        if self.is_candidate(tn, i) {
            match find_from(hay, needle, 0) {
                Some(pos) => Some(
                    (
                        self.spec_lines()[i].path@,
                        self.spec_lines()[i].line_number,
                        column_spec(pos),
                        self.text_of(i),
                    ),
                ),
                None => None,
            }
        } else {
            None
        }
    }

    /// All hits among the first `upto` lines, in line order.
    pub open spec fn hits(&self, query: Seq<char>, ignore_case: bool, upto: int) -> Seq<HitView>
        decreases upto,
    {
        if upto <= 0 {
            Seq::empty()
        } else {
            let before = self.hits(query, ignore_case, upto - 1);
            match self.hit_at(query, ignore_case, upto - 1) {
                Some(h) => before.push(h),
                None => before,
            }
        }
    }

    /// The result of `search`: the first hits in line order, at most
    /// `limit` of them (at least one when there is one: the limit is checked
    /// after a hit is taken); nothing for an empty query.
    pub open spec fn search_spec(&self, query: Seq<char>, limit: usize, ignore_case: bool) -> Seq<HitView> {
        if query.len() == 0 {
            Seq::empty()
        } else {
            let all = self.hits(query, ignore_case, self.spec_lines().len() as int);
            let cap: int = if limit == 0 {
                1
            } else {
                limit as int
            };
            if all.len() <= cap {
                all
            } else {
                all.take(cap)
            }
        }
    }

    /// An empty index of the project at `root`.
    pub fn new(root: String, max_file_size: u64) -> (r: SearchIndex)
        ensures
            r.spec_root() == root@,
            r.spec_max_file_size() == max_file_size,
            r.spec_lines().len() == 0,
            r.spec_files().is_empty(),
    {
        proof {
            assert(vstd::std_specs::hash::obeys_key_model::<u64>());
        }
        let r = SearchIndex {
            root,
            max_file_size,
            lines: Vec::new(),
            trigrams: HashMapWithView::new(),
            file_ranges: StringHashMap::new(),
            files: Vec::new(),
            corpus: LineCorpus::empty(),
        };
        assert(r.file_ranges@.dom() =~= Set::empty());
        r
    }

    /// The line corpus.
    pub fn corpus(&self) -> (r: &LineCorpus)
        ensures
            *r == self.spec_corpus(),
    {
        &self.corpus
    }

    /// The number of indexed lines.
    pub fn line_count(&self) -> (r: usize)
        ensures
            r == self.spec_lines().len(),
    {
        self.lines.len()
    }

    /// The project root.
    pub fn root(&self) -> (r: &str)
        ensures
            r@ == self.spec_root(),
    {
        self.root.as_str()
    }
}

// ---------------------------------------------------------------------------
// Building the postings
// ---------------------------------------------------------------------------

/// Appends `idx` to the postings of `k`.
fn add_posting(m: &mut HashMapWithView<u64, Vec<usize>>, k: u64, idx: usize)
    ensures
        final(m)@.contains_key(k),
        final(m)@[k]@ == (if old(m)@.contains_key(k) {
            old(m)@[k]@
        } else {
            Seq::empty()
        }).push(idx),
        forall|k2: u64|
            #![trigger final(m)@.contains_key(k2)]
            #![trigger old(m)@.contains_key(k2)]
            k2 != k ==> (final(m)@.contains_key(k2) == old(m)@.contains_key(k2) && (old(
                m,
            )@.contains_key(k2) ==> final(m)@[k2] == old(m)@[k2])),
{
    let mut list = match m.remove(&k) {
        Some(v) => v,
        None => Vec::new(),
    };
    list.push(idx);
    m.insert(k, list);
}

/// The postings of every line of the corpus.
fn index_trigrams(lines: &Vec<LineRef>, corpus: &LineCorpus) -> (m: HashMapWithView<u64, Vec<usize>>)
    ensures
        postings_ok(m@, lines@, *corpus, lines@.len() as int),
{
    proof {
        assert(vstd::std_specs::hash::obeys_key_model::<u64>());
    }
    let mut m: HashMapWithView<u64, Vec<usize>> = HashMapWithView::new();
    let n = lines.len();
    let mut idx: usize = 0;
    while idx < n
        invariant
            n == lines@.len(),
            idx <= n,
            postings_ok(m@, lines@, *corpus, idx as int),
        decreases n - idx,
    {
        let lower = corpus.lower_at(&lines[idx]);
        let keys = trigrams(lower);
        let ghost lb = corpus.lower_view(lines@[idx as int]);
        assert(keys@ == trigram_keys_spec(lb));
        let mut w: usize = 0;
        while w < keys.len()
            invariant
                n == lines@.len(),
                idx < n,
                lb == corpus.lower_view(lines@[idx as int]),
                keys@ == trigram_keys_spec(lb),
                w <= keys@.len(),
                forall|k: u64| #[trigger] m@.contains_key(k) ==> (exists|i: int|
                    0 <= i < idx && has_trigram(#[trigger] corpus.lower_view(lines@[i]), k)) || (
                exists|v: int| 0 <= v < w && keys@[v] == k),
                forall|k: u64, j: int|
                    #![trigger m@[k]@[j]]
                    m@.contains_key(k) && 0 <= j < m@[k]@.len() ==> (m@[k]@[j] < idx && has_trigram(
                        corpus.lower_view(lines@[m@[k]@[j] as int]),
                        k,
                    )) || (m@[k]@[j] == idx && has_trigram(lb, k)),
                forall|k: u64, i: int|
                    #![trigger has_trigram(corpus.lower_view(lines@[i]), k)]
                    0 <= i < idx && has_trigram(corpus.lower_view(lines@[i]), k) ==> m@.contains_key(
                        k,
                    ) && m@[k]@.contains(i as usize),
                forall|v: int|
                    0 <= v < w ==> m@.contains_key(#[trigger] keys@[v]) && m@[keys@[v]]@.contains(
                        idx,
                    ),
            decreases keys@.len() - w,
        {
            let k = keys[w];
            let ghost old_m = m@;
            proof {
                assert(key_at(lb, w as int) == k);
                assert(has_trigram(lb, k));
            }
            add_posting(&mut m, k, idx);
            proof {
                assert forall|k2: u64| #[trigger] m@.contains_key(k2) implies (exists|i: int|
                    0 <= i < idx && has_trigram(#[trigger] corpus.lower_view(lines@[i]), k2)) || (
                exists|v: int| 0 <= v < w + 1 && keys@[v] == k2) by {
                    if k2 == k {
                        assert(keys@[w as int] == k2);
                    } else {
                        assert(old_m.contains_key(k2));
                    }
                }
                assert forall|k2: u64, j: int|
                    m@.contains_key(k2) && 0 <= j < m@[k2]@.len() implies (#[trigger] m@[k2]@[j] < idx
                        && has_trigram(corpus.lower_view(lines@[m@[k2]@[j] as int]), k2)) || (
                m@[k2]@[j] == idx && has_trigram(lb, k2)) by {
                    if k2 == k {
                        if j < m@[k2]@.len() - 1 && old_m.contains_key(k2) {
                            assert(m@[k2]@[j] == old_m[k2]@[j]);
                        }
                    } else {
                        assert(old_m.contains_key(k2));
                        assert(m@[k2] == old_m[k2]);
                    }
                }
                assert forall|k2: u64, i: int|
                    0 <= i < idx && #[trigger] has_trigram(corpus.lower_view(lines@[i]), k2) implies m@.contains_key(
                        k2,
                    ) && m@[k2]@.contains(i as usize) by {
                    assert(old_m.contains_key(k2) && old_m[k2]@.contains(i as usize));
                    if k2 == k {
                        let p = choose|p: int| 0 <= p < old_m[k2]@.len() && old_m[k2]@[p] == i as usize;
                        assert(m@[k2]@[p] == i as usize);
                    }
                }
                assert forall|v: int| 0 <= v < w + 1 implies m@.contains_key(#[trigger] keys@[v])
                    && m@[keys@[v]]@.contains(idx) by {
                    if keys@[v] == k {
                        assert(m@[k]@[m@[k]@.len() - 1] == idx);
                    } else {
                        assert(old_m.contains_key(keys@[v]) && old_m[keys@[v]]@.contains(idx));
                    }
                }
            }
            w = w + 1;
        }
        proof {
            assert forall|k: u64, i: int|
                #![trigger has_trigram(corpus.lower_view(lines@[i]), k)]
                0 <= i < idx + 1 && has_trigram(corpus.lower_view(lines@[i]), k) implies m@.contains_key(
                    k,
                ) && m@[k]@.contains(i as usize) by {
                if i == idx {
                    let v = choose|v: int| 0 <= v < lb.len() + 1 && #[trigger] key_at(lb, v) == k;
                    assert(keys@[v] == k);
                }
            }
            assert forall|k: u64| #[trigger] m@.contains_key(k) implies exists|i: int|
                0 <= i < idx + 1 && has_trigram(#[trigger] corpus.lower_view(lines@[i]), k) by {
                if !(exists|i: int| 0 <= i < idx && has_trigram(#[trigger] corpus.lower_view(lines@[i]), k)) {
                    let v = choose|v: int| 0 <= v < w && keys@[v] == k;
                    assert(key_at(lb, v) == k);
                    assert(has_trigram(corpus.lower_view(lines@[idx as int]), k));
                }
            }
        }
        idx = idx + 1;
    }
    m
}

/// The first position of `p` in `s`.
pub fn find_bytes(s: &[u8], p: &[u8]) -> (r: Option<usize>)
    ensures
        r matches Some(i) ==> find_from(s@, p@, 0) == Some(i as int),
        r is None ==> find_from(s@, p@, 0) is None,
{
    let mut i: usize = 0;
    loop
        invariant
            find_from(s@, p@, 0) == find_from(s@, p@, i as int),
        decreases s@.len() + 1 - i,
    {
        if i > s.len() || p.len() > s.len() - i {
            return None;
        }
        let mut k: usize = 0;
        let mut same = true;
        while k < p.len()
            invariant
                i + p@.len() <= s@.len(),
                i + p.len() <= s.len(),
                k <= p@.len(),
                same == forall|j: int| 0 <= j < k ==> s@[i + j] == p@[j],
            decreases p@.len() - k,
        {
            if s[i + k] != p[k] {
                same = false;
            }
            k = k + 1;
        }
        proof {
            if same {
                assert(s@.subrange(i as int, i + p@.len()) =~= p@);
            } else {
                let j = choose|j: int| 0 <= j < p@.len() && s@[i + j] != p@[j];
                assert(s@.subrange(i as int, i + p@.len())[j] != p@[j]);
            }
        }
        if same {
            return Some(i);
        }
        proof {
            if p@.len() == 0 {
                assert(s@.subrange(i as int, i as int) =~= p@);
            }
        }
        i = i + 1;
    }
}

/// A vector of `n` copies of `b`.
fn bools(n: usize, b: bool) -> (r: Vec<bool>)
    ensures
        r@.len() == n,
        forall|i: int| 0 <= i < n ==> r@[i] == b,
{
    let mut r: Vec<bool> = Vec::new();
    let mut i: usize = 0;
    while i < n
        invariant
            i <= n,
            r@.len() == i,
            forall|j: int| 0 <= j < i ==> r@[j] == b,
        decreases n - i,
    {
        r.push(b);
        i = i + 1;
    }
    r
}

impl SearchIndex {
    /// A key is present in the postings exactly when some line holds it.
    proof fn lemma_present(&self, k: u64)
        requires
            self.inv(),
        ensures
            self.trigrams@.contains_key(k) == self.key_present(k),
    {
        if self.key_present(k) {
            let i = choose|i: int| 0 <= i < self.lines@.len() && has_trigram(self.lower_of(i), k);
            assert(has_trigram(self.corpus.lower_view(self.lines@[i]), k));
        }
        if self.trigrams@.contains_key(k) {
            let i = choose|i: int|
                0 <= i < self.lines@.len() && has_trigram(self.corpus.lower_view(self.lines@[i]), k);
            assert(has_trigram(self.lower_of(i), k));
        }
    }

    /// Which lines survive trigram filtering for the needle keys `keys` of
    /// `tn`: `None` when no needle key is present at all.
    fn candidate_marks(&self, keys: &Vec<u64>, Ghost(tn): Ghost<Seq<u8>>) -> (r: Option<Vec<bool>>)
        requires
            keys@ == trigram_keys_spec(tn),
        ensures
            r is None ==> !(exists|w: int| 0 <= w < tn.len() + 1 && self.key_present(key_at(tn, w))),
            r matches Some(a) ==> (exists|w: int| 0 <= w < tn.len() + 1 && self.key_present(key_at(tn, w)))
                && a@.len() == self.spec_lines().len() && forall|i: int|
                0 <= i < a@.len() ==> #[trigger] a@[i] == (forall|w: int|
                    0 <= w < tn.len() + 1 && self.key_present(key_at(tn, w)) ==> has_trigram(
                        self.lower_of(i),
                        key_at(tn, w),
                    )),
    {
        proof {
            use_type_invariant(self);
        }
        let n = self.lines.len();
        let mut alive = bools(n, true);
        let mut any = false;
        let mut w: usize = 0;
        while w < keys.len()
            invariant
                self.inv(),
                n == self.lines@.len(),
                keys@ == trigram_keys_spec(tn),
                w <= keys@.len(),
                alive@.len() == n,
                any == exists|v: int| 0 <= v < w && self.key_present(key_at(tn, v)),
                forall|i: int|
                    0 <= i < n ==> #[trigger] alive@[i] == (forall|v: int|
                        0 <= v < w && self.key_present(key_at(tn, v)) ==> has_trigram(
                            self.lower_of(i),
                            key_at(tn, v),
                        )),
            decreases keys@.len() - w,
        {
            let k = keys[w];
            proof {
                self.lemma_present(k);
                assert(k == key_at(tn, w as int));
            }
            match self.trigrams.get(&k) {
                None => {
                    proof {
                        assert forall|i: int| 0 <= i < n implies #[trigger] alive@[i] == (forall|v: int|
                            0 <= v < w + 1 && self.key_present(key_at(tn, v)) ==> has_trigram(
                                self.lower_of(i),
                                key_at(tn, v),
                            )) by {}
                    }
                },
                Some(list) => {
                    any = true;
                    let mut mark: HashSetWithView<usize> = HashSetWithView::new();
                    let mut j: usize = 0;
                    while j < list.len()
                        invariant
                            self.inv(),
                            n == self.lines@.len(),
                            self.trigrams@.contains_key(k),
                            *list == self.trigrams@[k],
                            j <= list@.len(),
                            forall|q: usize|
                                #[trigger] mark@.contains(q) == exists|p: int|
                                    0 <= p < j && list@[p] == q,
                        decreases list@.len() - j,
                    {
                        let li = list[j];
                        mark.insert(li);
                        proof {
                            assert forall|q: usize| #[trigger] mark@.contains(q) == exists|p: int|
                                0 <= p < j + 1 && list@[p] == q by {
                                if q == li {
                                    assert(list@[j as int] == q);
                                }
                            }
                        }
                        j = j + 1;
                    }
                    let mut i: usize = 0;
                    while i < n
                        invariant
                            self.inv(),
                            n == self.lines@.len(),
                            self.trigrams@.contains_key(k),
                            *list == self.trigrams@[k],
                            k == key_at(tn, w as int),
                            self.key_present(k),
                            alive@.len() == n,
                            i <= n,
                            forall|q: usize|
                                #[trigger] mark@.contains(q) == exists|p: int|
                                    0 <= p < list@.len() && list@[p] == q,
                            forall|q: int|
                                i <= q < n ==> #[trigger] alive@[q] == (forall|v: int|
                                    0 <= v < w && self.key_present(key_at(tn, v)) ==> has_trigram(
                                        self.lower_of(q),
                                        key_at(tn, v),
                                    )),
                            forall|q: int|
                                0 <= q < i ==> #[trigger] alive@[q] == (forall|v: int|
                                    0 <= v < w + 1 && self.key_present(key_at(tn, v)) ==> has_trigram(
                                        self.lower_of(q),
                                        key_at(tn, v),
                                    )),
                        decreases n - i,
                    {
                        proof {
                            let q = i as int;
                            if has_trigram(self.lower_of(q), k) {
                                assert(has_trigram(self.corpus.lower_view(self.lines@[q]), k));
                                assert(self.trigrams@[k]@.contains(i));
                            }
                            if mark@.contains(i) {
                                let p = choose|p: int| 0 <= p < list@.len() && list@[p] == i;
                                assert(self.trigrams@[k]@[p] == q);
                            }
                            assert(mark@.contains(i) == has_trigram(self.lower_of(q), k));
                        }
                        if alive[i] && !mark.contains(&i) {
                            alive.set(i, false);
                        }
                        i = i + 1;
                    }
                },
            }
            w = w + 1;
        }
        if any {
            Some(alive)
        } else {
            None
        }
    }

    /// Hits are only ever added at the end as more lines are scanned.
    proof fn lemma_hits_prefix(&self, query: Seq<char>, ignore_case: bool, a: int, b: int)
        requires
            0 <= a <= b,
        ensures
            self.hits(query, ignore_case, a) == self.hits(query, ignore_case, b).take(
                self.hits(query, ignore_case, a).len() as int,
            ),
            self.hits(query, ignore_case, a).len() <= self.hits(query, ignore_case, b).len(),
        decreases b - a,
    {
        if a < b {
            self.lemma_hits_prefix(query, ignore_case, a, b - 1);
            let hb1 = self.hits(query, ignore_case, b - 1);
            let hb = self.hits(query, ignore_case, b);
            assert(hb1 =~= hb.take(hb1.len() as int));
        } else {
            let ha = self.hits(query, ignore_case, a);
            assert(ha.take(ha.len() as int) =~= ha);
        }
    }

    /// The text line `i` is searched in: its lowercase text when case is
    /// ignored, else its text.
    pub open spec fn hay_of(&self, i: int, ignore_case: bool) -> Seq<u8> {
        if ignore_case {
            self.lower_of(i)
        } else {
            self.text_of(i)
        }
    }

    /// `h` reports line `i` as holding the needle: its path and number,
    /// the 1-based column of the needle's first occurrence, and its text.
    pub open spec fn reports_line(&self, query: Seq<char>, ignore_case: bool, i: int, h: HitView) -> bool {
        &&& 0 <= i < self.spec_lines().len()
        &&& match find_from(self.hay_of(i, ignore_case), needle_of(query, ignore_case), 0) {
            Some(pos) => h == (
                self.spec_lines()[i].path@,
                self.spec_lines()[i].line_number,
                column_spec(pos),
                self.text_of(i),
            ),
            None => false,
        }
    }

    /// `h` reports one of the first `upto` lines as holding the needle.
    pub open spec fn reports_some_line(&self, query: Seq<char>, ignore_case: bool, upto: int, h: HitView) -> bool {
        exists|i: int| 0 <= i < upto && #[trigger] self.reports_line(query, ignore_case, i, h)
    }

    proof fn lemma_hits_from_lines(&self, query: Seq<char>, ignore_case: bool, upto: int)
        requires
            0 <= upto <= self.spec_lines().len(),
        ensures
            forall|k: int|
                0 <= k < self.hits(query, ignore_case, upto).len() ==> self.reports_some_line(
                    query,
                    ignore_case,
                    upto,
                    #[trigger] self.hits(query, ignore_case, upto)[k],
                ),
        decreases upto,
    {
        if upto > 0 {
            self.lemma_hits_from_lines(query, ignore_case, upto - 1);
            let before = self.hits(query, ignore_case, upto - 1);
            let all = self.hits(query, ignore_case, upto);
            assert forall|k: int| 0 <= k < all.len() implies self.reports_some_line(
                query,
                ignore_case,
                upto,
                #[trigger] all[k],
            ) by {
                if k < before.len() {
                    assert(all[k] == before[k]);
                    assert(self.reports_some_line(query, ignore_case, upto - 1, before[k]));
                    let i = choose|i: int| 0 <= i < upto - 1 && #[trigger] self.reports_line(query, ignore_case, i, before[k]);
                    assert(self.reports_line(query, ignore_case, i, all[k]));
                } else {
                    assert(self.reports_line(query, ignore_case, upto - 1, all[k]));
                }
            }
        }
    }

    /// Search the indexed lines for `query` as a literal: lines whose text
    /// (lowercase text when `ignore_case`) holds it, in index order, after
    /// trigram filtering on the lowercased query; at most `limit` hits (at
    /// least one if there is any), each with its 1-based byte column.
    pub fn search(&self, query: &str, limit: usize, ignore_case: bool) -> (r: Vec<IndexMatch>)
        ensures
            hit_views(r@) == self.search_spec(query@, limit, ignore_case),
    {
        proof {
            use_type_invariant(self);
        }
        if query.is_empty() {
            let r: Vec<IndexMatch> = Vec::new();
            assert(hit_views(r@) =~= Seq::<HitView>::empty());
            return r;
        }
        let lower_query = to_lowercase(query);
        let needle: &[u8] = if ignore_case {
            lower_query.as_str().as_bytes()
        } else {
            query.as_bytes()
        };
        let tn = lower_query.as_str().as_bytes();
        let ghost tnv = utf8(lowercase(query@));
        let use_grams = tn.len() >= 3;
        let marks: Option<Vec<bool>> = if use_grams {
            let keys = trigrams(lower_query.as_str());
            self.candidate_marks(&keys, Ghost(tnv))
        } else {
            None
        };
        let ghost all = self.hits(query@, ignore_case, self.lines@.len() as int);
        let ghost cap: int = if limit == 0 {
            1
        } else {
            limit as int
        };
        let n = self.lines.len();
        let mut results: Vec<IndexMatch> = Vec::new();
        let mut i: usize = 0;
        while i < n
            invariant_except_break
                hit_views(results@) == self.hits(query@, ignore_case, i as int),
                results@.len() < cap,
            invariant
                self.inv(),
                n == self.lines@.len(),
                i <= n,
                query@.len() > 0,
                tn@ == tnv,
                tnv == utf8(lowercase(query@)),
                needle@ == (if ignore_case {
                    tnv
                } else {
                    utf8(query@)
                }),
                use_grams == (tnv.len() >= 3),
                use_grams && marks is None ==> !(exists|w: int|
                    0 <= w < tnv.len() + 1 && self.key_present(key_at(tnv, w))),
                !use_grams ==> marks is None,
                marks matches Some(a) ==> use_grams && (exists|w: int|
                    0 <= w < tnv.len() + 1 && self.key_present(key_at(tnv, w))) && a@.len() == n
                    && forall|q: int|
                    0 <= q < a@.len() ==> #[trigger] a@[q] == (forall|w: int|
                        0 <= w < tnv.len() + 1 && self.key_present(key_at(tnv, w)) ==> has_trigram(
                            self.lower_of(q),
                            key_at(tnv, w),
                        )),
                all == self.hits(query@, ignore_case, n as int),
                cap == (if limit == 0 {
                    1
                } else {
                    limit as int
                }),
            ensures
                hit_views(results@) == (if all.len() <= cap {
                    all
                } else {
                    all.take(cap)
                }),
            decreases n - i,
        {
            let candidate = if use_grams {
                match &marks {
                    Some(a) => a[i],
                    None => false,
                }
            } else {
                true
            };
            proof {
                assert(candidate == self.is_candidate(tnv, i as int));
            }
            if candidate {
                let line = &self.lines[i];
                let hay = if ignore_case {
                    self.corpus.lower_at(line)
                } else {
                    self.corpus.text_at(line)
                };
                let hay_bytes = hay.as_bytes();
                match find_bytes(hay_bytes, needle) {
                    Some(pos) => {
                        proof {
                            crate::text::lemma_find_from(hay_bytes@, needle@, 0);
                        }
                        let text = self.corpus.text_at(line);
                        let m = IndexMatch {
                            path: line.path.clone(),
                            line_number: line.line_number,
                            column: column_number(pos),
                            line_text: String::from_str(text),
                        };
                        let ghost before = results@;
                        proof {
                            assert(hay_bytes@ == utf8(hay@));
                            
                            assert(m.hit_view().3 == self.text_of(i as int));
                            assert(self.hit_at(query@, ignore_case, i as int) == Some(m.hit_view()));
                        }
                        results.push(m);
                        proof {
                            assert(hit_views(results@) =~= hit_views(before).push(m.hit_view()));
                        }
                        if results.len() >= limit {
                            proof {
                                self.lemma_hits_prefix(query@, ignore_case, i + 1, n as int);
                            }
                            break;
                        }
                    },
                    None => {
                        proof {
                            assert(hay_bytes@ == utf8(hay@));
                            assert(self.hit_at(query@, ignore_case, i as int) is None);
                        }
                    },
                }
            }
            i = i + 1;
        }
        proof {
            if i == n {
            }
        }
        results
    }
}

/// A parsed file: its path relative to the root, and its numbered lines.
pub type ParsedFile = (String, Vec<(u64, String)>);

/// One line to index: path, line number, text.
pub type LineEntry = (Seq<char>, u64, Seq<char>);

/// Lines numbered from one.
pub open spec fn numbered(ls: Seq<Seq<char>>) -> Seq<(u64, Seq<char>)> {
    Seq::new(ls.len(), |j: int| ((j + 1) as u64, ls[j]))
}

/// The view of a parsed file's lines.
pub open spec fn file_lines_view(v: Seq<(u64, String)>) -> Seq<(u64, Seq<char>)> {
    v.map_values(|l: (u64, String)| (l.0, l.1@))
}

/// What indexing takes of a file read from disk: nothing when its relative
/// path leaves the root, when it is larger than `max_file_size`, or when it
/// holds a zero byte (binary); otherwise its lines (invalid UTF-8 replaced)
/// numbered from one.
pub open spec fn parse_file_spec(rel: Seq<char>, bytes: Seq<u8>, max_file_size: u64) -> Option<Seq<(u64, Seq<char>)>> {
    if has_parent_component(rel) || bytes.len() > max_file_size || bytes.contains(0u8) {
        None
    } else {
        Some(numbered(lines_spec(utf8_lossy(bytes))))
    }
}

/// A file read from disk, ready to index.
pub fn parse_file(rel: &str, bytes: &[u8], max_file_size: u64) -> (r: Option<ParsedFile>)
    ensures
        match parse_file_spec(rel@, bytes@, max_file_size) {
            Some(ls) => r matches Some(f) && f.0@ == rel@ && file_lines_view(f.1@) == ls,
            None => r is None,
        },
{
    if !is_safe_relative_path(rel) {
        return None;
    }
    if bytes.len() as u64 > max_file_size {
        return None;
    }
    let mut k: usize = 0;
    while k < bytes.len()
        invariant
            k <= bytes@.len(),
            forall|j: int| 0 <= j < k ==> bytes@[j] != 0u8,
        decreases bytes@.len() - k,
    {
        if bytes[k] == 0 {
            assert(bytes@.contains(0u8)) by {
                assert(bytes@[k as int] == 0u8);
            }
            return None;
        }
        k = k + 1;
    }
    let text = lossy_text(bytes);
    let lines = str_lines(text.as_str());
    let ghost ls = lines_spec(utf8_lossy(bytes@));
    let mut out: Vec<(u64, String)> = Vec::new();
    let mut i: usize = 0;
    while i < lines.len()
        invariant
            views(lines@) == ls,
            i <= ls.len(),
            file_lines_view(out@) == numbered(ls).take(i as int),
        decreases ls.len() - i,
    {
        let ghost before = out@;
        out.push(((i + 1) as u64, String::from_str(lines[i].as_str())));
        proof {
            assert(file_lines_view(out@) =~= file_lines_view(before).push(((i + 1) as u64, ls[i as int])));
            assert(numbered(ls).take(i + 1) =~= numbered(ls).take(i as int).push(
                ((i + 1) as u64, ls[i as int]),
            ));
        }
        i = i + 1;
    }
    proof {
        assert(numbered(ls).take(ls.len() as int) =~= numbered(ls));
    }
    Some((String::from_str(rel), out))
}

/// The lines of a parsed file, in order.
pub open spec fn file_entries(f: ParsedFile) -> Seq<LineEntry> {
    Seq::new(f.1@.len(), |j: int| (f.0@, f.1@[j].0, f.1@[j].1@))
}

/// The lines of all parsed files, file after file.
pub open spec fn all_entries(files: Seq<ParsedFile>) -> Seq<LineEntry>
    decreases files.len(),
{
    if files.len() == 0 {
        Seq::empty()
    } else {
        all_entries(files.drop_last()) + file_entries(files.last())
    }
}

/// The text region: every line's text, one after the other.
pub open spec fn text_region(es: Seq<LineEntry>) -> Seq<u8>
    decreases es.len(),
{
    if es.len() == 0 {
        Seq::empty()
    } else {
        text_region(es.drop_last()) + utf8(es.last().2)
    }
}

/// The lowercase region: every line's lowercase text, one after the other.
pub open spec fn lower_region(es: Seq<LineEntry>) -> Seq<u8>
    decreases es.len(),
{
    if es.len() == 0 {
        Seq::empty()
    } else {
        lower_region(es.drop_last()) + utf8(lowercase(es.last().2))
    }
}

/// Parsed file `f` has path `p` and at least one line.
pub open spec fn names_file(files: Seq<ParsedFile>, f: int, p: Seq<char>) -> bool {
    files[f].0@ == p && files[f].1@.len() > 0
}

/// The paths of the first `n` parsed files that have at least one line.
pub open spec fn files_with_lines_upto(files: Seq<ParsedFile>, n: int) -> Set<Seq<char>> {
    Set::new(|p: Seq<char>| exists|f: int| 0 <= f < n && #[trigger] names_file(files, f, p))
}

/// The paths of the parsed files that have at least one line.
pub open spec fn files_with_lines(files: Seq<ParsedFile>) -> Set<Seq<char>> {
    files_with_lines_upto(files, files.len() as int)
}

/// `line` is where entry `k` of `es` was placed.
pub open spec fn placed(line: LineRef, es: Seq<LineEntry>, k: int) -> bool {
    &&& line.path@ == es[k].0
    &&& line.line_number == es[k].1
    &&& line.text_off == text_region(es.take(k)).len()
    &&& line.text_len == utf8(es[k].2).len()
    &&& line.lower_off == lower_region(es.take(k)).len()
}

/// Entry `k`'s text sits in the text region right after the texts before
/// it, and likewise its lowercase text in the lowercase region.
pub proof fn lemma_region_slice(es: Seq<LineEntry>, k: int)
    requires
        0 <= k < es.len(),
    ensures
        text_region(es.take(k)).len() + utf8(es[k].2).len() <= text_region(es).len(),
        text_region(es).subrange(
            text_region(es.take(k)).len() as int,
            (text_region(es.take(k)).len() + utf8(es[k].2).len()) as int,
        ) == utf8(es[k].2),
        lower_region(es.take(k)).len() + utf8(lowercase(es[k].2)).len() <= lower_region(es).len(),
        lower_region(es).subrange(
            lower_region(es.take(k)).len() as int,
            (lower_region(es.take(k)).len() + utf8(lowercase(es[k].2)).len()) as int,
        ) == utf8(lowercase(es[k].2)),
    decreases es.len(),
{
    if k == es.len() - 1 {
        assert(es.take(k) =~= es.drop_last());
        assert(text_region(es) == text_region(es.drop_last()) + utf8(es.last().2));
        assert(lower_region(es) == lower_region(es.drop_last()) + utf8(lowercase(es.last().2)));
    } else {
        lemma_region_slice(es.drop_last(), k);
        assert(es.drop_last().take(k) =~= es.take(k));
        assert(es.drop_last()[k] == es[k]);
        let t = text_region(es.drop_last());
        let l = lower_region(es.drop_last());
        assert(text_region(es) == t + utf8(es.last().2));
        assert(lower_region(es) == l + utf8(lowercase(es.last().2)));
        let a = text_region(es.take(k)).len() as int;
        let b = lower_region(es.take(k)).len() as int;
        assert((t + utf8(es.last().2)).subrange(a, a + utf8(es[k].2).len()) =~= t.subrange(
            a,
            a + utf8(es[k].2).len(),
        ));
        assert((l + utf8(lowercase(es.last().2))).subrange(b, b + utf8(lowercase(es[k].2)).len())
            =~= l.subrange(b, b + utf8(lowercase(es[k].2)).len()));
    }
}

/// What is read back of a placed line: its text always, and its lowercase
/// text when no text holds a zero byte and lowercasing keeps the line's
/// byte length.
pub proof fn lemma_read_back(es: Seq<LineEntry>, lines: Seq<LineRef>, corpus: LineCorpus, k: int)
    requires
        0 <= k < es.len(),
        k < lines.len(),
        placed(lines[k], es, k),
        corpus.spec_bytes() == text_region(es) + seq![0u8] + lower_region(es),
        corpus.spec_text_region_len() == crate::corpus::first_zero(corpus.spec_bytes()),
    ensures
        corpus.text_view(lines[k]) == utf8(es[k].2),
        !text_region(es).contains(0u8) && utf8(lowercase(es[k].2)).len() == utf8(es[k].2).len()
            ==> corpus.lower_view(lines[k]) == utf8(lowercase(es[k].2)),
{
    lemma_region_slice(es, k);
    let t = text_region(es);
    let l = lower_region(es);
    let b = corpus.spec_bytes();
    let line = lines[k];
    let a = line.text_off as int;
    assert(b.subrange(a, a + line.text_len) =~= t.subrange(a, a + line.text_len));
    vstd::utf8::encode_utf8_valid_utf8(es[k].2);
    vstd::utf8::encode_utf8_valid_utf8(lowercase(es[k].2));
    if !t.contains(0u8) && utf8(lowercase(es[k].2)).len() == utf8(es[k].2).len() {
        let z = t.len() as int;
        assert(b[z] == 0u8);
        assert forall|j: int| 0 <= j < z implies b[j] != 0u8 by {
            assert(b[j] == t[j]);
            if t[j] == 0u8 {
                assert(t.contains(0u8));
            }
        }
        assert(exists|i: int| 0 <= i < b.len() && b[i] == 0);
        let c = crate::corpus::first_zero(b);
        assert(0 <= z < b.len() && b[z] == 0 && forall|j: int| 0 <= j < z ==> b[j] != 0);
        assert(c == z) by {
            let w = choose|i: int| 0 <= i < b.len() && b[i] == 0 && forall|j: int| 0 <= j < i ==> b[j] != 0;
            assert(c == w);
            if w < z {
                assert(b[w] != 0u8);
            }
            if w > z {
                assert(b[z] != 0);
            }
        }
        let s = z + 1 + line.lower_off;
        assert(b.subrange(s, s + line.text_len) =~= l.subrange(
            line.lower_off as int,
            line.lower_off + line.text_len,
        ));
    }
}

impl SearchIndex {
    /// Replace the contents of the index with the given files, in order:
    /// every line gets its text and lowercase text appended to the corpus,
    /// every file with lines is recorded, and the trigram postings are
    /// rebuilt. Returns the number of lines indexed.
    pub fn build(&mut self, parsed: &Vec<ParsedFile>) -> (r: usize)
        ensures
            r == all_entries(parsed@).len(),
            final(self).spec_root() == old(self).spec_root(),
            final(self).spec_max_file_size() == old(self).spec_max_file_size(),
            final(self).spec_lines().len() == all_entries(parsed@).len(),
            forall|k: int|
                0 <= k < all_entries(parsed@).len() ==> placed(
                    #[trigger] final(self).spec_lines()[k],
                    all_entries(parsed@),
                    k,
                ),
            final(self).spec_corpus().spec_bytes() == text_region(all_entries(parsed@)) + seq![0u8]
                + lower_region(all_entries(parsed@)),
            final(self).spec_corpus().spec_text_region_len() == crate::corpus::first_zero(
                final(self).spec_corpus().spec_bytes(),
            ),
            final(self).spec_files() == files_with_lines(parsed@),
            forall|k: int|
                0 <= k < all_entries(parsed@).len() ==> #[trigger] final(self).text_of(k) == utf8(
                    all_entries(parsed@)[k].2,
                ),
            forall|k: int|
                0 <= k < all_entries(parsed@).len() && !text_region(all_entries(parsed@)).contains(0u8)
                    && utf8(lowercase(all_entries(parsed@)[k].2)).len() == utf8(
                    all_entries(parsed@)[k].2,
                ).len() ==> #[trigger] final(self).lower_of(k) == utf8(
                    lowercase(all_entries(parsed@)[k].2),
                ),
    {
        let mut lines: Vec<LineRef> = Vec::new();
        let mut writer: Vec<u8> = Vec::new();
        let mut lower: Vec<u8> = Vec::new();
        let mut file_ranges: StringHashMap<(usize, usize)> = StringHashMap::new();
        let mut files: Vec<String> = Vec::new();
        let mut f: usize = 0;
        while f < parsed.len()
            invariant
                f <= parsed@.len(),
                lines@.len() == all_entries(parsed@.take(f as int)).len(),
                forall|k: int|
                    0 <= k < lines@.len() ==> placed(
                        #[trigger] lines@[k],
                        all_entries(parsed@.take(f as int)),
                        k,
                    ),
                writer@ == text_region(all_entries(parsed@.take(f as int))),
                lower@ == lower_region(all_entries(parsed@.take(f as int))),
                strictly_sorted(views(files@)),
                forall|p: Seq<char>|
                    file_ranges@.contains_key(p) <==> views(files@).contains(p),
                file_ranges@.dom() == files_with_lines_upto(parsed@, f as int),
            decreases parsed@.len() - f,
        {
            let ghost before = all_entries(parsed@.take(f as int));
            let rel = &parsed[f].0;
            let file_lines = &parsed[f].1;
            let start = lines.len();
            let mut j: usize = 0;
            while j < file_lines.len()
                invariant
                    f < parsed@.len(),
                    *rel == parsed@[f as int].0,
                    *file_lines == parsed@[f as int].1,
                    j <= file_lines@.len(),
                    start == before.len(),
                    lines@.len() == before.len() + j,
                    forall|k: int|
                        0 <= k < lines@.len() ==> placed(
                            #[trigger] lines@[k],
                            before + file_entries(parsed@[f as int]).take(j as int),
                            k,
                        ),
                    writer@ == text_region(before + file_entries(parsed@[f as int]).take(j as int)),
                    lower@ == lower_region(before + file_entries(parsed@[f as int]).take(j as int)),
                decreases file_lines@.len() - j,
            {
                let ghost es = before + file_entries(parsed@[f as int]).take(j as int);
                let ghost es1 = before + file_entries(parsed@[f as int]).take(j + 1);
                proof {
                    assert(es1 =~= es.push(file_entries(parsed@[f as int])[j as int]));
                    assert(es1.drop_last() =~= es);
                    assert forall|k: int| 0 <= k < es.len() implies #[trigger] es1.take(k) == es.take(k) && es1[k] == es[k] by {
                        assert(es1.take(k) =~= es.take(k));
                    }
                    assert(es1.take(es.len() as int) =~= es);
                }
                let line = &file_lines[j];
                let r = LineCorpus::append_line(&mut writer, &mut lower, rel.as_str(), line.0, line.1.as_str());
                lines.push(r);
                j = j + 1;
            }
            proof {
                assert(parsed@.take(f + 1).drop_last() =~= parsed@.take(f as int));
                assert(parsed@.take(f + 1).last() == parsed@[f as int]);
                assert(file_entries(parsed@[f as int]).take(file_lines@.len() as int) =~= file_entries(parsed@[f as int]));
            }
            if start < lines.len() {
                let ghost old_dom = file_ranges@.dom();
                if !file_ranges.contains_key(rel.as_str()) {
                    insert_sorted(&mut files, rel.clone());
                }
                file_ranges.insert(rel.clone(), (start, lines.len()));
                proof {
                    assert(file_ranges@.dom() =~= old_dom.insert(rel@));
                    assert(files_with_lines_upto(parsed@, f + 1) =~= files_with_lines_upto(parsed@, f as int).insert(rel@)) by {
                        assert(names_file(parsed@, f as int, rel@));
                        assert forall|p: Seq<char>| files_with_lines_upto(parsed@, f + 1).contains(p) implies
                            files_with_lines_upto(parsed@, f as int).insert(rel@).contains(p) by {
                            let g = choose|g: int| 0 <= g < f + 1 && #[trigger] names_file(parsed@, g, p);
                        }
                    }
                    assert forall|p: Seq<char>| file_ranges@.contains_key(p) <==> views(files@).contains(p) by {
                        if p == rel@ {
                            assert(views(files@).to_set().contains(rel@));
                        } else {
                            assert(views(files@).to_set().contains(p) == views(files@).contains(p));
                        }
                    }
                }
            } else {
                proof {
                    assert(files_with_lines_upto(parsed@, f + 1) =~= files_with_lines_upto(parsed@, f as int)) by {
                        assert forall|p: Seq<char>| files_with_lines_upto(parsed@, f + 1).contains(p) implies
                            files_with_lines_upto(parsed@, f as int).contains(p) by {
                            let g = choose|g: int| 0 <= g < f + 1 && #[trigger] names_file(parsed@, g, p);
                            assert(g != f);
                        }
                    }
                }
            }
            f = f + 1;
        }
        proof {
            assert(parsed@.take(parsed@.len() as int) =~= parsed@);
        }
        let corpus = LineCorpus::finalize(writer, lower.as_slice());
        let trigrams = index_trigrams(&lines, &corpus);
        let count = lines.len();
        let root = self.root.clone();
        *self = SearchIndex {
            root,
            max_file_size: self.max_file_size,
            lines,
            trigrams,
            file_ranges,
            files,
            corpus,
        };
        proof {
            let es = all_entries(parsed@);
            assert forall|k: int| 0 <= k < es.len() implies #[trigger] self.text_of(k) == utf8(
                es[k].2,
            ) by {
                lemma_read_back(es, self.spec_lines(), self.spec_corpus(), k);
            }
            assert forall|k: int|
                0 <= k < es.len() && !text_region(es).contains(0u8) && utf8(lowercase(es[k].2)).len()
                    == utf8(es[k].2).len() implies #[trigger] self.lower_of(k) == utf8(
                lowercase(es[k].2),
            ) by {
                lemma_read_back(es, self.spec_lines(), self.spec_corpus(), k);
            }
        }
        count
    }

    /// Bring the index up to date after `paths` changed on disk: nothing to
    /// do when none did (the line count is returned); otherwise the whole
    /// index is rebuilt from `reread`, the project's files read again.
    pub fn update_paths(&mut self, paths: &Vec<String>, reread: &Vec<ParsedFile>) -> (r: usize)
        ensures
            paths@.len() == 0 ==> *final(self) == *old(self) && r == old(self).spec_lines().len(),
            paths@.len() > 0 ==> r == all_entries(reread@).len() && final(self).spec_lines().len()
                == all_entries(reread@).len() && final(self).spec_files() == files_with_lines(reread@)
                && final(self).spec_root() == old(self).spec_root() && (forall|k: int|
                0 <= k < all_entries(reread@).len() ==> #[trigger] final(self).text_of(k) == utf8(
                    all_entries(reread@)[k].2,
                )) && (forall|k: int|
                0 <= k < all_entries(reread@).len() ==> placed(
                    #[trigger] final(self).spec_lines()[k],
                    all_entries(reread@),
                    k,
                )),
    {
        if paths.len() == 0 {
            return self.lines.len();
        }
        self.build(reread)
    }

    /// The indexed files, sorted.
    pub fn list_files(&self) -> (r: Vec<String>)
        ensures
            strictly_sorted(views(r@)),
            views(r@).to_set() == self.spec_files(),
    {
        proof {
            use_type_invariant(self);
        }
        let mut r: Vec<String> = Vec::new();
        let mut i: usize = 0;
        while i < self.files.len()
            invariant
                i <= self.files@.len(),
                r@.len() == i,
                views(r@) == views(self.files@).take(i as int),
            decreases self.files@.len() - i,
        {
            let ghost before = r@;
            let st = String::from_str(self.files[i].as_str());
            r.push(st);
            proof {
                assert(r@ == before.push(st));
                assert(views(r@) =~= views(before).push(self.files@[i as int]@));
            }
            i = i + 1;
            assert(views(r@) =~= views(self.files@).take(i as int));
        }
        proof {
            assert(views(self.files@).take(i as int) =~= views(self.files@));
            assert forall|p: Seq<char>| views(r@).to_set().contains(p) <==> self.file_ranges@.contains_key(p) by {}
            assert(views(r@).to_set() =~= self.file_ranges@.dom());
        }
        r
    }
}

/// Every hit of a search reports a line that holds the needle (its
/// lowercase text the lowercased query, when case is ignored) at the
/// hit's column, and a search never returns more hits than its limit
/// (one, for a limit of zero).
pub proof fn lemma_search_sound(ix: SearchIndex, query: Seq<char>, limit: usize, ignore_case: bool)
    ensures
        ix.search_spec(query, limit, ignore_case).len() <= if limit == 0 {
            1
        } else {
            limit as int
        },
        forall|k: int|
            0 <= k < ix.search_spec(query, limit, ignore_case).len() ==> ix.reports_some_line(
                query,
                ignore_case,
                ix.spec_lines().len() as int,
                #[trigger] ix.search_spec(query, limit, ignore_case)[k],
            ),
{
    let n = ix.spec_lines().len() as int;
    ix.lemma_hits_from_lines(query, ignore_case, n);
    let all = ix.hits(query, ignore_case, n);
    let r = ix.search_spec(query, limit, ignore_case);
    assert forall|k: int| 0 <= k < r.len() implies ix.reports_some_line(
        query,
        ignore_case,
        n,
        #[trigger] r[k],
    ) by {
        assert(r[k] == all[k]);
    }
}

/// A query whose lowercase form is shorter than three bytes skips trigram
/// filtering, so every line holding the needle is a hit.
pub proof fn lemma_short_query_complete(ix: SearchIndex, query: Seq<char>, ignore_case: bool, i: int)
    requires
        0 <= i < ix.spec_lines().len(),
        utf8(lowercase(query)).len() < 3,
        contains(ix.hay_of(i, ignore_case), needle_of(query, ignore_case)),
    ensures
        ix.hit_at(query, ignore_case, i) is Some,
{
    lemma_find_contains(ix.hay_of(i, ignore_case), needle_of(query, ignore_case));
}

} // verus!
