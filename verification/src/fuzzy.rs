//! Fuzzy matching of a needle against a haystack, case-insensitively: an
//! exact match, a substring, or a subsequence with its longest run.
use vstd::prelude::*;

use crate::text::{chars_eq, chars_of, contains, contains_exec, lowercase, to_lowercase};

verus! {

broadcast use vstd::string::group_string_axioms;

/// How a needle matches a haystack. The lengths let a caller weigh the match.
#[derive(Debug, Clone, Copy, PartialEq, Eq, Structural)]
pub enum FuzzyMatch {
    /// The needle is empty.
    EmptyNeedle,
    /// Both are equal once lowercased.
    Exact,
    /// The lowercased needle is a substring; lengths in bytes.
    Substring { needle_len: usize, haystack_len: usize },
    /// The lowercased needle is a subsequence; lengths in characters, and
    /// the longest run of consecutive matched characters.
    Subsequence { needle_len: usize, haystack_len: usize, longest_run: usize },
    /// No match.
    NoMatch,
}

/// Greedy left-to-right subsequence scan from needle position `ni` and
/// haystack position `hi`, with the current run `run` and the longest run
/// `best` so far: the longest run when every needle character is found.
pub open spec fn scan(h: Seq<char>, n: Seq<char>, hi: int, ni: int, run: nat, best: nat) -> Option<nat>
    decreases h.len() - hi,
{
    if ni >= n.len() {
        Some(best)
    } else if hi >= h.len() || hi < 0 || ni < 0 {
        None
    } else if h[hi] == n[ni] {
        let r = run + 1;
        scan(h, n, hi + 1, ni + 1, r, if best >= r { best } else { r })
    } else {
        scan(h, n, hi + 1, ni, 0, best)
    }
}

/// How `needle` matches `haystack`.
pub open spec fn fuzzy_spec(haystack: Seq<char>, needle: Seq<char>) -> FuzzyMatch {
    let h = lowercase(haystack);
    let n = lowercase(needle);
    if needle.len() == 0 {
        FuzzyMatch::EmptyNeedle
    } else if h == n {
        FuzzyMatch::Exact
    } else if contains(h, n) {
        FuzzyMatch::Substring {
            needle_len: vstd::utf8::encode_utf8(n).len() as usize,
            haystack_len: vstd::utf8::encode_utf8(h).len() as usize,
        }
    } else {
        match scan(h, n, 0, 0, 0, 0) {
            Some(best) => FuzzyMatch::Subsequence {
                needle_len: n.len() as usize,
                haystack_len: h.len() as usize,
                longest_run: best as usize,
            },
            None => FuzzyMatch::NoMatch,
        }
    }
}

impl FuzzyMatch {
    /// Whether this is a match at all (a positive score).
    pub open spec fn spec_is_match(&self) -> bool {
        !(self is NoMatch)
    }

    /// Whether this is a match at all (a positive score).
    #[verifier::when_used_as_spec(spec_is_match)]
    pub fn is_match(&self) -> (b: bool)
        ensures
            b == self.spec_is_match(),
    {
        match self {
            FuzzyMatch::NoMatch => false,
            _ => true,
        }
    }
}

/// The subsequence scan, executably.
fn scan_exec(h: &[char], n: &[char]) -> (r: Option<usize>)
    ensures
        r matches Some(b) ==> scan(h@, n@, 0, 0, 0, 0) == Some(b as nat),
        r is None ==> scan(h@, n@, 0, 0, 0, 0) is None,
{
    let mut hi: usize = 0;
    let mut run: usize = 0;
    let mut best: usize = 0;
    let mut ni: usize = 0;
    while ni < n.len()
        invariant
            ni <= n@.len(),
            hi <= h@.len(),
            run <= hi,
            best <= hi,
            scan(h@, n@, 0, 0, 0, 0) == scan(h@, n@, hi as int, ni as int, run as nat, best as nat),
        decreases n@.len() - ni,
    {
        let nc = n[ni];
        let mut found = false;
        while hi < h.len()
            invariant_except_break
                !found,
                scan(h@, n@, 0, 0, 0, 0) == scan(h@, n@, hi as int, ni as int, run as nat, best as nat),
            invariant
                ni < n@.len(),
                nc == n@[ni as int],
                hi <= h@.len(),
                run <= hi,
                best <= hi,
            ensures
                found ==> scan(h@, n@, 0, 0, 0, 0) == scan(
                    h@,
                    n@,
                    hi as int,
                    ni + 1,
                    run as nat,
                    best as nat,
                ),
                !found ==> hi >= h@.len() && scan(h@, n@, 0, 0, 0, 0) == scan(
                    h@,
                    n@,
                    hi as int,
                    ni as int,
                    run as nat,
                    best as nat,
                ),
            decreases h@.len() - hi,
        {
            if h[hi] == nc {
                run = run + 1;
                if run > best {
                    best = run;
                }
                hi = hi + 1;
                found = true;
                break;
            }
            run = 0;
            hi = hi + 1;
        }
        if !found {
            return None;
        }
        ni = ni + 1;
    }
    Some(best)
}

/// How `needle` matches `haystack`, ignoring case: empty needle, exact,
/// substring (with byte lengths), greedy subsequence (with character
/// lengths and the longest run of consecutive matches), or no match.
pub fn fuzzy_match(haystack: &str, needle: &str) -> (r: FuzzyMatch)
    ensures
        r == fuzzy_spec(haystack@, needle@),
{
    if needle.is_empty() {
        return FuzzyMatch::EmptyNeedle;
    }
    let h = to_lowercase(haystack);
    let n = to_lowercase(needle);
    let hc = chars_of(h.as_str());
    let nc = chars_of(n.as_str());
    if chars_eq(hc.as_slice(), nc.as_slice()) {
        return FuzzyMatch::Exact;
    }
    if contains_exec(hc.as_slice(), nc.as_slice()) {
        return FuzzyMatch::Substring { needle_len: n.as_str().len(), haystack_len: h.as_str().len() };
    }
    match scan_exec(hc.as_slice(), nc.as_slice()) {
        Some(best) => FuzzyMatch::Subsequence {
            needle_len: nc.len(),
            haystack_len: hc.len(),
            longest_run: best,
        },
        None => FuzzyMatch::NoMatch,
    }
}

/// Every string matches itself, and exactly unless it is empty.
pub proof fn lemma_fuzzy_self(s: Seq<char>)
    ensures
        fuzzy_spec(s, s).spec_is_match(),
        s.len() > 0 ==> fuzzy_spec(s, s) == FuzzyMatch::Exact,
{
}

/// A needle found in the haystack (ignoring case) matches exactly or as a
/// substring, never as a mere subsequence; equal texts match exactly.
pub proof fn lemma_fuzzy_substring(haystack: Seq<char>, needle: Seq<char>)
    requires
        needle.len() > 0,
        contains(lowercase(haystack), lowercase(needle)),
    ensures
        fuzzy_spec(haystack, needle) is Exact || fuzzy_spec(haystack, needle) is Substring,
        lowercase(haystack) == lowercase(needle) ==> fuzzy_spec(haystack, needle) is Exact,
{
}

/// `pos` places the characters of `n` in `h` in order: `n[i]` is
/// `h[pos(i)]`, at strictly increasing positions.
pub open spec fn places_in_order(n: Seq<char>, h: Seq<char>, pos: spec_fn(int) -> int) -> bool {
    &&& forall|i: int, j: int| 0 <= i < j < n.len() ==> #[trigger] pos(i) < #[trigger] pos(j)
    &&& forall|i: int| 0 <= i < n.len() ==> 0 <= #[trigger] pos(i) < h.len() && h[pos(i)] == n[i]
}

/// `n` is a subsequence of `h`: its characters appear in `h` in order.
pub open spec fn is_subsequence(n: Seq<char>, h: Seq<char>) -> bool {
    exists|pos: spec_fn(int) -> int| #[trigger] places_in_order(n, h, pos)
}

/// The scan finds the rest of the needle whenever its characters appear
/// in the rest of the haystack in order.
proof fn lemma_scan_complete(
    h: Seq<char>,
    n: Seq<char>,
    hi: int,
    ni: int,
    run: nat,
    best: nat,
    pos: spec_fn(int) -> int,
)
    requires
        0 <= ni <= n.len(),
        0 <= hi,
        forall|i: int, j: int| ni <= i < j < n.len() ==> #[trigger] pos(i) < #[trigger] pos(j),
        forall|i: int| ni <= i < n.len() ==> hi <= #[trigger] pos(i) < h.len() && h[pos(i)] == n[i],
    ensures
        scan(h, n, hi, ni, run, best) is Some,
    decreases h.len() - hi,
{
    if ni < n.len() {
        assert(hi <= pos(ni) < h.len());
        if h[hi] == n[ni] {
            let r = run + 1;
            assert forall|i: int| ni + 1 <= i < n.len() implies hi + 1 <= #[trigger] pos(i) < h.len()
                && h[pos(i)] == n[i] by {
                assert(pos(ni) < pos(i));
            }
            lemma_scan_complete(h, n, hi + 1, ni + 1, r, if best >= r { best } else { r }, pos);
        } else {
            assert(pos(ni) != hi);
            assert forall|i: int| ni <= i < n.len() implies hi + 1 <= #[trigger] pos(i) < h.len() && h[pos(
                i,
            )] == n[i] by {
                if i > ni {
                    assert(pos(ni) < pos(i));
                }
            }
            lemma_scan_complete(h, n, hi + 1, ni, 0, best, pos);
        }
    }
}

/// A needle whose characters appear in the haystack in order (ignoring
/// case) always matches: the subsequence search misses none.
pub proof fn lemma_subsequence_matches(haystack: Seq<char>, needle: Seq<char>)
    requires
        is_subsequence(lowercase(needle), lowercase(haystack)),
    ensures
        fuzzy_spec(haystack, needle).spec_is_match(),
{
    let h = lowercase(haystack);
    let n = lowercase(needle);
    let pos = choose|pos: spec_fn(int) -> int| places_in_order(n, h, pos);
    lemma_scan_complete(h, n, 0, 0, 0, 0, pos);
}

} // verus!
