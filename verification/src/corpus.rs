//! The line corpus of the search index: the text of every indexed line, a
//! zero byte, then the lowercase text of every line; and the trigram keys
//! by which lines are found.
use vstd::prelude::*;
use vstd::utf8::{decode_utf8, valid_utf8};

use crate::text::lowercase;

verus! {

broadcast use vstd::string::group_string_axioms;

/// Where one line's text sits in the corpus.
#[derive(Debug, Clone)]
pub struct LineRef {
    pub path: String,
    pub line_number: u64,
    pub text_off: usize,
    pub text_len: usize,
    pub lower_off: usize,
}

/// Original text and lowercase copy of every line, one after the other.
#[derive(Debug)]
pub struct LineCorpus {
    bytes: Vec<u8>,
    text_region_len: usize,
}

/// `b` when it is valid UTF-8, otherwise nothing (the `unwrap_or("")` of a
/// failed `str::from_utf8`).
pub open spec fn utf8_or_empty(b: Seq<u8>) -> Seq<u8> {
    if valid_utf8(b) {
        b
    } else {
        Seq::empty()
    }
}

/// The first zero byte of `b`, or its length when there is none.
pub open spec fn first_zero(b: Seq<u8>) -> int {
    if exists|i: int| 0 <= i < b.len() && b[i] == 0 {
        choose|i: int| 0 <= i < b.len() && b[i] == 0 && forall|j: int| 0 <= j < i ==> b[j] != 0
    } else {
        b.len() as int
    }
}

/// A zero byte with none before it is the first zero byte.
pub proof fn lemma_first_zero_at(b: Seq<u8>, i: int)
    requires
        0 <= i < b.len(),
        b[i] == 0,
        forall|j: int| 0 <= j < i ==> b[j] != 0,
    ensures
        first_zero(b) == i,
{
    let c = first_zero(b);
    assert(exists|k: int| 0 <= k < b.len() && b[k] == 0);
    assert(0 <= i < b.len() && b[i] == 0 && forall|j: int| 0 <= j < i ==> b[j] != 0);
    let w = choose|k: int| 0 <= k < b.len() && b[k] == 0 && forall|j: int| 0 <= j < k ==> b[j] != 0;
    assert(c == w);
    if w < i {
        assert(b[w] != 0);
    }
    if w > i {
        assert(b[i] != 0);
    }
}

/// The UTF-8 encoding of a string.
pub open spec fn utf8(s: Seq<char>) -> Seq<u8> {
    vstd::utf8::encode_utf8(s)
}

/// `std::str::from_utf8`, trusted to succeed exactly when the bytes are
/// valid UTF-8 (vstd's `valid_utf8`) and then to give the characters they
/// decode to.
#[verifier::external_body]
pub(crate) fn utf8_str(b: &[u8]) -> (r: Option<&str>)
    ensures
        match r {
            Some(s) => valid_utf8(b@) && s@ == decode_utf8(b@),
            None => !valid_utf8(b@),
        },
{
    std::str::from_utf8(b).ok()
}

impl LineCorpus {
    /// The whole corpus.
    pub closed spec fn spec_bytes(&self) -> Seq<u8> {
        self.bytes@
    }

    /// Where the text region ends (the first zero byte).
    pub closed spec fn spec_text_region_len(&self) -> int {
        self.text_region_len as int
    }

    /// The bytes of a line's original text as `text_at` returns them.
    pub open spec fn text_view(&self, line: LineRef) -> Seq<u8> {
        let start = line.text_off as int;
        let end = start + line.text_len;
        if end > self.spec_bytes().len() {
            Seq::empty()
        } else {
            utf8_or_empty(self.spec_bytes().subrange(start, end))
        }
    }

    /// The bytes of a line's lowercase text as `lower_at` returns them: the
    /// `text_len` bytes at `lower_off` in the lowercase region.
    pub open spec fn lower_view(&self, line: LineRef) -> Seq<u8> {
        let start = self.spec_text_region_len() + 1 + line.lower_off;
        let end = start + line.text_len;
        if end > self.spec_bytes().len() {
            Seq::empty()
        } else {
            utf8_or_empty(self.spec_bytes().subrange(start, end))
        }
    }

    /// The corpus as it is saved: the text region, a zero byte, then the
    /// lowercase region.
    pub fn as_bytes(&self) -> (r: &[u8])
        ensures
            r@ == self.spec_bytes(),
    {
        self.bytes.as_slice()
    }

    /// A corpus with nothing in it.
    pub fn empty() -> (r: LineCorpus)
        ensures
            r.spec_bytes().len() == 0,
            r.spec_text_region_len() == 0,
    {
        LineCorpus { bytes: Vec::new(), text_region_len: 0 }
    }

    /// A corpus over the contents of a saved corpus file (`None` when there
    /// is none): its text region ends at the first zero byte, or is empty
    /// when there is no zero byte.
    pub fn open(contents: Option<Vec<u8>>) -> (r: LineCorpus)
        ensures
            r.spec_bytes() == match contents {
                Some(b) => b@,
                None => Seq::empty(),
            },
            r.spec_text_region_len() == if exists|i: int|
                0 <= i < r.spec_bytes().len() && r.spec_bytes()[i] == 0 {
                first_zero(r.spec_bytes())
            } else {
                0
            },
    {
        let bytes = match contents {
            Some(b) => b,
            None => Vec::new(),
        };
        let mut i: usize = 0;
        while i < bytes.len() && bytes[i] != 0
            invariant
                i <= bytes@.len(),
                forall|j: int| 0 <= j < i ==> bytes@[j] != 0,
            decreases bytes@.len() - i,
        {
            i = i + 1;
        }
        if i < bytes.len() {
            proof {
                lemma_first_zero_at(bytes@, i as int);
            }
            let r = LineCorpus { bytes, text_region_len: i };
            assert(r.spec_bytes()[i as int] == 0);
            assert(first_zero(r.spec_bytes()) == i);
            r
        } else {
            proof {
                assert(!(exists|k: int| 0 <= k < bytes@.len() && bytes@[k] == 0)) by {
                    if exists|k: int| 0 <= k < bytes@.len() && bytes@[k] == 0 {
                        let k = choose|k: int| 0 <= k < bytes@.len() && bytes@[k] == 0;
                        assert(bytes@[k] != 0);
                    }
                }
            }
            LineCorpus { bytes, text_region_len: 0 }
        }
    }

    /// Start writing the corpus anew: it becomes empty, and the returned
    /// writer collects the text region.
    pub fn reset(&mut self) -> (w: Vec<u8>)
        ensures
            w@.len() == 0,
            final(self).spec_bytes().len() == 0,
            final(self).spec_text_region_len() == 0,
    {
        self.bytes = Vec::new();
        self.text_region_len = 0;
        Vec::new()
    }

    /// Append one line: its text to the text region, its lowercase text to
    /// the lowercase region, and return where both went.
    pub fn append_line(
        writer: &mut Vec<u8>,
        lower_writer: &mut Vec<u8>,
        path: &str,
        line_number: u64,
        text: &str,
    ) -> (r: LineRef)
        ensures
            final(writer)@ == old(writer)@ + utf8(text@),
            final(lower_writer)@ == old(lower_writer)@ + utf8(lowercase(text@)),
            r.path@ == path@,
            r.line_number == line_number,
            r.text_off == old(writer)@.len(),
            r.text_len == utf8(text@).len(),
            r.lower_off == old(lower_writer)@.len(),
    {
        let text_off = writer.len();
        let text_bytes = text.as_bytes();
        append_bytes(writer, text_bytes);
        let lower = crate::text::to_lowercase(text);
        let lower_off = lower_writer.len();
        append_bytes(lower_writer, lower.as_str().as_bytes());
        LineRef {
            path: String::from_str(path),
            line_number,
            text_off,
            text_len: text_bytes.len(),
            lower_off,
        }
    }

    /// The finished corpus: the text region, a zero byte, the lowercase
    /// region; the text region ends at the first zero byte.
    pub fn finalize(writer: Vec<u8>, lower_region: &[u8]) -> (r: LineCorpus)
        ensures
            r.spec_bytes() == writer@ + seq![0u8] + lower_region@,
            r.spec_text_region_len() == first_zero(r.spec_bytes()),
    {
        let mut bytes = writer;
        bytes.push(0);
        append_bytes(&mut bytes, lower_region);
        let mut i: usize = 0;
        while i < bytes.len() && bytes[i] != 0
            invariant
                i <= bytes@.len(),
                forall|j: int| 0 <= j < i ==> bytes@[j] != 0,
            decreases bytes@.len() - i,
        {
            i = i + 1;
        }
        proof {
            if i < bytes@.len() {
                assert(bytes@[i as int] == 0);
                let c = choose|c: int|
                    0 <= c < bytes@.len() && bytes@[c] == 0 && forall|j: int| 0 <= j < c ==> bytes@[j] != 0;
                assert(c == i) by {
                    if c < i {
                        assert(bytes@[c] != 0);
                    }
                    if c > i {
                        assert(bytes@[i as int] != 0);
                    }
                }
            } else {
                assert(!(exists|j: int| 0 <= j < bytes@.len() && bytes@[j] == 0));
            }
        }
        LineCorpus { bytes, text_region_len: i }
    }

    /// A line's original text (empty when it is out of range or not UTF-8).
    pub fn text_at(&self, line: &LineRef) -> (s: &str)
        ensures
            utf8(s@) == self.text_view(*line),
    {
        let start = line.text_off;
        if line.text_len > self.bytes.len() || start > self.bytes.len() - line.text_len {
            proof {
                lemma_empty_utf8();
            }
            return "";
        }
        let end = start + line.text_len;
        match utf8_str(&self.bytes.as_slice()[start..end]) {
            Some(s) => {
                proof {
                    vstd::utf8::decode_utf8_encode_utf8(self.bytes@.subrange(start as int, end as int));
                }
                s
            },
            None => {
                proof {
                    lemma_empty_utf8();
                }
                ""
            },
        }
    }

    /// A line's lowercase text: the `text_len` bytes at `lower_off` in the
    /// lowercase region (empty when out of range or not UTF-8).
    pub fn lower_at(&self, line: &LineRef) -> (s: &str)
        ensures
            utf8(s@) == self.lower_view(*line),
    {
        let len = self.bytes.len();
        if self.text_region_len >= len || line.lower_off > len - self.text_region_len - 1 {
            proof {
                lemma_empty_utf8();
            }
            return "";
        }
        let start = self.text_region_len + 1 + line.lower_off;
        if line.text_len > len - start {
            proof {
                lemma_empty_utf8();
            }
            return "";
        }
        let end = start + line.text_len;
        match utf8_str(&self.bytes.as_slice()[start..end]) {
            Some(s) => {
                proof {
                    vstd::utf8::decode_utf8_encode_utf8(self.bytes@.subrange(start as int, end as int));
                }
                s
            },
            None => {
                proof {
                    lemma_empty_utf8();
                }
                ""
            },
        }
    }
}

/// The empty string encodes to no bytes.
pub proof fn lemma_empty_utf8()
    ensures
        utf8(""@) == Seq::<u8>::empty(),
{
    reveal_strlit("");
    assert(""@.len() == 0);
}

/// Pieces of bytes one after the other.
pub open spec fn joined(parts: Seq<Seq<u8>>) -> Seq<u8>
    decreases parts.len(),
{
    if parts.len() == 0 {
        Seq::empty()
    } else {
        joined(parts.drop_last()) + parts.last()
    }
}

/// The UTF-8 bytes of each line.
pub open spec fn encodings(ts: Seq<Seq<char>>) -> Seq<Seq<u8>> {
    ts.map_values(|t: Seq<char>| utf8(t))
}

/// The UTF-8 bytes of each line's lowercase text.
pub open spec fn lower_encodings(ts: Seq<Seq<char>>) -> Seq<Seq<u8>> {
    ts.map_values(|t: Seq<char>| utf8(lowercase(t)))
}

/// Piece `i` sits in the joined bytes right after the pieces before it.
proof fn lemma_joined_part(parts: Seq<Seq<u8>>, i: int)
    requires
        0 <= i < parts.len(),
    ensures
        joined(parts.take(i)).len() + parts[i].len() <= joined(parts).len(),
        joined(parts).subrange(
            joined(parts.take(i)).len() as int,
            (joined(parts.take(i)).len() + parts[i].len()) as int,
        ) == parts[i],
    decreases parts.len(),
{
    let a = joined(parts.take(i)).len() as int;
    let b = a + parts[i].len();
    if i == parts.len() - 1 {
        assert(parts.take(i) =~= parts.drop_last());
        assert(joined(parts).subrange(a, b) =~= parts[i]);
    } else {
        lemma_joined_part(parts.drop_last(), i);
        assert(parts.drop_last().take(i) =~= parts.take(i));
        assert(joined(parts).subrange(a, b) =~= joined(parts.drop_last()).subrange(a, b));
    }
}

/// The bytes that lead a two-, three- or four-byte encoding, and those that
/// continue one, are never zero.
proof fn lemma_high_bits_nonzero(x: u8)
    by (bit_vector)
    ensures
        (0x80u8 | x) != 0u8,
        (0xC0u8 | x) != 0u8,
        (0xE0u8 | x) != 0u8,
        (0xF0u8 | x) != 0u8,
{
}

/// A one-byte encoding of a scalar other than zero is not zero.
proof fn lemma_ascii_nonzero(s: u32)
    by (bit_vector)
    requires
        1 <= s <= 0x7F,
    ensures
        ((s & 0x7F) as u8) != 0u8,
{
}

/// No byte of the encoding of characters other than `'\0'` is zero.
pub proof fn lemma_utf8_no_zero(chars: Seq<char>)
    requires
        forall|k: int| 0 <= k < chars.len() ==> chars[k] != '\0',
    ensures
        forall|k: int| 0 <= k < utf8(chars).len() ==> utf8(chars)[k] != 0u8,
    decreases chars.len(),
{
    if chars.len() > 0 {
        let s = chars[0] as u32;
        vstd::utf8::char_is_scalar(chars[0]);
        let e = vstd::utf8::encode_scalar(s);
        lemma_high_bits_nonzero(((s >> 6) & 0x1F) as u8);
        lemma_high_bits_nonzero(((s >> 12) & 0x0F) as u8);
        lemma_high_bits_nonzero(((s >> 18) & 0x7) as u8);
        lemma_high_bits_nonzero((s & 0x3F) as u8);
        lemma_high_bits_nonzero(((s >> 6) & 0x3F) as u8);
        lemma_high_bits_nonzero(((s >> 12) & 0x3F) as u8);
        if s <= 0x7F {
            vstd::utf8::char_u32_cast(chars[0], s);
            if s == 0 {
                assert(chars[0] == (0u32 as char));
                assert(chars[0] == '\0');
            }
            lemma_ascii_nonzero(s);
        }
        assert(forall|k: int| 0 <= k < e.len() ==> e[k] != 0u8);
        lemma_utf8_no_zero(chars.drop_first());
        assert(utf8(chars) == e + utf8(chars.drop_first()));
        assert forall|k: int| 0 <= k < utf8(chars).len() implies utf8(chars)[k] != 0u8 by {
            if k >= e.len() {
                assert(utf8(chars)[k] == utf8(chars.drop_first())[k - e.len()]);
            }
        }
    }
}

/// No byte of the joined encodings of lines without `'\0'` is zero.
proof fn lemma_joined_no_zero(ts: Seq<Seq<char>>)
    requires
        forall|j: int, k: int| 0 <= j < ts.len() && 0 <= k < ts[j].len() ==> ts[j][k] != '\0',
    ensures
        forall|k: int| 0 <= k < joined(encodings(ts)).len() ==> joined(encodings(ts))[k] != 0u8,
    decreases ts.len(),
{
    if ts.len() > 0 {
        let last = ts.last();
        assert forall|k: int| 0 <= k < last.len() implies last[k] != '\0' by {
            assert(ts[ts.len() - 1][k] != '\0');
        }
        lemma_utf8_no_zero(last);
        assert(encodings(ts).drop_last() =~= encodings(ts.drop_last()));
        lemma_joined_no_zero(ts.drop_last());
        let a = joined(encodings(ts.drop_last()));
        assert(joined(encodings(ts)) == a + utf8(last));
        assert forall|k: int| 0 <= k < joined(encodings(ts)).len() implies joined(encodings(ts))[k] != 0u8 by {
            if k >= a.len() {
                assert(joined(encodings(ts))[k] == utf8(last)[k - a.len()]);
            } else {
                assert(joined(encodings(ts))[k] == a[k]);
            }
        }
    }
}

/// Lines appended in order read back. Let the lines `ts` be appended one
/// after the other with `append_line` to an empty text region and an empty
/// lowercase region, and the corpus `c` be finished from the two. Then
/// line `i`'s reference (the offsets `append_line` returned for it) gives
/// back its text; and it gives back its lowercase text too when no line
/// holds `'\0'` and lowercasing line `i` keeps its length in bytes
/// (`lower_at` reads as many bytes as the text has).
pub proof fn lemma_appended_lines_read_back(ts: Seq<Seq<char>>, c: LineCorpus, r: LineRef, i: int)
    requires
        c.spec_bytes() == joined(encodings(ts)) + seq![0u8] + joined(lower_encodings(ts)),
        c.spec_text_region_len() == first_zero(c.spec_bytes()),
        0 <= i < ts.len(),
        r.text_off == joined(encodings(ts.take(i))).len(),
        r.text_len == utf8(ts[i]).len(),
        r.lower_off == joined(lower_encodings(ts.take(i))).len(),
    ensures
        c.text_view(r) == utf8(ts[i]),
        (forall|j: int, k: int| 0 <= j < ts.len() && 0 <= k < ts[j].len() ==> ts[j][k] != '\0')
            && utf8(lowercase(ts[i])).len() == utf8(ts[i]).len() ==> c.lower_view(r) == utf8(
            lowercase(ts[i]),
        ),
{
    let w = joined(encodings(ts));
    let l = joined(lower_encodings(ts));
    let bytes = c.spec_bytes();
    lemma_joined_part(encodings(ts), i);
    assert(encodings(ts).take(i) =~= encodings(ts.take(i)));
    let a = r.text_off as int;
    let b = a + r.text_len;
    assert(bytes.subrange(a, b) =~= w.subrange(a, b));
    vstd::utf8::encode_utf8_valid_utf8(ts[i]);
    if (forall|j: int, k: int| 0 <= j < ts.len() && 0 <= k < ts[j].len() ==> ts[j][k] != '\0')
        && utf8(lowercase(ts[i])).len() == utf8(ts[i]).len() {
        lemma_joined_no_zero(ts);
        assert(bytes[w.len() as int] == 0u8);
        assert forall|j: int| 0 <= j < w.len() implies bytes[j] != 0u8 by {
            assert(bytes[j] == w[j]);
        }
        lemma_first_zero_at(bytes, w.len() as int);
        lemma_joined_part(lower_encodings(ts), i);
        assert(lower_encodings(ts).take(i) =~= lower_encodings(ts.take(i)));
        let lo = w.len() + 1 + r.lower_off;
        let hi = lo + r.text_len;
        assert(bytes.subrange(lo, hi) =~= l.subrange(r.lower_off as int, r.lower_off + r.text_len));
        vstd::utf8::encode_utf8_valid_utf8(lowercase(ts[i]));
    }
}

/// Appends `b` to `v`.
pub fn append_bytes(v: &mut Vec<u8>, b: &[u8])
    ensures
        final(v)@ == old(v)@ + b@,
{
    let ghost start = v@;
    let mut i: usize = 0;
    while i < b.len()
        invariant
            i <= b@.len(),
            v@ == start + b@.subrange(0, i as int),
        decreases b@.len() - i,
    {
        v.push(b[i]);
        i = i + 1;
        assert(v@ =~= start + b@.subrange(0, i as int));
    }
    assert(b@.subrange(0, b@.len() as int) =~= b@);
}

// ---------------------------------------------------------------------------
// Trigram keys
// ---------------------------------------------------------------------------

/// The text of a byte window, invalid sequences replaced by U+FFFD, as
/// `String::from_utf8_lossy` computes it.
pub uninterp spec fn utf8_lossy(b: Seq<u8>) -> Seq<char>;

/// `String::from_utf8_lossy`, trusted to give `utf8_lossy` of the bytes
/// (a function of the bytes alone).
#[verifier::external_body]
pub(crate) fn lossy_text(b: &[u8]) -> (r: String)
    ensures
        r@ == utf8_lossy(b@),
{
    String::from_utf8_lossy(b).into_owned()
}

/// The number standing for a text of at most three characters: each
/// character's code plus one, in 21-bit fields (an empty field ends the
/// text). Longer texts, which a window of three bytes never yields, all get
/// `u64::MAX`, a value no short text gets.
pub open spec fn pack_key(t: Seq<char>) -> u64 {
    if t.len() > 3 {
        u64::MAX
    } else {
        let f0: int = if t.len() > 0 { t[0] as u32 + 1 } else { 0 };
        let f1: int = if t.len() > 1 { t[1] as u32 + 1 } else { 0 };
        let f2: int = if t.len() > 2 { t[2] as u32 + 1 } else { 0 };
        (f0 + f1 * 0x200000 + f2 * 0x40000000000) as u64
    }
}

/// The key of a three-byte window: the number standing for its lossy text.
pub open spec fn trigram_key(w: Seq<u8>) -> u64 {
    pack_key(utf8_lossy(w))
}

/// Text padded the way trigrams are cut: two spaces before, one after.
pub open spec fn padded(b: Seq<u8>) -> Seq<u8> {
    seq![32u8, 32u8] + b + seq![32u8]
}

/// The key of the window starting at `w` in the padded text.
pub open spec fn key_at(b: Seq<u8>, w: int) -> u64 {
    trigram_key(padded(b).subrange(w, w + 3))
}

/// The keys of every window of the padded text, in order.
pub open spec fn trigram_keys_spec(b: Seq<u8>) -> Seq<u64> {
    Seq::new((b.len() + 1) as nat, |w: int| key_at(b, w))
}

/// Some window of the padded text has key `k`.
pub open spec fn has_trigram(b: Seq<u8>, k: u64) -> bool {
    exists|w: int| 0 <= w < b.len() + 1 && #[trigger] key_at(b, w) == k
}

/// A character's field value.
fn char_field(c: char) -> (r: u64)
    ensures
        r == c as u32 + 1,
        r <= 0x110000,
{
    proof {
        vstd::utf8::char_is_scalar(c);
    }
    (c as u32) as u64 + 1
}

/// The key of a three-byte window.
fn window_key(w: &[u8]) -> (k: u64)
    ensures
        k == trigram_key(w@),
{
    let t = lossy_text(w);
    let cs = crate::text::chars_of(t.as_str());
    if cs.len() > 3 {
        return u64::MAX;
    }
    let f0 = if cs.len() > 0 { char_field(cs[0]) } else { 0 };
    let f1 = if cs.len() > 1 { char_field(cs[1]) } else { 0 };
    let f2 = if cs.len() > 2 { char_field(cs[2]) } else { 0 };
    f0 + f1 * 0x200000 + f2 * 0x40000000000
}

/// The trigram keys of a text: one per window of the padded bytes.
pub fn trigrams(text: &str) -> (r: Vec<u64>)
    ensures
        r@ == trigram_keys_spec(utf8(text@)),
{
    let b = text.as_bytes();
    let mut p: Vec<u8> = Vec::new();
    p.push(32);
    p.push(32);
    append_bytes(&mut p, b);
    p.push(32);
    assert(p@ =~= padded(b@));
    let mut r: Vec<u64> = Vec::new();
    let mut w: usize = 0;
    while w < p.len() - 2
        invariant
            p@ == padded(b@),
            b@ == utf8(text@),
            w <= b@.len() + 1,
            w + 2 <= p@.len(),
            r@ == trigram_keys_spec(b@).subrange(0, w as int),
        decreases p@.len() - w,
    {
        let k = window_key(&p.as_slice()[w..w + 3]);
        r.push(k);
        w = w + 1;
        assert(r@ =~= trigram_keys_spec(b@).subrange(0, w as int));
    }
    assert(r@ =~= trigram_keys_spec(b@));
    r
}

} // verus!
