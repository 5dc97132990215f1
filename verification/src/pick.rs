//! Picker options, and the buffer that turns a stream of lines arriving one
//! by one into newline-terminated bytes for a reader.
use vstd::prelude::*;

use crate::config::ThunderConfig;
use crate::corpus::{append_bytes, utf8, utf8_str};
use crate::text::{chars_of, lines_spec, opt_view, str_lines, str_trim_end, trim_end, views};
use vstd::utf8::{decode_utf8, valid_utf8};
use std::sync::mpsc::Receiver;

verus! {

broadcast use vstd::string::group_string_axioms;

/// How to run the interactive picker.
#[derive(Debug, Clone)]
pub struct PickOptions {
    pub multi: bool,
    pub height: String,
    pub reverse: bool,
    pub preview_cmd: Option<String>,
    pub query: Option<String>,
    pub prompt: String,
}

impl PickOptions {
    /// The defaults: single selection, 60% height, reversed, `> ` prompt.
    pub open spec fn is_default(&self) -> bool {
        &&& !self.multi
        &&& self.height@ == "60%"@
        &&& self.reverse
        &&& self.preview_cmd is None
        &&& self.query is None
        &&& self.prompt@ == "> "@
    }

    /// Options taking height, direction and prompt from the configuration.
    pub fn from_config(config: &ThunderConfig) -> (r: PickOptions)
        ensures
            !r.multi,
            r.height@ == config.pick.height@,
            r.reverse == config.pick.reverse,
            r.preview_cmd is None,
            r.query is None,
            r.prompt@ == config.pick.prompt@,
    {
        PickOptions {
            multi: false,
            height: String::from_str(config.pick.height.as_str()),
            reverse: config.pick.reverse,
            preview_cmd: None,
            query: None,
            prompt: String::from_str(config.pick.prompt.as_str()),
        }
    }
}

impl Default for PickOptions {
    fn default() -> (r: Self)
        ensures
            r.is_default(),
    {
        PickOptions {
            multi: false,
            height: String::from_str("60%"),
            reverse: true,
            preview_cmd: None,
            query: None,
            prompt: String::from_str("> "),
        }
    }
}

/// The arguments of the external `fzf` picker for `options`: height,
/// `--multi`, `--reverse`, the initial query, the preview, and the prompt
/// (trailing white space replaced by one space).
pub open spec fn fzf_args_spec(o: PickOptions) -> Seq<Seq<char>> {
    seq!["--height"@, o.height@] + (if o.multi {
        seq!["--multi"@]
    } else {
        Seq::empty()
    }) + (if o.reverse {
        seq!["--reverse"@]
    } else {
        Seq::empty()
    }) + flag_value("--query"@, opt_view(o.query)) + flag_value("--preview"@, opt_view(o.preview_cmd))
        + seq!["--prompt"@, trim_end(o.prompt@) + " "@]
}

/// A flag and its value, when there is one.
pub open spec fn flag_value(flag: Seq<char>, v: Option<Seq<char>>) -> Seq<Seq<char>> {
    match v {
        Some(x) => seq![flag, x],
        None => Seq::empty(),
    }
}

/// The arguments of the external `fzf` picker.
pub fn fzf_args(options: &PickOptions) -> (r: Vec<String>)
    ensures
        views(r@) == fzf_args_spec(*options),
{
    let mut r: Vec<String> = Vec::new();
    r.push(String::from_str("--height"));
    r.push(String::from_str(options.height.as_str()));
    let ghost mut e: Seq<Seq<char>> = seq!["--height"@, options.height@];
    assert(views(r@) =~= e);
    if options.multi {
        r.push(String::from_str("--multi"));
    }
    proof {
        e = e + (if options.multi {
            seq!["--multi"@]
        } else {
            Seq::empty()
        });
    }
    assert(views(r@) =~= e);
    if options.reverse {
        r.push(String::from_str("--reverse"));
    }
    proof {
        e = e + (if options.reverse {
            seq!["--reverse"@]
        } else {
            Seq::empty()
        });
    }
    assert(views(r@) =~= e);
    match &options.query {
        Some(q) => {
            r.push(String::from_str("--query"));
            r.push(String::from_str(q.as_str()));
        },
        None => {},
    }
    proof {
        e = e + flag_value("--query"@, opt_view(options.query));
    }
    assert(views(r@) =~= e);
    match &options.preview_cmd {
        Some(p) => {
            r.push(String::from_str("--preview"));
            r.push(String::from_str(p.as_str()));
        },
        None => {},
    }
    proof {
        e = e + flag_value("--preview"@, opt_view(options.preview_cmd));
    }
    assert(views(r@) =~= e);
    r.push(String::from_str("--prompt"));
    let mut prompt = str_trim_end(options.prompt.as_str());
    prompt.append(" ");
    r.push(prompt);
    proof {
        e = e + seq!["--prompt"@, trim_end(options.prompt@) + " "@];
    }
    assert(views(r@) =~= e);
    r
}

/// Why `fzf` gave no selection.
#[derive(Debug, Clone, Copy, PartialEq, Eq, Structural)]
pub enum FzfError {
    /// It failed (an exit other than success or 130, the user's abort).
    Failed,
    /// Its output is not UTF-8.
    InvalidOutput,
}

/// The non-empty lines of a text, in order.
pub open spec fn nonempty_lines(ls: Seq<Seq<char>>) -> Seq<Seq<char>>
    decreases ls.len(),
{
    if ls.len() == 0 {
        Seq::empty()
    } else if ls.last().len() == 0 {
        nonempty_lines(ls.drop_last())
    } else {
        nonempty_lines(ls.drop_last()).push(ls.last())
    }
}

/// What `fzf` selected: the non-empty lines it printed, unless it failed
/// (an abort, exit code 130, selects nothing rather than failing).
pub open spec fn fzf_outcome(success: bool, code: Option<i32>, stdout: Seq<u8>) -> Result<Seq<Seq<char>>, FzfError> {
    if !success && code != Some(130i32) {
        Err(FzfError::Failed)
    } else if !valid_utf8(stdout) {
        Err(FzfError::InvalidOutput)
    } else {
        Ok(nonempty_lines(lines_spec(decode_utf8(stdout))))
    }
}

/// What `fzf` selected.
pub fn fzf_selection(success: bool, code: Option<i32>, stdout: &[u8]) -> (r: Result<Vec<String>, FzfError>)
    ensures
        match fzf_outcome(success, code, stdout@) {
            Ok(ls) => r matches Ok(v) && views(v@) == ls,
            Err(e) => r == Err::<Vec<String>, FzfError>(e),
        },
{
    let aborted = match code {
        Some(c) => c == 130,
        None => false,
    };
    if !success && !aborted {
        return Err(FzfError::Failed);
    }
    let text = match utf8_str(stdout) {
        Some(t) => t,
        None => {
            return Err(FzfError::InvalidOutput);
        },
    };
    let lines = str_lines(text);
    let ghost ls = lines_spec(text@);
    let mut out: Vec<String> = Vec::new();
    let mut i: usize = 0;
    while i < lines.len()
        invariant
            views(lines@) == ls,
            i <= ls.len(),
            views(out@) == nonempty_lines(ls.take(i as int)),
        decreases ls.len() - i,
    {
        proof {
            assert(ls.take(i + 1).drop_last() =~= ls.take(i as int));
            assert(ls.take(i + 1).last() == lines@[i as int]@);
        }
        let cs = chars_of(lines[i].as_str());
        if cs.len() > 0 {
            let ghost before = out@;
            out.push(String::from_str(lines[i].as_str()));
            proof {
                assert(views(out@) =~= views(before).push(lines@[i as int]@));
            }
        }
        i = i + 1;
    }
    proof {
        assert(ls.take(ls.len() as int) =~= ls);
    }
    Ok(out)
}

/// The picker's input: the lines joined by newlines.
pub open spec fn joined(ls: Seq<Seq<char>>) -> Seq<char>
    decreases ls.len(),
{
    if ls.len() == 0 {
        Seq::empty()
    } else if ls.len() == 1 {
        ls[0]
    } else {
        joined(ls.drop_last()) + "\n"@ + ls.last()
    }
}

/// The lines joined by newlines (`[String]::join`).
pub fn join_lines(lines: &Vec<String>) -> (r: String)
    ensures
        r@ == joined(views(lines@)),
{
    let ghost ls = views(lines@);
    let mut r = String::new();
    let mut i: usize = 0;
    while i < lines.len()
        invariant
            ls == views(lines@),
            i <= ls.len(),
            r@ == joined(ls.take(i as int)),
        decreases ls.len() - i,
    {
        proof {
            assert(ls.take(i + 1).drop_last() =~= ls.take(i as int));
            assert(ls.take(i + 1).last() == ls[i as int]);
        }
        if i > 0 {
            r.append("\n");
        }
        r.append(lines[i].as_str());
        proof {
            if i == 0 {
                assert(ls.take(1)[0] == ls[0]);
                assert(r@ =~= ls[0]);
            }
        }
        i = i + 1;
    }
    proof {
        assert(ls.take(ls.len() as int) =~= ls);
    }
    r
}

/// `std::sync::mpsc::Receiver`, the feed of lines.
#[verifier::external_type_specification]
#[verifier::external_body]
#[verifier::reject_recursive_types(T)]
pub struct ExReceiver<T>(Receiver<T>);

/// `Receiver::recv`: the next line from the feed, or `None` once every
/// sender is gone. What arrives depends on the senders, so nothing is
/// claimed of it.
#[verifier::external_body]
fn next_line(rx: &Receiver<String>) -> (r: Option<String>) {
    rx.recv().ok()
}

/// `n`, but at most `max`.
pub open spec fn capped(max: usize, n: int) -> int {
    if max < n {
        max as int
    } else {
        n
    }
}

/// The bytes a feed of lines turns into: each line's UTF-8 bytes followed
/// by a newline, in order.
pub open spec fn feed_bytes(lines: Seq<Seq<char>>) -> Seq<u8>
    decreases lines.len(),
{
    if lines.len() == 0 {
        Seq::empty()
    } else {
        feed_bytes(lines.drop_last()) + utf8(lines.last()).push(10u8)
    }
}

/// The state of a channel reader: the current line with its newline, how
/// much of it was handed out, whether the feed ended, and (for the proofs)
/// the lines taken from the feed and the bytes handed out so far.
struct FeedState {
    buffer: Vec<u8>,
    pos: usize,
    finished: bool,
    received: Ghost<Seq<Seq<char>>>,
    delivered: Ghost<Seq<u8>>,
}

impl FeedState {
    /// A state with nothing taken and nothing handed out.
    fn empty() -> (st: FeedState)
        ensures
            st.buffer@.len() == 0,
            st.pos == 0,
            !st.finished,
            st.received@ == Seq::<Seq<char>>::empty(),
            st.delivered@ == Seq::<u8>::empty(),
    {
        FeedState {
            buffer: Vec::new(),
            pos: 0,
            finished: false,
            received: Ghost(Seq::empty()),
            delivered: Ghost(Seq::empty()),
        }
    }
}

/// A reader fed line by line from a channel: what it hands out is always
/// the bytes of the lines it took from the channel, each followed by a
/// newline, in order.
pub struct ChannelReader {
    rx: Receiver<String>,
    state: FeedState,
}

impl ChannelReader {
    #[verifier::type_invariant]
    closed spec fn inv(&self) -> bool {
        &&& self.state.pos <= self.state.buffer@.len()
        &&& self.state.delivered@ + self.pending() == feed_bytes(self.state.received@)
    }

    /// The bytes not yet handed out.
    pub closed spec fn pending(&self) -> Seq<u8> {
        self.state.buffer@.subrange(self.state.pos as int, self.state.buffer@.len() as int)
    }

    /// Whether the feed has ended.
    pub closed spec fn spec_finished(&self) -> bool {
        self.state.finished
    }

    /// The channel the reader takes its lines from.
    pub closed spec fn spec_rx(&self) -> Receiver<String> {
        self.rx
    }

    /// The lines taken from the channel so far, in order.
    pub closed spec fn spec_received(&self) -> Seq<Seq<char>> {
        self.state.received@
    }

    /// The bytes handed out so far (by `read`, `take` and `consume`), in order.
    pub closed spec fn spec_delivered(&self) -> Seq<u8> {
        self.state.delivered@
    }

    /// What was handed out and what is pending are, together, the bytes of
    /// the lines taken from the channel.
    pub open spec fn feed_kept(&self) -> bool {
        self.spec_delivered() + self.pending() == feed_bytes(self.spec_received())
    }

    /// A reader on `rx` with nothing pending, nothing taken or handed out,
    /// and the feed open.
    pub fn new(rx: Receiver<String>) -> (r: ChannelReader)
        ensures
            r.spec_rx() == rx,
            r.pending().len() == 0,
            !r.spec_finished(),
            r.spec_received() == Seq::<Seq<char>>::empty(),
            r.spec_delivered() == Seq::<u8>::empty(),
            r.feed_kept(),
    {
        let st = FeedState::empty();
        assert(st.buffer@.subrange(0, 0) =~= Seq::<u8>::empty());
        ChannelReader { rx, state: st }
    }

    /// Whether the next line should be taken from the feed: everything was
    /// handed out and the feed has not ended.
    pub fn wants_line(&self) -> (b: bool)
        ensures
            b == (self.pending().len() == 0 && !self.spec_finished()),
    {
        proof {
            use_type_invariant(self);
        }
        self.state.pos >= self.state.buffer.len() && !self.state.finished
    }

    /// Take what the feed gave, once everything was handed out: a line
    /// (which becomes the pending bytes, with a newline) or its end.
    fn receive(&mut self, line: Option<String>)
        requires
            old(self).pending().len() == 0,
            !old(self).spec_finished(),
        ensures
            match line {
                Some(l) => {
                    &&& final(self).pending() == utf8(l@).push(10u8)
                    &&& !final(self).spec_finished()
                    &&& final(self).spec_received() == old(self).spec_received().push(l@)
                },
                None => {
                    &&& final(self).pending().len() == 0
                    &&& final(self).spec_finished()
                    &&& final(self).spec_received() == old(self).spec_received()
                },
            },
            final(self).spec_delivered() == old(self).spec_delivered(),
            final(self).spec_rx() == old(self).spec_rx(),
            final(self).feed_kept(),
    {
        proof {
            use_type_invariant(&*self);
        }
        let mut st = FeedState::empty();
        std::mem::swap(&mut st, &mut self.state);
        let ghost old_received = st.received@;
        let ghost old_delivered = st.delivered@;
        assert(old_delivered == feed_bytes(old_received)) by {
            assert(old_delivered + Seq::<u8>::empty() =~= old_delivered);
        }
        match line {
            Some(l) => {
                let mut b: Vec<u8> = Vec::new();
                append_bytes(&mut b, l.as_str().as_bytes());
                b.push(10);
                st.pos = 0;
                st.buffer = b;
                proof {
                    st.received@ = old_received.push(l@);
                    assert(st.received@.drop_last() =~= old_received);
                    assert(st.buffer@.subrange(0, st.buffer@.len() as int) =~= st.buffer@);
                }
            },
            None => {
                st.finished = true;
                st.pos = 0;
                st.buffer = Vec::new();
                proof {
                    assert(st.buffer@.subrange(0, 0) =~= Seq::<u8>::empty());
                    assert(old_delivered + Seq::<u8>::empty() =~= old_delivered);
                }
            },
        }
        self.state = st;
        proof {
            use_type_invariant(&*self);
        }
    }

    /// The pending bytes (what `fill_buf` hands out).
    pub fn available(&self) -> (r: &[u8])
        ensures
            r@ == self.pending(),
    {
        proof {
            use_type_invariant(self);
        }
        &self.state.buffer.as_slice()[self.state.pos..self.state.buffer.len()]
    }

    /// Hand out up to `max` pending bytes (what `read` copies), and mark them used.
    pub fn take(&mut self, max: usize) -> (r: Vec<u8>)
        ensures
            r@ == old(self).pending().take(
                if max < old(self).pending().len() { max as int } else { old(self).pending().len() as int },
            ),
            final(self).pending() == old(self).pending().skip(r@.len() as int),
            final(self).spec_finished() == old(self).spec_finished(),
            final(self).spec_received() == old(self).spec_received(),
            final(self).spec_delivered() == old(self).spec_delivered() + r@,
            final(self).spec_rx() == old(self).spec_rx(),
            final(self).feed_kept(),
    {
        proof {
            use_type_invariant(&*self);
        }
        let mut st = FeedState::empty();
        std::mem::swap(&mut st, &mut self.state);
        let ghost old_pending = st.buffer@.subrange(st.pos as int, st.buffer@.len() as int);
        let avail = st.buffer.len() - st.pos;
        let n = if max < avail {
            max
        } else {
            avail
        };
        let mut r: Vec<u8> = Vec::new();
        append_bytes(&mut r, &st.buffer.as_slice()[st.pos..st.pos + n]);
        st.pos = st.pos + n;
        proof {
            assert(r@ =~= old_pending.take(n as int));
            let new_pending = st.buffer@.subrange(st.pos as int, st.buffer@.len() as int);
            assert(new_pending =~= old_pending.skip(n as int));
            let d0 = st.delivered@;
            st.delivered@ = d0 + r@;
            assert(st.delivered@ + new_pending =~= d0 + old_pending);
        }
        self.state = st;
        proof {
            use_type_invariant(&*self);
        }
        r
    }

    /// Mark `amt` pending bytes used (`consume`); once everything is used
    /// the buffer is emptied.
    pub fn consume(&mut self, amt: usize)
        ensures
            final(self).pending() == if amt < old(self).pending().len() {
                old(self).pending().skip(amt as int)
            } else {
                Seq::empty()
            },
            final(self).spec_delivered() == old(self).spec_delivered() + old(self).pending().take(
                capped(amt, old(self).pending().len() as int),
            ),
            final(self).spec_finished() == old(self).spec_finished(),
            final(self).spec_received() == old(self).spec_received(),
            final(self).spec_rx() == old(self).spec_rx(),
            final(self).feed_kept(),
    {
        proof {
            use_type_invariant(&*self);
        }
        let mut st = FeedState::empty();
        std::mem::swap(&mut st, &mut self.state);
        let ghost old_pending = st.buffer@.subrange(st.pos as int, st.buffer@.len() as int);
        let ghost d0 = st.delivered@;
        if amt >= st.buffer.len() - st.pos {
            st.pos = 0;
            st.buffer = Vec::new();
            proof {
                st.delivered@ = d0 + old_pending;
                assert(old_pending.take(old_pending.len() as int) =~= old_pending);
                assert(st.buffer@.subrange(0, 0) =~= Seq::<u8>::empty());
                assert(st.delivered@ + Seq::<u8>::empty() =~= st.delivered@);
            }
        } else {
            st.pos = st.pos + amt;
            proof {
                st.delivered@ = d0 + old_pending.take(amt as int);
                let new_pending = st.buffer@.subrange(st.pos as int, st.buffer@.len() as int);
                assert(new_pending =~= old_pending.skip(amt as int));
                assert(old_pending.take(amt as int) + old_pending.skip(amt as int) =~= old_pending);
                assert(st.delivered@ + new_pending =~= d0 + old_pending);
            }
        }
        self.state = st;
        proof {
            use_type_invariant(&*self);
        }
    }

    /// When everything was handed out and the feed is open, take the next
    /// line from the feed (or learn that it ended).
    pub fn refill(&mut self)
        ensures
            old(self).pending().len() == 0 && !old(self).spec_finished() ==> {
                ||| final(self).spec_finished() && final(self).pending().len() == 0
                    && final(self).spec_received() == old(self).spec_received()
                ||| !final(self).spec_finished() && exists|l: Seq<char>|
                    final(self).pending() == #[trigger] utf8(l).push(10u8)
                    && final(self).spec_received() == old(self).spec_received().push(l)
            },
            !(old(self).pending().len() == 0 && !old(self).spec_finished()) ==> final(self).pending()
                == old(self).pending() && final(self).spec_finished() == old(self).spec_finished()
                && final(self).spec_received() == old(self).spec_received(),
            final(self).spec_delivered() == old(self).spec_delivered(),
            final(self).spec_rx() == old(self).spec_rx(),
            final(self).feed_kept(),
    {
        proof {
            use_type_invariant(&*self);
        }
        if self.wants_line() {
            let line = next_line(&self.rx);
            self.receive(line);
        }
    }

    /// `Read::read`: refill if need be, then hand out up to `max` pending
    /// bytes; an empty result (for a positive `max`) means the feed ended,
    /// and then everything taken from the channel has been handed out.
    pub fn read(&mut self, max: usize) -> (r: Vec<u8>)
        ensures
            r@.len() <= max,
            old(self).pending().len() > 0 || old(self).spec_finished() ==> {
                &&& r@ == old(self).pending().take(capped(max, old(self).pending().len() as int))
                &&& final(self).pending() == old(self).pending().skip(r@.len() as int)
                &&& final(self).spec_finished() == old(self).spec_finished()
                &&& final(self).spec_received() == old(self).spec_received()
            },
            old(self).pending().len() == 0 && !old(self).spec_finished() ==> {
                ||| final(self).spec_finished() && r@.len() == 0 && final(self).pending().len() == 0
                    && final(self).spec_received() == old(self).spec_received()
                ||| !final(self).spec_finished() && exists|l: Seq<char>|
                    r@ + final(self).pending() == #[trigger] utf8(l).push(10u8) && r@.len() == capped(
                        max,
                        (utf8(l).len() + 1) as int,
                    ) && final(self).spec_received() == old(self).spec_received().push(l)
            },
            r@.len() == 0 && max > 0 ==> final(self).spec_finished() && final(self).pending().len()
                == 0,
            final(self).spec_delivered() == old(self).spec_delivered() + r@,
            final(self).feed_kept(),
            r@.len() == 0 && max > 0 ==> final(self).spec_delivered() == feed_bytes(
                final(self).spec_received(),
            ),
            final(self).spec_rx() == old(self).spec_rx(),
    {
        self.refill();
        let ghost mid = self.pending();
        let r = self.take(max);
        proof {
            assert(r@ + self.pending() =~= mid);
            if r@.len() == 0 && max > 0 {
                assert(self.spec_delivered() + self.pending() =~= self.spec_delivered());
            }
        }
        r
    }

    /// `BufRead::fill_buf`: refill if need be, then the pending bytes.
    pub fn fill_buf(&mut self) -> (r: &[u8])
        ensures
            r@ == final(self).pending(),
            r@.len() == 0 ==> final(self).spec_finished(),
            old(self).pending().len() > 0 || old(self).spec_finished() ==> r@ == old(self).pending()
                && final(self).spec_finished() == old(self).spec_finished()
                && final(self).spec_received() == old(self).spec_received(),
            old(self).pending().len() == 0 && !old(self).spec_finished() ==> {
                ||| final(self).spec_finished() && r@.len() == 0
                    && final(self).spec_received() == old(self).spec_received()
                ||| !final(self).spec_finished() && exists|l: Seq<char>| r@ == #[trigger] utf8(
                    l,
                ).push(10u8) && final(self).spec_received() == old(self).spec_received().push(l)
            },
            final(self).spec_delivered() == old(self).spec_delivered(),
            final(self).feed_kept(),
            r@.len() == 0 ==> final(self).spec_delivered() == feed_bytes(final(self).spec_received()),
            final(self).spec_rx() == old(self).spec_rx(),
    {
        self.refill();
        let r = self.available();
        proof {
            if r@.len() == 0 {
                assert(self.spec_delivered() + self.pending() =~= self.spec_delivered());
            }
        }
        r
    }
}

} // verus!
