//! Bounded retention of a command's output lines.

use vstd::prelude::*;
use std::collections::VecDeque;
use vstd::string::StringExecFns;
use crate::text::{
    utf8_len,
    prefix_within,
    prefix_within_budget,
    str_byte_len,
    push_char,
    chars_of,
    string_of,
    lemma_prefix_within_fits,
};

verus! {

/// Longest line kept, in bytes; longer lines are cut at a character boundary.
pub const MAX_LINE_BYTES: usize = 1048576;

/// Byte budget of the unlimited mode; lines that no longer fit are dropped.
pub const MAX_BUFFER_BYTES: usize = 10485760;

/// A line as it is stored: cut to the longest prefix of whole characters that
/// fits in [`MAX_LINE_BYTES`].
pub open spec fn capped_line(s: Seq<char>) -> Seq<char> {
    prefix_within(s, MAX_LINE_BYTES as nat)
}

/// Total byte length of a sequence of lines.
pub open spec fn total_bytes(lines: Seq<Seq<char>>) -> nat
    decreases lines.len(),
{
    if lines.len() == 0 {
        0
    } else {
        total_bytes(lines.drop_last()) + utf8_len(lines.last())
    }
}

/// Lines kept in unlimited mode: in order, a line is kept when it fits in
/// [`MAX_BUFFER_BYTES`] together with the lines kept before it.
pub open spec fn budgeted_lines(lines: Seq<Seq<char>>) -> Seq<Seq<char>>
    decreases lines.len(),
{
    if lines.len() == 0 {
        Seq::empty()
    } else {
        let prev = budgeted_lines(lines.drop_last());
        if total_bytes(prev) + utf8_len(lines.last()) > MAX_BUFFER_BYTES {
            prev
        } else {
            prev.push(lines.last())
        }
    }
}

/// A window of lines fits a buffer of `capacity` lines: at most `capacity`
/// lines and at most [`MAX_BUFFER_BYTES`] bytes.
pub open spec fn fits_window(w: Seq<Seq<char>>, capacity: nat) -> bool {
    w.len() <= capacity && total_bytes(w) <= MAX_BUFFER_BYTES
}

/// `w` with its oldest lines dropped until it fits.
pub open spec fn trim_window(w: Seq<Seq<char>>, capacity: nat) -> Seq<Seq<char>>
    decreases w.len(),
{
    if w.len() > 0 && !fits_window(w, capacity) {
        trim_window(w.drop_first(), capacity)
    } else {
        w
    }
}

/// Lines kept with a capacity: each new line is appended, then the oldest
/// lines are dropped while more than `capacity` lines or more than
/// [`MAX_BUFFER_BYTES`] bytes are held.
pub open spec fn windowed_lines(capacity: nat, lines: Seq<Seq<char>>) -> Seq<Seq<char>>
    decreases lines.len(),
{
    if lines.len() == 0 {
        Seq::empty()
    } else {
        trim_window(windowed_lines(capacity, lines.drop_last()).push(lines.last()), capacity)
    }
}

/// The lines a buffer of `capacity` returns after seeing `lines`: the longest
/// suffix of them that fits the capacity and the byte budget, or (capacity
/// 0) those within the byte budget in order of arrival.
pub open spec fn kept_lines(capacity: nat, lines: Seq<Seq<char>>) -> Seq<Seq<char>> {
    if capacity == 0 {
        budgeted_lines(lines)
    } else {
        windowed_lines(capacity, lines)
    }
}

/// Lines joined with `'\n'` between them.
pub open spec fn join_lines(lines: Seq<Seq<char>>) -> Seq<char>
    decreases lines.len(),
{
    if lines.len() == 0 {
        Seq::empty()
    } else if lines.len() == 1 {
        lines[0]
    } else {
        join_lines(lines.drop_last()) + seq!['\n'] + lines.last()
    }
}

/// The text a buffer returns: the kept lines joined by newlines, with a final
/// newline when the last line seen ended with one; empty when nothing is kept.
pub open spec fn tail_text(capacity: nat, lines: Seq<Seq<char>>, trailing_newline: bool) -> Seq<
    char,
> {
    let kept = kept_lines(capacity, lines);
    if kept.len() == 0 {
        Seq::empty()
    } else if trailing_newline {
        join_lines(kept).push('\n')
    } else {
        join_lines(kept)
    }
}

/// The text of each string.
pub open spec fn texts(v: Seq<String>) -> Seq<Seq<char>> {
    v.map_values(|s: String| s@)
}

/// A bounded buffer that keeps only the last `capacity` lines of a stream.
/// With capacity 0 (unlimited) it keeps every line until
/// [`MAX_BUFFER_BYTES`] is reached. In both modes the retained lines hold
/// at most [`MAX_BUFFER_BYTES`] bytes, and every line is capped at
/// [`MAX_LINE_BYTES`].
pub struct TailBuffer {
    kept: VecDeque<String>,
    total_lines: usize,
    capacity: usize,
    trailing_newline: bool,
    stored_bytes: usize,
    seen: Ghost<Seq<Seq<char>>>,
}

impl TailBuffer {
    /// Every line pushed so far, as stored (after capping).
    pub closed spec fn lines(&self) -> Seq<Seq<char>> {
        self.seen@
    }

    /// The line capacity (0 = unlimited).
    pub closed spec fn capacity(&self) -> nat {
        self.capacity as nat
    }

    /// Whether the output so far ends with a newline.
    pub closed spec fn ends_with_newline(&self) -> bool {
        self.trailing_newline
    }

    /// The retained lines are those [`kept_lines`] selects, and the byte
    /// count is their total size.
    pub closed spec fn wf(&self) -> bool {
        &&& self.seen@.len() == self.total_lines
        &&& texts(self.kept@) == kept_lines(self.capacity as nat, self.seen@)
        &&& self.stored_bytes == total_bytes(kept_lines(self.capacity as nat, self.seen@))
        &&& self.stored_bytes <= MAX_BUFFER_BYTES
    }

    /// An empty buffer that keeps the last `capacity` lines (0 = unlimited).
    pub fn new(capacity: usize) -> (buf: Self)
        ensures
            buf.wf(),
            buf.lines() == Seq::<Seq<char>>::empty(),
            buf.capacity() == capacity,
            !buf.ends_with_newline(),
    {
        let buf = TailBuffer {
            kept: VecDeque::new(),
            total_lines: 0,
            capacity,
            trailing_newline: false,
            stored_bytes: 0,
            seen: Ghost(Seq::empty()),
        };
        assert(texts(buf.kept@) =~= Seq::<Seq<char>>::empty());
        buf
    }

    /// Records one line of output. `had_newline` tells whether the line was
    /// terminated by a newline; a line cut to [`MAX_LINE_BYTES`] loses it.
    pub fn push(&mut self, line: &str, had_newline: bool)
        requires
            old(self).wf(),
            old(self).lines().len() < usize::MAX,
        ensures
            final(self).wf(),
            final(self).lines() == old(self).lines().push(capped_line(line@)),
            final(self).capacity() == old(self).capacity(),
            final(self).ends_with_newline() == (had_newline && capped_line(line@) == line@),
    {
        let ghost old_seen = self.seen@;
        let len = str_byte_len(line);
        let stored: String = if len > MAX_LINE_BYTES {
            prefix_within_budget(line, MAX_LINE_BYTES)
        } else {
            line.to_owned()
        };
        proof {
            lemma_prefix_within_fits(line@, MAX_LINE_BYTES as nat);
        }
        let kept_whole = len <= MAX_LINE_BYTES;
        assert(stored@ == capped_line(line@));
        assert(kept_whole == (capped_line(line@) == line@));
        self.total_lines = self.total_lines + 1;
        self.trailing_newline = had_newline && kept_whole;
        self.seen = Ghost(old_seen.push(stored@));
        let stored_len = str_byte_len(stored.as_str());
        assert(stored_len <= MAX_LINE_BYTES);
        proof {
            assert(self.seen@.drop_last() =~= old_seen);
            assert(self.seen@.last() == stored@);
        }
        if self.capacity == 0 {
            if self.stored_bytes + stored_len > MAX_BUFFER_BYTES {
                assert(budgeted_lines(self.seen@) == budgeted_lines(old_seen));
                return;
            }
            self.stored_bytes = self.stored_bytes + stored_len;
            let ghost before = self.kept@;
            self.kept.push_back(stored);
            proof {
                let b = budgeted_lines(self.seen@);
                assert(b == budgeted_lines(old_seen).push(self.seen@.last()));
                assert(texts(self.kept@) =~= texts(before).push(stored@));
                assert(b.drop_last() =~= budgeted_lines(old_seen));
            }
        } else {
            let ghost before = self.kept@;
            let ghost prev = windowed_lines(self.capacity as nat, old_seen);
            self.kept.push_back(stored);
            self.stored_bytes = self.stored_bytes + stored_len;
            proof {
                assert(texts(self.kept@) =~= prev.push(stored@));
                assert(prev.push(stored@).drop_last() =~= prev);
            }
            trim_front(&mut self.kept, &mut self.stored_bytes, self.capacity);
            proof {
                lemma_trim_window_fits(prev.push(stored@), self.capacity as nat);
            }
        }
    }

    /// Consumes the buffer and returns the retained text and whether any
    /// line was dropped to keep the last `capacity` lines within the
    /// budget (always `false` in unlimited mode).
    pub fn finish(self) -> (res: (String, bool))
        requires
            self.wf(),
        ensures
            res.0@ == tail_text(self.capacity(), self.lines(), self.ends_with_newline()),
            res.1 == (self.capacity() > 0 && kept_lines(self.capacity(), self.lines()).len() < self.lines().len()),
    {
        let truncated = self.capacity > 0 && self.kept.len() < self.total_lines;
        if self.kept.len() == 0 {
            return (String::new(), truncated);
        }
        let mut text = join_deque(&self.kept);
        if self.trailing_newline {
            push_char(&mut text, '\n');
        }
        (text, truncated)
    }

    /// Records a line as read from a stream: the raw text with its trailing
    /// newlines, which are stripped and noted.
    pub fn push_read_line(&mut self, raw: &str)
        requires
            old(self).wf(),
            old(self).lines().len() < usize::MAX,
        ensures
            final(self).wf(),
            final(self).lines() == old(self).lines().push(capped_line(without_newlines(raw@))),
            final(self).capacity() == old(self).capacity(),
            final(self).ends_with_newline() == (raw@.len() > 0 && raw@.last() == '\n' && capped_line(
                without_newlines(raw@),
            ) == without_newlines(raw@)),
    {
        let v = chars_of(raw);
        let mut b = v.len();
        while b > 0 && v[b - 1] == '\n'
            invariant
                b <= v@.len(),
                v@ == raw@,
                forall|j: int| b <= j < v@.len() ==> #[trigger] v@[j] == '\n',
            decreases b,
        {
            b = b - 1;
        }
        proof {
            lemma_trailing_newlines(raw@, (raw@.len() - b) as int);
            assert(raw@.take(b as int) =~= v@.subrange(0, b as int));
        }
        let had_newline = v.len() > 0 && v[v.len() - 1] == '\n';
        let line = string_of(&v, 0, b);
        self.push(line.as_str(), had_newline);
    }

    /// The number of lines pushed so far.
    pub fn total_lines(&self) -> (n: usize)
        requires
            self.wf(),
        ensures
            n == self.lines().len(),
    {
        self.total_lines
    }
}

/// Number of newlines at the end of `s`.
pub open spec fn trailing_newlines(s: Seq<char>) -> nat
    decreases s.len(),
{
    if s.len() > 0 && s.last() == '\n' {
        1 + trailing_newlines(s.drop_last())
    } else {
        0
    }
}

/// `s` without its trailing newlines (`trim_end_matches('\n')`).
pub open spec fn without_newlines(s: Seq<char>) -> Seq<char> {
    s.take(s.len() - trailing_newlines(s))
}

proof fn lemma_trailing_newlines(s: Seq<char>, i: int)
    requires
        0 <= i <= s.len(),
        forall|j: int| s.len() - i <= j < s.len() ==> #[trigger] s[j] == '\n',
        i < s.len() ==> s[s.len() - 1 - i] != '\n',
    ensures
        trailing_newlines(s) == i,
    decreases i,
{
    if i > 0 {
        assert forall|j: int| s.drop_last().len() - (i - 1) <= j < s.drop_last().len() implies #[trigger] s.drop_last()[j] == '\n' by {
            assert(s.drop_last()[j] == s[j]);
        }
        if i - 1 < s.drop_last().len() {
            assert(s.drop_last()[s.drop_last().len() - 1 - (i - 1)] == s[s.len() - 1 - i]);
        }
        lemma_trailing_newlines(s.drop_last(), i - 1);
    }
}

/// A stored line is a prefix of the line pushed, ends on a character
/// boundary, is at most [`MAX_LINE_BYTES`] long, is the whole line whenever
/// the line fits, and otherwise is the longest such prefix: one more
/// character would exceed the limit.
pub proof fn lemma_capped_line(s: Seq<char>)
    ensures
        utf8_len(capped_line(s)) <= MAX_LINE_BYTES,
        capped_line(s) == s.take(capped_line(s).len() as int),
        utf8_len(s) <= MAX_LINE_BYTES ==> capped_line(s) == s,
        utf8_len(s) > MAX_LINE_BYTES ==> capped_line(s).len() < s.len(),
        utf8_len(s) > MAX_LINE_BYTES ==> utf8_len(s.take(capped_line(s).len() as int + 1)) > MAX_LINE_BYTES,
{
    lemma_prefix_within_fits(s, MAX_LINE_BYTES as nat);
}

/// Drops the oldest lines of `kept` while it does not fit a buffer of
/// `capacity` lines, keeping `bytes` equal to its total size.
fn trim_front(kept: &mut VecDeque<String>, bytes: &mut usize, capacity: usize)
    requires
        *old(bytes) == total_bytes(texts(old(kept)@)),
        *old(bytes) <= MAX_BUFFER_BYTES + MAX_LINE_BYTES,
    ensures
        texts(final(kept)@) == trim_window(texts(old(kept)@), capacity as nat),
        *final(bytes) == total_bytes(texts(final(kept)@)),
{
    let ghost target = trim_window(texts(kept@), capacity as nat);
    while kept.len() > 0 && (kept.len() > capacity || *bytes > MAX_BUFFER_BYTES)
        invariant
            trim_window(texts(kept@), capacity as nat) == target,
            *bytes == total_bytes(texts(kept@)),
            *bytes <= MAX_BUFFER_BYTES + MAX_LINE_BYTES,
        decreases kept@.len(),
    {
        let ghost w = texts(kept@);
        proof {
            lemma_total_bytes_first(w);
            assert(!fits_window(w, capacity as nat));
        }
        let front = kept.pop_front();
        match front {
            Some(f) => {
                let n = str_byte_len(f.as_str());
                proof {
                    assert(texts(kept@) =~= w.drop_first());
                }
                *bytes = *bytes - n;
            },
            None => {},
        }
    }
    proof {
        let w = texts(kept@);
        assert(w.len() == 0 || fits_window(w, capacity as nat));
    }
}

/// Joins the strings of `d`, in order, with newlines.
fn join_deque(d: &VecDeque<String>) -> (text: String)
    requires
        d@.len() > 0,
    ensures
        text@ == join_lines(texts(d@)),
{
    let n = d.len();
    let ghost r = texts(d@);
    let mut text = d[0].clone();
    proof {
        assert(r.take(1) =~= seq![r[0]]);
    }
    let mut k: usize = 1;
    while k < n
        invariant
            1 <= k <= n,
            n == d@.len(),
            r == texts(d@),
            text@ == join_lines(r.take(k as int)),
        decreases n - k,
    {
        proof {
            lemma_join_lines_step(r, k as int);
        }
        text.append("\n");
        text.append(d[k].as_str());
        proof {
            reveal_strlit("\n");
            assert(text@ =~= join_lines(r.take(k as int + 1)));
        }
        k = k + 1;
    }
    proof {
        assert(r.take(n as int) =~= r);
    }
    text
}

/// The size of a window is the size of its first line plus the rest.
proof fn lemma_total_bytes_first(w: Seq<Seq<char>>)
    requires
        w.len() > 0,
    ensures
        total_bytes(w) == utf8_len(w[0]) + total_bytes(w.drop_first()),
    decreases w.len(),
{
    if w.len() > 1 {
        lemma_total_bytes_first(w.drop_last());
        assert(w.drop_last()[0] == w[0]);
        assert(w.drop_last().drop_first() =~= w.drop_first().drop_last());
        assert(w.drop_first().last() == w.last());
        assert(total_bytes(w) == total_bytes(w.drop_last()) + utf8_len(w.last()));
        assert(total_bytes(w.drop_first()) == total_bytes(w.drop_first().drop_last()) + utf8_len(w.drop_first().last()));
    } else {
        assert(w.drop_first().len() == 0);
        assert(w.drop_last().len() == 0);
        assert(w.last() == w[0]);
        assert(total_bytes(w) == total_bytes(w.drop_last()) + utf8_len(w.last()));
    }
}

/// A trimmed window fits, unless it is empty.
proof fn lemma_trim_window_fits(w: Seq<Seq<char>>, capacity: nat)
    ensures
        trim_window(w, capacity).len() == 0 || fits_window(trim_window(w, capacity), capacity),
        total_bytes(trim_window(w, capacity)) <= MAX_BUFFER_BYTES,
    decreases w.len(),
{
    if w.len() > 0 && !fits_window(w, capacity) {
        lemma_trim_window_fits(w.drop_first(), capacity);
    }
}

proof fn lemma_fits_drop_last(s: Seq<Seq<char>>, capacity: nat)
    requires
        s.len() > 0,
        fits_window(s, capacity),
    ensures
        fits_window(s.drop_last(), capacity),
{
}

/// Trimming keeps a suffix, and no longer suffix fits.
proof fn lemma_trim_window_suffix(w: Seq<Seq<char>>, capacity: nat) -> (j: int)
    ensures
        0 <= j <= w.len(),
        trim_window(w, capacity) == w.skip(j),
        forall|i: int| 0 <= i < j ==> !fits_window(#[trigger] w.skip(i), capacity),
    decreases w.len(),
{
    if w.len() > 0 && !fits_window(w, capacity) {
        let j1 = lemma_trim_window_suffix(w.drop_first(), capacity);
        assert(w.drop_first().skip(j1) =~= w.skip(j1 + 1));
        assert forall|i: int| 0 <= i < j1 + 1 implies !fits_window(#[trigger] w.skip(i), capacity) by {
            if i == 0 {
                assert(w.skip(0) =~= w);
            } else {
                assert(w.skip(i) =~= w.drop_first().skip(i - 1));
            }
        }
        j1 + 1
    } else {
        assert(w.skip(0) =~= w);
        0
    }
}

/// The window kept with a capacity is a suffix, and no longer suffix fits.
proof fn lemma_windowed(capacity: nat, lines: Seq<Seq<char>>) -> (a: int)
    ensures
        0 <= a <= lines.len(),
        windowed_lines(capacity, lines) == lines.skip(a),
        forall|i: int| 0 <= i < a ==> !fits_window(#[trigger] lines.skip(i), capacity),
    decreases lines.len(),
{
    if lines.len() == 0 {
        assert(lines.skip(0) =~= Seq::<Seq<char>>::empty());
        0
    } else {
        let p = lines.drop_last();
        let x = lines.last();
        let a0 = lemma_windowed(capacity, p);
        let w = p.skip(a0).push(x);
        assert(w =~= lines.skip(a0));
        let j = lemma_trim_window_suffix(w, capacity);
        assert(lines.skip(a0).skip(j) =~= lines.skip(a0 + j));
        assert forall|i: int| 0 <= i < a0 + j implies !fits_window(#[trigger] lines.skip(i), capacity) by {
            if i < a0 {
                assert(lines.skip(i).drop_last() =~= p.skip(i));
                if fits_window(lines.skip(i), capacity) {
                    lemma_fits_drop_last(lines.skip(i), capacity);
                }
            } else {
                assert(lines.skip(i) =~= w.skip(i - a0));
            }
        }
        a0 + j
    }
}

/// With a capacity, the buffer keeps the longest run of most recent lines
/// that holds at most `capacity` lines and at most [`MAX_BUFFER_BYTES`]
/// bytes; everything is kept when everything fits, and the newest line is
/// kept whenever it fits the budget on its own.
pub proof fn lemma_kept_window(capacity: nat, lines: Seq<Seq<char>>)
    requires
        capacity > 0,
    ensures
        kept_lines(capacity, lines) == lines.skip(lines.len() - kept_lines(capacity, lines).len()),
        kept_lines(capacity, lines).len() <= capacity,
        kept_lines(capacity, lines).len() <= lines.len(),
        total_bytes(kept_lines(capacity, lines)) <= MAX_BUFFER_BYTES,
        forall|i: int|
            0 <= i < lines.len() - kept_lines(capacity, lines).len() ==> !fits_window(
                #[trigger] lines.skip(i),
                capacity,
            ),
        fits_window(lines, capacity) ==> kept_lines(capacity, lines) == lines,
        lines.len() > 0 && utf8_len(lines.last()) <= MAX_BUFFER_BYTES ==> kept_lines(capacity, lines).len() > 0,
{
    let a = lemma_windowed(capacity, lines);
    let k = kept_lines(capacity, lines);
    assert(k.len() == lines.len() - a);
    if lines.len() > 0 {
        lemma_trim_window_fits(windowed_lines(capacity, lines.drop_last()).push(lines.last()), capacity);
    }
    if fits_window(lines, capacity) && a > 0 {
        assert(lines.skip(0) =~= lines);
    }
    if lines.len() > 0 && utf8_len(lines.last()) <= MAX_BUFFER_BYTES && a == lines.len() {
        let one = lines.skip(lines.len() - 1);
        assert(one =~= seq![lines.last()]);
        assert(one.drop_last() =~= Seq::<Seq<char>>::empty());
        assert(one.last() == lines.last());
        assert(total_bytes(one.drop_last()) == 0);
        assert(total_bytes(one) == utf8_len(lines.last()));
        assert(fits_window(one, capacity));
    }
}

/// With a capacity, when the last `capacity` lines (or all of them, if
/// fewer) fit the byte budget, exactly those lines are kept, and lines are
/// dropped exactly when more than `capacity` were seen.
pub proof fn lemma_kept_last_lines(capacity: nat, lines: Seq<Seq<char>>)
    requires
        capacity > 0,
        total_bytes(
            lines.skip(
                if lines.len() > capacity {
                    lines.len() - capacity
                } else {
                    0
                },
            ),
        ) <= MAX_BUFFER_BYTES,
    ensures
        kept_lines(capacity, lines) == lines.skip(
            if lines.len() > capacity {
                lines.len() - capacity
            } else {
                0
            },
        ),
        (kept_lines(capacity, lines).len() < lines.len()) == (lines.len() > capacity),
{
    lemma_kept_window(capacity, lines);
    let start: int = if lines.len() > capacity {
        lines.len() - capacity
    } else {
        0
    };
    let k = kept_lines(capacity, lines);
    assert(fits_window(lines.skip(start), capacity));
    if k.len() < lines.len() - start {
        assert(!fits_window(lines.skip(start), capacity));
    }
    assert(k.len() == lines.len() - start);
}

/// In unlimited mode, output within the byte budget comes back unchanged:
/// the lines joined by newlines, with the final newline if the last line
/// had one.
pub proof fn lemma_unlimited_text(lines: Seq<Seq<char>>, trailing_newline: bool)
    requires
        total_bytes(lines) <= MAX_BUFFER_BYTES,
    ensures
        tail_text(0, lines, trailing_newline) == if lines.len() == 0 {
            Seq::<char>::empty()
        } else if trailing_newline {
            join_lines(lines).push('\n')
        } else {
            join_lines(lines)
        },
{
    lemma_budget_respected(lines);
}

/// In unlimited mode the retained lines never exceed the byte budget, and
/// when everything fits nothing is dropped.
pub proof fn lemma_budget_respected(lines: Seq<Seq<char>>)
    ensures
        total_bytes(budgeted_lines(lines)) <= MAX_BUFFER_BYTES,
        total_bytes(lines) <= MAX_BUFFER_BYTES ==> budgeted_lines(lines) == lines,
    decreases lines.len(),
{
    if lines.len() > 0 {
        lemma_budget_respected(lines.drop_last());
        let prev = budgeted_lines(lines.drop_last());
        if total_bytes(prev) + utf8_len(lines.last()) <= MAX_BUFFER_BYTES {
            assert(prev.push(lines.last()).drop_last() =~= prev);
        }
        if total_bytes(lines) <= MAX_BUFFER_BYTES {
            assert(prev.push(lines.last()).drop_last() =~= prev);
            assert(lines.drop_last().push(lines.last()) =~= lines);
        }
    }
}

proof fn lemma_join_lines_step(s: Seq<Seq<char>>, k: int)
    requires
        1 <= k < s.len(),
    ensures
        join_lines(s.take(k + 1)) == join_lines(s.take(k)) + seq!['\n'] + s[k],
{
    assert(s.take(k + 1).drop_last() =~= s.take(k));
}

} // verus!
