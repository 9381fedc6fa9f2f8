use vstd::prelude::*;
use crate::text::{chars_of, slice_text};

verus! {

pub const NEWLINE: u8 = 10;

/// Reading `input` after `pending`, the unfinished line so far: the lines
/// that `input` completes, each without its newline, and what stays unfinished.
pub open spec fn scan(pending: Seq<u8>, input: Seq<u8>) -> (Seq<Seq<u8>>, Seq<u8>)
    decreases input.len(),
{
    if input.len() == 0 {
        (Seq::empty(), pending)
    } else {
        let (lines, rest) = scan(pending, input.drop_last());
        if input.last() == NEWLINE {
            (lines.push(rest), Seq::empty())
        } else {
            (lines, rest.push(input.last()))
        }
    }
}

/// Feeding the chunks one after another.
pub open spec fn scan_chunks(pending: Seq<u8>, chunks: Seq<Seq<u8>>) -> (Seq<Seq<u8>>, Seq<u8>)
    decreases chunks.len(),
{
    if chunks.len() == 0 {
        (Seq::empty(), pending)
    } else {
        let first = scan(pending, chunks[0]);
        let others = scan_chunks(first.1, chunks.drop_first());
        (first.0 + others.0, others.1)
    }
}

/// Reading `a` and then `b` is reading `a + b`.
pub proof fn lemma_scan_append(pending: Seq<u8>, a: Seq<u8>, b: Seq<u8>)
    ensures
        scan(pending, a + b) == (scan(pending, a).0 + scan(scan(pending, a).1, b).0,
            scan(scan(pending, a).1, b).1),
    decreases b.len(),
{
    let mid = scan(pending, a);
    if b.len() == 0 {
        assert(a + b =~= a);
        assert(mid.0 + Seq::<Seq<u8>>::empty() =~= mid.0);
    } else {
        assert((a + b).drop_last() =~= a + b.drop_last());
        assert((a + b).last() == b.last());
        lemma_scan_append(pending, a, b.drop_last());
        let prev = scan(mid.1, b.drop_last());
        if b.last() == NEWLINE {
            assert((mid.0 + prev.0).push(prev.1) =~= mid.0 + prev.0.push(prev.1));
        }
    }
}

/// Line splitting does not depend on how the bytes were cut into chunks:
/// the chunks give the lines of their concatenation.
pub proof fn lemma_chunks_as_one(pending: Seq<u8>, chunks: Seq<Seq<u8>>)
    ensures
        scan_chunks(pending, chunks) == scan(pending, chunks.flatten()),
    decreases chunks.len(),
{
    if chunks.len() == 0 {
        assert(scan(pending, Seq::<u8>::empty()) == (Seq::<Seq<u8>>::empty(), pending));
    } else {
        let first = scan(pending, chunks[0]);
        lemma_chunks_as_one(first.1, chunks.drop_first());
        lemma_scan_append(pending, chunks[0], chunks.drop_first().flatten());
    }
}

/// Two cuttings of one byte stream into chunks give the same lines, and
/// leave the same unfinished line.
pub proof fn lemma_split_invariant(c1: Seq<Seq<u8>>, c2: Seq<Seq<u8>>)
    requires
        c1.flatten() == c2.flatten(),
    ensures
        scan_chunks(Seq::empty(), c1) == scan_chunks(Seq::empty(), c2),
{
    lemma_chunks_as_one(Seq::empty(), c1);
    lemma_chunks_as_one(Seq::empty(), c2);
}

pub open spec fn views_of(lines: Seq<Vec<u8>>) -> Seq<Seq<u8>> {
    lines.map_values(|l: Vec<u8>| l@)
}

/// Splits a byte stream that arrives in chunks into lines, keeping a line
/// that a chunk cuts until its newline arrives.
pub struct LineReader {
    pending: Vec<u8>,
}

impl View for LineReader {
    type V = Seq<u8>;

    closed spec fn view(&self) -> Seq<u8> {
        self.pending@
    }
}

impl LineReader {
    pub fn new() -> (r: LineReader)
        ensures
            r@ == Seq::<u8>::empty(),
    {
        LineReader { pending: Vec::new() }
    }

    /// Takes one chunk and returns the lines it completes, in order.
    pub fn feed(&mut self, chunk: &[u8]) -> (lines: Vec<Vec<u8>>)
        ensures
            views_of(lines@) == scan(old(self)@, chunk@).0,
            final(self)@ == scan(old(self)@, chunk@).1,
    {
        let ghost start = self@;
        let mut lines: Vec<Vec<u8>> = Vec::new();
        let mut i: usize = 0;
        assert(chunk@.subrange(0, 0) =~= Seq::<u8>::empty());
        assert(views_of(lines@) =~= Seq::<Seq<u8>>::empty());
        while i < chunk.len()
            invariant
                i <= chunk@.len(),
                (views_of(lines@), self@) == scan(start, chunk@.subrange(0, i as int)),
            decreases chunk@.len() - i,
        {
            let b = chunk[i];
            let ghost before = chunk@.subrange(0, i as int);
            assert(chunk@.subrange(0, i + 1).drop_last() =~= before);
            if b == NEWLINE {
                let mut line: Vec<u8> = Vec::new();
                core::mem::swap(&mut line, &mut self.pending);
                lines.push(line);
                assert(views_of(lines@) =~= scan(start, before).0.push(scan(start, before).1));
            } else {
                self.pending.push(b);
            }
            i = i + 1;
        }
        assert(chunk@.subrange(0, chunk@.len() as int) =~= chunk@);
        lines
    }

    /// At the end of the stream: the unfinished line, if it is not empty.
    pub fn finish(&mut self) -> (last: Option<Vec<u8>>)
        ensures
            final(self)@ == Seq::<u8>::empty(),
            old(self)@.len() == 0 ==> last is None,
            old(self)@.len() > 0 ==> (last matches Some(l) && l@ == old(self)@),
    {
        let mut line: Vec<u8> = Vec::new();
        core::mem::swap(&mut line, &mut self.pending);
        if line.len() == 0 {
            None
        } else {
            Some(line)
        }
    }
}

/// The text that std's lossy UTF-8 decoding gives for some bytes.
pub uninterp spec fn lossy(bytes: Seq<u8>) -> Seq<char>;

/// Relies on `String::from_utf8_lossy`: the bytes decoded as UTF-8, with each
/// invalid sequence replaced; the text depends on the bytes alone.
#[verifier::external_body]
pub(crate) fn decode_lossy(bytes: &[u8]) -> (r: String)
    ensures
        r@ == lossy(bytes@),
{
    String::from_utf8_lossy(bytes).into_owned()
}

/// Whether `c` is white space as Unicode's `White_Space` property (and
/// `char::is_whitespace`) has it.
pub open spec fn is_blank(c: char) -> bool {
    ('\t' <= c && c <= '\r') || c == ' ' || c == '\u{85}' || c == '\u{a0}' || c == '\u{1680}'
        || ('\u{2000}' <= c && c <= '\u{200a}') || c == '\u{2028}' || c == '\u{2029}' || c == '\u{202f}'
        || c == '\u{205f}' || c == '\u{3000}'
}

/// The index of the first character that is not blank.
pub open spec fn trim_start_at(s: Seq<char>, i: int) -> int
    decreases s.len() - i,
{
    if i >= s.len() || !is_blank(s[i]) {
        i
    } else {
        trim_start_at(s, i + 1)
    }
}

/// The index after the last character that is not blank, looking at `..j`.
pub open spec fn trim_end_at(s: Seq<char>, lo: int, j: int) -> int
    decreases j - lo,
{
    if j <= lo || !is_blank(s[j - 1]) {
        j
    } else {
        trim_end_at(s, lo, j - 1)
    }
}

/// `s` without blanks at either end.
pub open spec fn trimmed(s: Seq<char>) -> Seq<char> {
    let lo = trim_start_at(s, 0);
    s.subrange(lo, trim_end_at(s, lo, s.len() as int))
}

proof fn lemma_trim_start_bounds(s: Seq<char>, i: int)
    requires
        0 <= i <= s.len(),
    ensures
        i <= trim_start_at(s, i) <= s.len(),
    decreases s.len() - i,
{
    if i < s.len() && is_blank(s[i]) {
        lemma_trim_start_bounds(s, i + 1);
    }
}

proof fn lemma_trim_end_bounds(s: Seq<char>, lo: int, j: int)
    requires
        0 <= lo <= j <= s.len(),
    ensures
        lo <= trim_end_at(s, lo, j) <= j,
    decreases j - lo,
{
    if j > lo && is_blank(s[j - 1]) {
        lemma_trim_end_bounds(s, lo, j - 1);
    }
}

fn blank(c: char) -> (r: bool)
    ensures
        r == is_blank(c),
{
    ('\t' <= c && c <= '\r') || c == ' ' || c == '\u{85}' || c == '\u{a0}' || c == '\u{1680}'
        || ('\u{2000}' <= c && c <= '\u{200a}') || c == '\u{2028}' || c == '\u{2029}' || c == '\u{202f}'
        || c == '\u{205f}' || c == '\u{3000}'
}

/// The bounds of `s` without its blank ends.
pub fn trim_bounds(s: &[char]) -> (r: (usize, usize))
    ensures
        r.0 <= r.1 <= s@.len(),
        s@.subrange(r.0 as int, r.1 as int) == trimmed(s@),
{
    let mut lo: usize = 0;
    proof { lemma_trim_start_bounds(s@, 0); }
    while lo < s.len() && blank(s[lo])
        invariant
            lo <= s@.len(),
            trim_start_at(s@, lo as int) == trim_start_at(s@, 0),
        decreases s@.len() - lo,
    {
        lo = lo + 1;
    }
    let mut hi: usize = s.len();
    proof { lemma_trim_end_bounds(s@, lo as int, s@.len() as int); }
    while hi > lo && blank(s[hi - 1])
        invariant
            lo <= hi <= s@.len(),
            trim_start_at(s@, 0) == lo,
            trim_end_at(s@, lo as int, hi as int) == trim_end_at(s@, lo as int, s@.len() as int),
        decreases hi - lo,
    {
        hi = hi - 1;
    }
    (lo, hi)
}

pub open spec fn data_prefix() -> Seq<char> {
    seq!['d', 'a', 't', 'a', ':', ' ']
}

/// The payload of a server-sent-events line: a line that, without its blank
/// ends, begins with `data: ` carries what follows that prefix.
pub open spec fn sse_payload(line: Seq<char>) -> Option<Seq<char>> {
    let t = trimmed(line);
    if t.len() >= 6 && t.subrange(0, 6) == data_prefix() {
        Some(t.subrange(6, t.len() as int))
    } else {
        None
    }
}

/// The data payload of one line of an event stream, if it carries one.
pub fn data_payload(line: &[u8]) -> (r: Option<String>)
    ensures
        r matches Some(p) ==> sse_payload(lossy(line@)) == Some(p@),
        r is None ==> sse_payload(lossy(line@)) is None,
{
    let text = decode_lossy(line);
    let cs = chars_of(text.as_str());
    let (lo, hi) = trim_bounds(cs.as_slice());
    let prefix: [char; 6] = ['d', 'a', 't', 'a', ':', ' '];
    let ghost t = cs@.subrange(lo as int, hi as int);
    if hi - lo >= 6 {
        let mut ok = true;
        let mut k: usize = 0;
        while k < 6
            invariant
                k <= 6,
                lo + 6 <= hi <= cs@.len(),
                t == cs@.subrange(lo as int, hi as int),
                ok == (forall|m: int| 0 <= m < k ==> t[m] == data_prefix()[m]),
                prefix@ == data_prefix(),
            decreases 6 - k,
        {
            assert(t[k as int] == cs@[lo + k]);
            if cs[lo + k] != prefix[k] {
                ok = false;
            }
            k = k + 1;
            assert(ok == (forall|m: int| 0 <= m < k ==> t[m] == data_prefix()[m])) by {
                if !ok {
                    if cs@[lo + k - 1] != prefix@[k - 1] {
                        assert(t[k - 1] != data_prefix()[k - 1]);
                    }
                }
            }
        }
        if ok {
            assert(t.subrange(0, 6) =~= data_prefix());
            let p = slice_text(cs.as_slice(), lo + 6, hi);
            assert(p@ =~= t.subrange(6, t.len() as int));
            return Some(p);
        } else {
            assert(t.subrange(0, 6) != data_prefix()) by {
                let m = choose|m: int| 0 <= m < 6 && t[m] != data_prefix()[m];
                assert(t.subrange(0, 6)[m] != data_prefix()[m]);
            }
        }
    }
    None
}

} // verus!

verus! {

pub open spec fn event_prefix() -> Seq<char> {
    seq!['e', 'v', 'e', 'n', 't', ':', ' ']
}

/// The event name that a line sets: a line that, without its blank ends,
/// begins with `event: ` names what follows that prefix.
pub open spec fn sse_event_name(line: Seq<char>) -> Option<Seq<char>> {
    let t = trimmed(line);
    if t.len() >= 7 && t.subrange(0, 7) == event_prefix() {
        Some(t.subrange(7, t.len() as int))
    } else {
        None
    }
}

/// One data payload of an event stream, with the event name set for it.
pub struct SseData {
    pub event: Option<String>,
    pub data: String,
}

/// Reads the lines of an event stream: `event:` lines name the next data
/// payload; the name is used once.
pub struct SseReader {
    pub event: Option<String>,
}

fn prefix_at(cs: &[char], lo: usize, hi: usize, p: &[char]) -> (r: bool)
    requires
        lo <= hi <= cs@.len(),
    ensures
        r == (hi - lo >= p@.len() && cs@.subrange(lo as int, hi as int).subrange(0, p@.len() as int) == p@),
{
    if hi - lo < p.len() {
        return false;
    }
    let ghost t = cs@.subrange(lo as int, hi as int);
    let mut k: usize = 0;
    while k < p.len()
        invariant
            k <= p@.len(),
            lo + p@.len() <= hi <= cs@.len(),
            t == cs@.subrange(lo as int, hi as int),
            forall|m: int| 0 <= m < k ==> t[m] == p@[m],
        decreases p@.len() - k,
    {
        assert(t[k as int] == cs@[lo + k]);
        if cs[lo + k] != p[k] {
            assert(t.subrange(0, p@.len() as int)[k as int] != p@[k as int]);
            return false;
        }
        k = k + 1;
    }
    assert(t.subrange(0, p@.len() as int) =~= p@);
    true
}

impl SseReader {
    pub fn new() -> (r: SseReader)
        ensures
            r.event is None,
    {
        SseReader { event: None }
    }

    /// One line: an `event:` line sets the name and yields nothing; a
    /// `data:` line yields its payload with the name, which is then cleared;
    /// other lines change nothing.
    pub fn on_line(&mut self, line: &[u8]) -> (r: Option<SseData>)
        ensures
            sse_event_name(lossy(line@)) matches Some(n) ==> r is None
                && (final(self).event matches Some(e) && e@ == n),
            sse_event_name(lossy(line@)) is None && sse_payload(lossy(line@)) is Some ==>
                (r matches Some(d) && d.data@ == sse_payload(lossy(line@))->0 && d.event == old(self).event)
                && final(self).event is None,
            sse_event_name(lossy(line@)) is None && sse_payload(lossy(line@)) is None ==>
                r is None && final(self).event == old(self).event,
    {
        let text = decode_lossy(line);
        let cs = chars_of(text.as_str());
        let (lo, hi) = trim_bounds(cs.as_slice());
        let ev: [char; 7] = ['e', 'v', 'e', 'n', 't', ':', ' '];
        assert(ev@ =~= event_prefix());
        if prefix_at(cs.as_slice(), lo, hi, &ev) {
            let name = slice_text(cs.as_slice(), lo + 7, hi);
            assert(name@ =~= cs@.subrange(lo as int, hi as int).subrange(7, (hi - lo) as int));
            self.event = Some(name);
            return None;
        }
        match data_payload(line) {
            Some(data) => {
                let mut event: Option<String> = None;
                core::mem::swap(&mut event, &mut self.event);
                Some(SseData { event, data })
            },
            None => None,
        }
    }
}

} // verus!

verus! {

pub open spec fn opt_text(o: Option<String>) -> Option<Seq<char>> {
    match o {
        Some(s) => Some(s@),
        None => None,
    }
}

/// One line read with event name `ev` pending: the name pending after it,
/// and the payload it yields, with the name that applies to it.
pub open spec fn sse_step(ev: Option<Seq<char>>, line: Seq<u8>)
    -> (Option<Seq<char>>, Option<(Option<Seq<char>>, Seq<char>)>) {
    let t = lossy(line);
    match sse_event_name(t) {
        Some(n) => (Some(n), None),
        None => match sse_payload(t) {
            Some(d) => (None, Some((ev, d))),
            None => (ev, None),
        },
    }
}

/// Lines read one after another: the name pending at the end, and the payloads.
pub open spec fn sse_fold(ev: Option<Seq<char>>, lines: Seq<Seq<u8>>)
    -> (Option<Seq<char>>, Seq<(Option<Seq<char>>, Seq<char>)>)
    decreases lines.len(),
{
    if lines.len() == 0 {
        (ev, Seq::empty())
    } else {
        let prev = sse_fold(ev, lines.drop_last());
        let step = sse_step(prev.0, lines.last());
        (step.0, match step.1 {
            Some(x) => prev.1.push(x),
            None => prev.1,
        })
    }
}

/// Reading two runs of lines one after the other is reading them joined.
pub proof fn lemma_sse_fold_append(ev: Option<Seq<char>>, l1: Seq<Seq<u8>>, l2: Seq<Seq<u8>>)
    ensures
        sse_fold(ev, l1 + l2) == (sse_fold(sse_fold(ev, l1).0, l2).0,
            sse_fold(ev, l1).1 + sse_fold(sse_fold(ev, l1).0, l2).1),
    decreases l2.len(),
{
    let first = sse_fold(ev, l1);
    if l2.len() == 0 {
        assert(l1 + l2 =~= l1);
        assert(first.1 + Seq::<(Option<Seq<char>>, Seq<char>)>::empty() =~= first.1);
    } else {
        assert((l1 + l2).drop_last() =~= l1 + l2.drop_last());
        assert((l1 + l2).last() == l2.last());
        lemma_sse_fold_append(ev, l1, l2.drop_last());
        let prev = sse_fold(first.0, l2.drop_last());
        let step = sse_step(prev.0, l2.last());
        if step.1 is Some {
            assert((first.1 + prev.1).push(step.1->0) =~= first.1 + prev.1.push(step.1->0));
        }
    }
}

/// Stream fidelity for event streams: however the same body is cut into
/// chunks, the data payloads handed to an adapter, with their event names,
/// are the same, and so are the unfinished line and the pending name.
pub proof fn lemma_sse_split_invariant(c1: Seq<Seq<u8>>, c2: Seq<Seq<u8>>)
    requires
        c1.flatten() == c2.flatten(),
    ensures
        sse_fold(None, scan_chunks(Seq::empty(), c1).0) == sse_fold(None, scan_chunks(Seq::empty(), c2).0),
        scan_chunks(Seq::empty(), c1).1 == scan_chunks(Seq::empty(), c2).1,
{
    lemma_split_invariant(c1, c2);
}

pub open spec fn data_views(ds: Seq<SseData>) -> Seq<(Option<Seq<char>>, Seq<char>)> {
    ds.map_values(|d: SseData| (opt_text(d.event), d.data@))
}

/// An event-stream body read chunk by chunk: its data payloads, in order.
pub struct EventStream {
    lines: LineReader,
    reader: SseReader,
}

impl EventStream {
    /// The unfinished line.
    pub closed spec fn pending(&self) -> Seq<u8> {
        self.lines@
    }

    /// The event name waiting for the next payload.
    pub closed spec fn event(&self) -> Option<Seq<char>> {
        opt_text(self.reader.event)
    }

    pub fn new() -> (r: EventStream)
        ensures
            r.pending().len() == 0,
            r.event() is None,
    {
        EventStream { lines: LineReader::new(), reader: SseReader::new() }
    }

    /// At the end of the body: the payload of a last line that had no newline.
    pub fn finish(&mut self) -> (r: Option<SseData>)
        ensures
            final(self).pending().len() == 0,
            old(self).pending().len() == 0 ==> r is None,
            old(self).pending().len() > 0 ==> match sse_step(old(self).event(), old(self).pending()).1 {
                Some(x) => r matches Some(d) && (opt_text(d.event), d.data@) == x,
                None => r is None,
            },
    {
        match self.lines.finish() {
            Some(line) => self.reader.on_line(line.as_slice()),
            None => None,
        }
    }

    /// The payloads of the lines that one chunk completes.
    pub fn feed(&mut self, chunk: &[u8]) -> (r: Vec<SseData>)
        ensures
            final(self).pending() == scan(old(self).pending(), chunk@).1,
            data_views(r@) == sse_fold(old(self).event(), scan(old(self).pending(), chunk@).0).1,
            final(self).event() == sse_fold(old(self).event(), scan(old(self).pending(), chunk@).0).0,
    {
        let ghost ev0 = self.event();
        let ghost pend0 = self.pending();
        let lines = self.lines.feed(chunk);
        let ghost ls = views_of(lines@);
        let mut out: Vec<SseData> = Vec::new();
        let mut i: usize = 0;
        assert(ls.subrange(0, 0) =~= Seq::<Seq<u8>>::empty());
        assert(data_views(out@) =~= Seq::<(Option<Seq<char>>, Seq<char>)>::empty());
        while i < lines.len()
            invariant
                i <= lines@.len(),
                ls == views_of(lines@),
                ls == scan(pend0, chunk@).0,
                self.lines@ == scan(pend0, chunk@).1,
                data_views(out@) == sse_fold(ev0, ls.subrange(0, i as int)).1,
                opt_text(self.reader.event) == sse_fold(ev0, ls.subrange(0, i as int)).0,
            decreases lines@.len() - i,
        {
            let ghost before = out@;
            let ghost sub = ls.subrange(0, i + 1);
            assert(sub.drop_last() =~= ls.subrange(0, i as int));
            assert(sub.last() == lines@[i as int]@);
            match self.reader.on_line(lines[i].as_slice()) {
                Some(d) => {
                    out.push(d);
                    assert(data_views(out@) =~= data_views(before).push((opt_text(out@.last().event), out@.last().data@)));
                },
                None => {},
            }
            i = i + 1;
        }
        assert(ls.subrange(0, lines@.len() as int) =~= ls);
        out
    }
}

} // verus!
