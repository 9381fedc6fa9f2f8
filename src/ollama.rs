use vstd::prelude::*;
use crate::anthropic::clamp_add;
use crate::events::{ProviderEvent, Usage, is_content};
use crate::json::{Json, field, field2, text_of, i32_of, items_of, bool_of, get_text, parse_json, parsed, take_field, take_items};
use crate::lines::{LineReader, lossy, decode_lossy, trimmed, trim_bounds, scan};
use crate::text::{chars_of, copy_text, join};

verus! {

pub open spec fn count_or_zero(o: Option<i32>) -> i32 {
    match o {
        Some(n) => n,
        None => 0,
    }
}

/// The events of one NDJSON record `v`: its non-empty message text; each of
/// its tool calls as it stands; and, once `done`, the usage with the sum of
/// both counts. A record without a `done` flag yields nothing.
pub open spec fn record_events(v: Json, out: Seq<ProviderEvent>) -> bool {
    match bool_of(field(v, "done"@)) {
        None => out.len() == 0,
        Some(done) => {
            let t = text_of(field2(v, "message"@, "content"@));
            let c: int = match t { Some(s) => if s.len() > 0 { 1 } else { 0 }, None => 0 };
            let calls = match items_of(field2(v, "message"@, "tool_calls"@)) { Some(a) => a, None => Seq::empty() };
            let u: int = if done { 1 } else { 0 };
            &&& out.len() == c + calls.len() + u
            &&& (c == 1 ==> is_content(out[0], t->0))
            &&& forall|i: int| 0 <= i < calls.len() ==> out[c + i] == ProviderEvent::ToolCall(#[trigger] calls[i])
            &&& (done ==> out.last() == ProviderEvent::Usage(Usage {
                prompt_tokens: i32_of(field(v, "prompt_eval_count"@)),
                completion_tokens: i32_of(field(v, "eval_count"@)),
                total_tokens: Some(clamp_add(count_or_zero(i32_of(field(v, "prompt_eval_count"@))),
                    count_or_zero(i32_of(field(v, "eval_count"@))))),
            }))
        },
    }
}

/// The events of one line of text: none for a blank line or one that is not JSON.
pub open spec fn line_events(text: Seq<char>, out: Seq<ProviderEvent>) -> bool {
    if trimmed(text).len() == 0 {
        out.len() == 0
    } else {
        match parsed(text) {
            Some(v) => record_events(v, out),
            None => out.len() == 0,
        }
    }
}

/// The events of a run of lines, in order.
pub open spec fn lines_events(lines: Seq<Seq<u8>>, out: Seq<ProviderEvent>) -> bool
    decreases lines.len(),
{
    if lines.len() == 0 {
        out.len() == 0
    } else {
        exists|k: int| 0 <= k <= out.len() && lines_events(lines.drop_last(), out.subrange(0, k))
            && line_events(lossy(lines.last()), #[trigger] out.subrange(k, out.len() as int))
    }
}

fn read_i32(v: &Json, key: &str) -> (r: Option<i32>)
    ensures
        r == i32_of(field(*v, key@)),
{
    match v.get(key) {
        Some(x) => x.as_i32(),
        None => None,
    }
}

fn or_zero(o: Option<i32>) -> (r: i32)
    ensures
        r == count_or_zero(o),
{
    match o {
        Some(n) => n,
        None => 0,
    }
}

/// The events of one parsed record.
pub fn record_to_events(v: Json) -> (r: Vec<ProviderEvent>)
    ensures
        record_events(v, r@),
{
    let mut out: Vec<ProviderEvent> = Vec::new();
    let done = match v.get("done") {
        Some(d) => match d.as_bool() {
            Some(b) => b,
            None => return out,
        },
        None => return out,
    };
    let prompt = read_i32(&v, "prompt_eval_count");
    let eval = read_i32(&v, "eval_count");
    let ghost gv = v;
    let mut v = v;
    let msg = take_field(&mut v, "message");
    let (text, calls) = match msg {
        Some(mut m) => {
            let t = match get_text(&m, "content") {
                Some(s) => Some(copy_text(s.as_str())),
                None => None,
            };
            let calls = match take_field(&mut m, "tool_calls") {
                Some(c) => match take_items(c) {
                    Some(a) => a,
                    None => Vec::new(),
                },
                None => Vec::new(),
            };
            (t, calls)
        },
        None => (None, Vec::new()),
    };
    let ghost tv = text_of(field2(gv, "message"@, "content"@));
    assert(match text { Some(s) => tv == Some(s@), None => tv is None });
    let ghost cs = calls@;
    match text {
        Some(t) => {
            if !t.as_str().is_empty() {
                out.push(ProviderEvent::Content(t));
            }
        },
        None => {},
    }
    let c = out.len();
    let mut calls = calls;
    let mut k: usize = 0;
    let n = calls.len();
    while k < n
        invariant
            n == cs.len(),
            calls@.len() == n - k,
            forall|i: int| 0 <= i < calls@.len() ==> calls@[i] == cs[k + i],
            out@.len() == c + k,
            c <= 1,
            c == 1 ==> is_content(out@[0], tv->0),
            forall|i: int| 0 <= i < k ==> out@[c + i] == ProviderEvent::ToolCall(#[trigger] cs[i]),
        decreases n - k,
    {
        let ghost prev = calls@;
        let x = calls.remove(0);
        out.push(ProviderEvent::ToolCall(x));
        assert forall|i: int| 0 <= i < calls@.len() implies calls@[i] == cs[k + 1 + i] by {
            assert(calls@[i] == prev[i + 1]);
        }
        k = k + 1;
    }
    if done {
        out.push(ProviderEvent::Usage(Usage {
            prompt_tokens: prompt,
            completion_tokens: eval,
            total_tokens: Some(crate::anthropic::saturating_add(or_zero(prompt), or_zero(eval))),
        }));
    }
    out
}

/// The events of one line.
pub fn process_line(line: &str) -> (r: Vec<ProviderEvent>)
    ensures
        line_events(line@, r@),
{
    let cs = chars_of(line);
    let (lo, hi) = trim_bounds(cs.as_slice());
    if lo == hi {
        return Vec::new();
    }
    match parse_json(line) {
        Some(v) => record_to_events(v),
        None => Vec::new(),
    }
}

/// The state of one NDJSON reply stream.
pub struct OllamaStream {
    pub reader: LineReader,
}

impl OllamaStream {
    pub fn new() -> (r: OllamaStream)
        ensures
            r.reader@.len() == 0,
    {
        OllamaStream { reader: LineReader::new() }
    }

    /// The events of the lines that one chunk of the body completes.
    pub fn feed(&mut self, chunk: &[u8]) -> (r: Vec<ProviderEvent>)
        ensures
            final(self).reader@ == scan(old(self).reader@, chunk@).1,
            lines_events(scan(old(self).reader@, chunk@).0, r@),
    {
        let lines = self.reader.feed(chunk);
        let ghost ls = crate::lines::views_of(lines@);
        let mut out: Vec<ProviderEvent> = Vec::new();
        let mut i: usize = 0;
        while i < lines.len()
            invariant
                i <= lines@.len(),
                ls == crate::lines::views_of(lines@),
                lines_events(ls.subrange(0, i as int), out@),
            decreases lines@.len() - i,
        {
            let ghost before = out@;
            let text = decode_lossy(lines[i].as_slice());
            let evs = process_line(text.as_str());
            let ghost ev = evs@;
            let mut evs = evs;
            out.append(&mut evs);
            proof {
                let sub = ls.subrange(0, i + 1);
                assert(sub.drop_last() =~= ls.subrange(0, i as int));
                assert(sub.last() == lines@[i as int]@);
                assert(out@.subrange(0, before.len() as int) =~= before);
                let k = before.len() as int;
                assert(out@.subrange(k, out@.len() as int) =~= ev);
                assert(line_events(lossy(sub.last()), out@.subrange(k, out@.len() as int)));
            }
            i = i + 1;
        }
        assert(ls.subrange(0, lines@.len() as int) =~= ls);
        out
    }

    /// At the end of the body: the events of a last line that had no newline.
    pub fn finish(&mut self) -> (r: Vec<ProviderEvent>)
        ensures
            final(self).reader@.len() == 0,
            old(self).reader@.len() == 0 ==> r@.len() == 0,
            old(self).reader@.len() > 0 ==> line_events(lossy(old(self).reader@), r@),
    {
        match self.reader.finish() {
            Some(line) => {
                let text = decode_lossy(line.as_slice());
                process_line(text.as_str())
            },
            None => Vec::new(),
        }
    }
}

/// The text shown first when the model had to run without tools.
pub fn tools_unsupported_warning(model: &str) -> (r: String)
    ensures
        r@ == "**Note:** The model `"@ + model@ + "` does not support MCP tools. Continuing without tool access.\n\n"@,
{
    let mut r = join("**Note:** The model `", model);
    r.append("` does not support MCP tools. Continuing without tool access.\n\n");
    r
}

} // verus!

verus! {

/// The events of two runs of lines, one after the other, are the events of
/// the joined run.
pub proof fn lemma_lines_events_concat(l1: Seq<Seq<u8>>, o1: Seq<ProviderEvent>, l2: Seq<Seq<u8>>, o2: Seq<ProviderEvent>)
    requires
        lines_events(l1, o1),
        lines_events(l2, o2),
    ensures
        lines_events(l1 + l2, o1 + o2),
    decreases l2.len(),
{
    if l2.len() == 0 {
        assert(l1 + l2 =~= l1);
        assert(o2.len() == 0);
        assert(o1 + o2 =~= o1);
    } else {
        let k = choose|k: int| 0 <= k <= o2.len() && lines_events(l2.drop_last(), o2.subrange(0, k))
            && line_events(lossy(l2.last()), #[trigger] o2.subrange(k, o2.len() as int));
        lemma_lines_events_concat(l1, o1, l2.drop_last(), o2.subrange(0, k));
        let all = o1 + o2;
        let k2 = o1.len() + k;
        assert((l1 + l2).drop_last() =~= l1 + l2.drop_last());
        assert((l1 + l2).last() == l2.last());
        assert(all.subrange(0, k2) =~= o1 + o2.subrange(0, k));
        assert(all.subrange(k2, all.len() as int) =~= o2.subrange(k, o2.len() as int));
    }
}

/// Stream fidelity: however the same body is cut into chunks, the lines
/// whose events are yielded, and the unfinished last line, are the same;
/// so the events, and the text of their `Content` events, are too.
pub proof fn lemma_events_split_invariant(c1: Seq<Seq<u8>>, c2: Seq<Seq<u8>>, out: Seq<ProviderEvent>)
    requires
        c1.flatten() == c2.flatten(),
    ensures
        lines_events(crate::lines::scan_chunks(Seq::empty(), c1).0, out)
            == lines_events(crate::lines::scan_chunks(Seq::empty(), c2).0, out),
        crate::lines::scan_chunks(Seq::empty(), c1).1 == crate::lines::scan_chunks(Seq::empty(), c2).1,
{
    crate::lines::lemma_split_invariant(c1, c2);
}

} // verus!
