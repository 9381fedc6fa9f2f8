use vstd::prelude::*;
use crate::events::{ProviderEvent, Usage, CallView, is_call, is_content, tool_call_record};
use crate::json::{Json, field, field2, text_of, i32_of, items_of, get_text, parse_json, parsed, render_json, rendered};
use crate::text::copy_text;
use crate::lines::{EventStream, data_views, scan, scan_chunks, sse_fold};

verus! {

/// The function call a part carries: its name and its arguments (null where absent).
pub open spec fn part_call(p: Json) -> Option<(Seq<char>, Json)> {
    match field(p, "functionCall"@) {
        Some(fc) => match text_of(field(fc, "name"@)) {
            Some(n) => Some((n, match field(fc, "args"@) { Some(a) => a, None => Json::Null })),
            None => None,
        },
        None => None,
    }
}

/// Whether a part yields an event: text, or else a function call.
pub open spec fn part_yields(p: Json) -> bool {
    text_of(field(p, "text"@)) is Some || part_call(p) is Some
}

/// The event of a part: its text, or a call whose id is its name and whose
/// arguments are the JSON text of its arguments.
pub open spec fn part_event(p: Json, e: ProviderEvent) -> bool {
    match text_of(field(p, "text"@)) {
        Some(t) => is_content(e, t),
        None => match part_call(p) {
            Some((n, a)) => is_call(e, CallView { id: n, kind: "function"@, name: n, arguments: rendered(a) }),
            None => false,
        },
    }
}

/// The events of the parts, in order; parts of other kinds yield none.
pub open spec fn parts_events(parts: Seq<Json>, out: Seq<ProviderEvent>) -> bool
    decreases parts.len(),
{
    if parts.len() == 0 {
        out.len() == 0
    } else if part_yields(parts.last()) {
        out.len() > 0 && part_event(parts.last(), out.last()) && parts_events(parts.drop_last(), out.drop_last())
    } else {
        parts_events(parts.drop_last(), out)
    }
}

/// The parts of the first candidate of a payload.
pub open spec fn first_parts(v: Json) -> Seq<Json> {
    match items_of(field(v, "candidates"@)) {
        Some(cs) => if cs.len() > 0 {
            match items_of(field2(cs[0], "content"@, "parts"@)) {
                Some(ps) => ps,
                None => Seq::empty(),
            }
        } else {
            Seq::empty()
        },
        None => Seq::empty(),
    }
}

pub open spec fn usage_of(v: Json) -> Option<Usage> {
    match field(v, "usageMetadata"@) {
        Some(Json::Object(_)) => Some(Usage {
            prompt_tokens: i32_of(field2(v, "usageMetadata"@, "promptTokenCount"@)),
            completion_tokens: i32_of(field2(v, "usageMetadata"@, "candidatesTokenCount"@)),
            total_tokens: i32_of(field2(v, "usageMetadata"@, "totalTokenCount"@)),
        }),
        _ => None,
    }
}

fn read_i32(v: &Json, key: &str) -> (r: Option<i32>)
    ensures
        r == i32_of(field(*v, key@)),
{
    match v.get(key) {
        Some(x) => x.as_i32(),
        None => None,
    }
}

fn part_to_event(p: &Json) -> (r: Option<ProviderEvent>)
    ensures
        r matches Some(e) ==> part_yields(*p) && part_event(*p, e),
        r is None ==> !part_yields(*p),
{
    match get_text(p, "text") {
        Some(t) => return Some(ProviderEvent::Content(copy_text(t.as_str()))),
        None => {},
    }
    match p.get("functionCall") {
        Some(fc) => match get_text(fc, "name") {
            Some(n) => {
                let args = match fc.get("args") {
                    Some(a) => render_json(a),
                    None => render_json(&Json::Null),
                };
                let rec = tool_call_record(copy_text(n.as_str()), copy_text("function"), copy_text(n.as_str()), args);
                Some(ProviderEvent::ToolCall(rec))
            },
            None => None,
        },
        None => None,
    }
}

/// One `data:` payload of a Google-style stream: the events of the first
/// candidate's parts, then usage where reported.
pub fn process_data_line(data: &str) -> (r: Vec<ProviderEvent>)
    ensures
        match parsed(data@) {
            Some(v) => match usage_of(v) {
                Some(u) => r@.len() > 0 && parts_events(first_parts(v), r@.drop_last())
                    && r@.last() == ProviderEvent::Usage(u),
                None => parts_events(first_parts(v), r@),
            },
            None => r@.len() == 0,
        },
{
    let mut out: Vec<ProviderEvent> = Vec::new();
    let v = match parse_json(data) {
        Some(v) => v,
        None => return out,
    };
    let empty: Vec<Json> = Vec::new();
    let parts: &Vec<Json> = match v.get("candidates") {
        Some(cs) => match cs.as_array() {
            Some(items) => if items.len() > 0 {
                match items[0].get("content") {
                    Some(c) => match c.get("parts") {
                        Some(ps) => match ps.as_array() {
                            Some(a) => a,
                            None => &empty,
                        },
                        None => &empty,
                    },
                    None => &empty,
                }
            } else {
                &empty
            },
            None => &empty,
        },
        None => &empty,
    };
    assert(parts@ == first_parts(v));
    let mut i: usize = 0;
    while i < parts.len()
        invariant
            i <= parts@.len(),
            parts_events(parts@.subrange(0, i as int), out@),
        decreases parts@.len() - i,
    {
        assert(parts@.subrange(0, i + 1).drop_last() =~= parts@.subrange(0, i as int));
        let ghost before = out@;
        match part_to_event(&parts[i]) {
            Some(e) => {
                out.push(e);
                assert(out@.drop_last() =~= before);
            },
            None => {},
        }
        i = i + 1;
    }
    assert(parts@.subrange(0, parts@.len() as int) =~= parts@);
    match v.get("usageMetadata") {
        Some(u) => match u {
            Json::Object(_) => {
                let ghost before = out@;
                out.push(ProviderEvent::Usage(Usage {
                    prompt_tokens: read_i32(u, "promptTokenCount"),
                    completion_tokens: read_i32(u, "candidatesTokenCount"),
                    total_tokens: read_i32(u, "totalTokenCount"),
                }));
                assert(out@.drop_last() =~= before);
            },
            _ => {},
        },
        None => {},
    }
    out
}

} // verus!

verus! {

/// The events of one payload.
pub open spec fn payload_events(data: Seq<char>, out: Seq<ProviderEvent>) -> bool {
    match parsed(data) {
        Some(v) => match usage_of(v) {
            Some(u) => out.len() > 0 && parts_events(first_parts(v), out.drop_last())
                && out.last() == ProviderEvent::Usage(u),
            None => parts_events(first_parts(v), out),
        },
        None => out.len() == 0,
    }
}

/// The events of a run of payloads, in order.
pub open spec fn run_events(ps: Seq<(Option<Seq<char>>, Seq<char>)>, out: Seq<ProviderEvent>) -> bool
    decreases ps.len(),
{
    if ps.len() == 0 {
        out.len() == 0
    } else {
        exists|k: int| 0 <= k <= out.len() && run_events(ps.drop_last(), out.subrange(0, k))
            && payload_events(ps.last().1, #[trigger] out.subrange(k, out.len() as int))
    }
}

/// The events of two runs, one after the other, are the events of the joined run.
pub proof fn lemma_run_events_concat(p1: Seq<(Option<Seq<char>>, Seq<char>)>, o1: Seq<ProviderEvent>,
    p2: Seq<(Option<Seq<char>>, Seq<char>)>, o2: Seq<ProviderEvent>)
    requires
        run_events(p1, o1),
        run_events(p2, o2),
    ensures
        run_events(p1 + p2, o1 + o2),
    decreases p2.len(),
{
    if p2.len() == 0 {
        assert(p1 + p2 =~= p1);
        assert(o1 + o2 =~= o1);
    } else {
        let k = choose|k: int| 0 <= k <= o2.len() && run_events(p2.drop_last(), o2.subrange(0, k))
            && payload_events(p2.last().1, #[trigger] o2.subrange(k, o2.len() as int));
        lemma_run_events_concat(p1, o1, p2.drop_last(), o2.subrange(0, k));
        let all = o1 + o2;
        let k2 = o1.len() + k;
        assert((p1 + p2).drop_last() =~= p1 + p2.drop_last());
        assert((p1 + p2).last() == p2.last());
        assert(all.subrange(0, k2) =~= o1 + o2.subrange(0, k));
        assert(all.subrange(k2, all.len() as int) =~= o2.subrange(k, o2.len() as int));
    }
}

/// Stream fidelity: however the body is cut into chunks, the events are
/// those of the same run of payloads.
pub proof fn lemma_google_split_invariant(c1: Seq<Seq<u8>>, c2: Seq<Seq<u8>>, out: Seq<ProviderEvent>)
    requires
        c1.flatten() == c2.flatten(),
    ensures
        run_events(sse_fold(None, scan_chunks(Seq::empty(), c1).0).1, out)
            == run_events(sse_fold(None, scan_chunks(Seq::empty(), c2).0).1, out),
{
    crate::lines::lemma_sse_split_invariant(c1, c2);
}

/// A Google-style reply body read chunk by chunk.
pub struct GoogleStream {
    pub body: EventStream,
}

impl GoogleStream {
    pub fn new() -> (r: GoogleStream)
        ensures
            r.body.pending().len() == 0,
            r.body.event() is None,
    {
        GoogleStream { body: EventStream::new() }
    }

    /// At the end of the body: the events of a last line without a newline.
    pub fn finish(&mut self) -> (r: Vec<ProviderEvent>)
        ensures
            final(self).body.pending().len() == 0,
            match crate::lines::sse_step(old(self).body.event(), old(self).body.pending()).1 {
                Some(x) => old(self).body.pending().len() > 0 ==> payload_events(x.1, r@),
                None => r@.len() == 0,
            },
            old(self).body.pending().len() == 0 ==> r@.len() == 0,
    {
        match self.body.finish() {
            Some(d) => process_data_line(d.data.as_str()),
            None => Vec::new(),
        }
    }

    /// The events of the payloads that one chunk completes.
    pub fn feed(&mut self, chunk: &[u8]) -> (r: Vec<ProviderEvent>)
        ensures
            final(self).body.pending() == scan(old(self).body.pending(), chunk@).1,
            final(self).body.event() == sse_fold(old(self).body.event(), scan(old(self).body.pending(), chunk@).0).0,
            run_events(sse_fold(old(self).body.event(), scan(old(self).body.pending(), chunk@).0).1, r@),
    {
        let ds = self.body.feed(chunk);
        let ghost ps = data_views(ds@);
        let mut out: Vec<ProviderEvent> = Vec::new();
        let mut i: usize = 0;
        while i < ds.len()
            invariant
                i <= ds@.len(),
                ps == data_views(ds@),
                run_events(ps.subrange(0, i as int), out@),
            decreases ds@.len() - i,
        {
            let ghost before = out@;
            let mut evs = process_data_line(ds[i].data.as_str());
            let ghost ev = evs@;
            out.append(&mut evs);
            proof {
                let sub = ps.subrange(0, i + 1);
                assert(sub.drop_last() =~= ps.subrange(0, i as int));
                assert(sub.last().1 == ds@[i as int].data@);
                assert(out@.subrange(0, before.len() as int) =~= before);
                assert(out@.subrange(before.len() as int, out@.len() as int) =~= ev);
            }
            i = i + 1;
        }
        assert(ps.subrange(0, ds@.len() as int) =~= ps);
        out
    }
}

} // verus!
