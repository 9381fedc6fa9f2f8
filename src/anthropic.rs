use vstd::prelude::*;
use crate::events::{ProviderEvent, Usage, is_content, tool_call_record, CallView};
use crate::json::{Json, field, field2, text_of, i32_of, get_text, parse_json, parsed};
use crate::text::{copy_text, same_text};
use crate::lines::{EventStream, data_views, scan, scan_chunks, sse_fold};

verus! {

/// `a + b`, held within the range of `i32`.
pub open spec fn clamp_add(a: i32, b: i32) -> i32 {
    let s = a + b;
    if s > i32::MAX { i32::MAX } else if s < i32::MIN { i32::MIN } else { s as i32 }
}

pub fn saturating_add(a: i32, b: i32) -> (r: i32)
    ensures
        r == clamp_add(a, b),
{
    let s: i64 = a as i64 + b as i64;
    if s > i32::MAX as i64 {
        i32::MAX
    } else if s < i32::MIN as i64 {
        i32::MIN
    } else {
        s as i32
    }
}

/// The state of one Anthropic-style reply stream: the tool-use block that is
/// open, if any, and the token counts so far.
pub struct AnthropicStream {
    pub tool_id: Option<String>,
    pub tool_name: Option<String>,
    pub tool_args: String,
    pub input_tokens: i32,
    pub output_tokens: i32,
}

pub struct AnthropicView {
    pub tool_id: Option<Seq<char>>,
    pub tool_name: Option<Seq<char>>,
    pub tool_args: Seq<char>,
    pub input_tokens: i32,
    pub output_tokens: i32,
}

pub open spec fn opt_text_view(o: Option<String>) -> Option<Seq<char>> {
    match o {
        Some(s) => Some(s@),
        None => None,
    }
}

impl View for AnthropicStream {
    type V = AnthropicView;

    open spec fn view(&self) -> AnthropicView {
        AnthropicView {
            tool_id: opt_text_view(self.tool_id),
            tool_name: opt_text_view(self.tool_name),
            tool_args: self.tool_args@,
            input_tokens: self.input_tokens,
            output_tokens: self.output_tokens,
        }
    }
}

pub open spec fn or_empty(o: Option<Seq<char>>) -> Seq<char> {
    match o {
        Some(s) => s,
        None => Seq::empty(),
    }
}

pub open spec fn count_or_zero(o: Option<i32>) -> i32 {
    match o {
        Some(n) => n,
        None => 0,
    }
}

/// What one event of the stream does, given its parsed payload `v` of type
/// `kind`: the state after it, and whether the events yielded are as stated.
pub open spec fn anthropic_step(s: AnthropicView, v: Json, kind: Seq<char>, out: Seq<ProviderEvent>,
    after: AnthropicView) -> bool {
    if kind == "message_start"@ {
        out.len() == 0 && after == AnthropicView {
            input_tokens: clamp_add(s.input_tokens, count_or_zero(i32_of(field2(v, "usage"@, "input_tokens"@)))),
            ..s
        }
    } else if kind == "content_block_start"@ {
        out.len() == 0 && if text_of(field2(v, "content_block"@, "type"@)) == Some("tool_use"@) {
            after == AnthropicView {
                tool_id: text_of(field2(v, "content_block"@, "id"@)),
                tool_name: text_of(field2(v, "content_block"@, "name"@)),
                tool_args: Seq::empty(),
                ..s
            }
        } else {
            after == s
        }
    } else if kind == "content_block_delta"@ {
        let text = text_of(field2(v, "delta"@, "text"@));
        let part = text_of(field2(v, "delta"@, "partial_json"@));
        &&& after == AnthropicView { tool_args: s.tool_args + or_empty(part), ..s }
        &&& match text {
            Some(t) => out.len() == 1 && is_content(out[0], t),
            None => out.len() == 0,
        }
    } else if kind == "content_block_stop"@ {
        match s.tool_id {
            Some(id) => out.len() == 1 && crate::events::is_call(out[0], CallView {
                    id, kind: "function"@, name: or_empty(s.tool_name), arguments: s.tool_args })
                && after == AnthropicView { tool_id: None, tool_name: None, tool_args: Seq::empty(), ..s },
            None => out.len() == 0 && after == s,
        }
    } else if kind == "message_delta"@ {
        out.len() == 0 && after == AnthropicView {
            output_tokens: clamp_add(s.output_tokens, count_or_zero(i32_of(field2(v, "usage"@, "output_tokens"@)))),
            ..s
        }
    } else if kind == "message_stop"@ {
        out.len() == 1 && after == s && (out[0] matches ProviderEvent::Usage(u)
            && u.prompt_tokens == Some(s.input_tokens) && u.completion_tokens == Some(s.output_tokens)
            && u.total_tokens == Some(clamp_add(s.input_tokens, s.output_tokens)))
    } else {
        out.len() == 0 && after == s
    }
}

fn read_count(v: &Json, outer: &str, key: &str) -> (r: i32)
    ensures
        r == count_or_zero(i32_of(field2(*v, outer@, key@))),
{
    match v.get(outer) {
        Some(u) => match u.get(key) {
            Some(n) => match n.as_i32() {
                Some(x) => x,
                None => 0,
            },
            None => 0,
        },
        None => 0,
    }
}

fn text_at(v: &Json, outer: &str, key: &str) -> (r: Option<String>)
    ensures
        opt_text_view(r) == text_of(field2(*v, outer@, key@)),
{
    match v.get(outer) {
        Some(u) => match get_text(u, key) {
            Some(t) => Some(copy_text(t.as_str())),
            None => None,
        },
        None => None,
    }
}

impl AnthropicStream {
    pub fn new() -> (r: AnthropicStream)
        ensures
            r@ == (AnthropicView { tool_id: None, tool_name: None, tool_args: Seq::empty(), input_tokens: 0, output_tokens: 0 }),
    {
        AnthropicStream { tool_id: None, tool_name: None, tool_args: String::new(), input_tokens: 0, output_tokens: 0 }
    }

    /// One `data:` payload of the stream, dispatched on its `type`.
    pub fn process_data_line(&mut self, data: &str) -> (r: Vec<ProviderEvent>)
        ensures
            match parsed(data@) {
                Some(v) => match text_of(field(v, "type"@)) {
                    Some(kind) => anthropic_step(old(self)@, v, kind, r@, final(self)@),
                    None => r@.len() == 0 && final(self)@ == old(self)@,
                },
                None => r@.len() == 0 && final(self)@ == old(self)@,
            },
    {
        let mut out: Vec<ProviderEvent> = Vec::new();
        let v = match parse_json(data) {
            Some(v) => v,
            None => return out,
        };
        let kind = match get_text(&v, "type") {
            Some(k) => k,
            None => return out,
        };
        if same_text(kind.as_str(), "message_start") {
            let n = read_count(&v, "usage", "input_tokens");
            self.input_tokens = saturating_add(self.input_tokens, n);
        } else if same_text(kind.as_str(), "content_block_start") {
            let is_tool = match text_at(&v, "content_block", "type") {
                Some(t) => same_text(t.as_str(), "tool_use"),
                None => false,
            };
            if is_tool {
                self.tool_id = text_at(&v, "content_block", "id");
                self.tool_name = text_at(&v, "content_block", "name");
                self.tool_args = String::new();
            }
        } else if same_text(kind.as_str(), "content_block_delta") {
            match text_at(&v, "delta", "text") {
                Some(t) => out.push(ProviderEvent::Content(t)),
                None => {},
            }
            match text_at(&v, "delta", "partial_json") {
                Some(p) => self.tool_args.append(p.as_str()),
                None => {},
            }
        } else if same_text(kind.as_str(), "content_block_stop") {
            if self.tool_id.is_some() {
                let mut id: Option<String> = None;
                core::mem::swap(&mut id, &mut self.tool_id);
                let mut name: Option<String> = None;
                core::mem::swap(&mut name, &mut self.tool_name);
                let mut args = String::new();
                core::mem::swap(&mut args, &mut self.tool_args);
                let id = match id { Some(i) => i, None => String::new() };
                let name = match name { Some(n) => n, None => String::new() };
                out.push(ProviderEvent::ToolCall(tool_call_record(id, copy_text("function"), name, args)));
            }
        } else if same_text(kind.as_str(), "message_delta") {
            let n = read_count(&v, "usage", "output_tokens");
            self.output_tokens = saturating_add(self.output_tokens, n);
        } else if same_text(kind.as_str(), "message_stop") {
            out.push(ProviderEvent::Usage(Usage {
                prompt_tokens: Some(self.input_tokens),
                completion_tokens: Some(self.output_tokens),
                total_tokens: Some(saturating_add(self.input_tokens, self.output_tokens)),
            }));
        }
        out
    }
}

} // verus!

verus! {

/// What one payload does: from state `s`, the events `out`, leaving state `after`.
pub open spec fn payload_step(s: AnthropicView, data: Seq<char>, out: Seq<ProviderEvent>, after: AnthropicView) -> bool {
    match parsed(data) {
        Some(v) => match text_of(field(v, "type"@)) {
            Some(kind) => anthropic_step(s, v, kind, out, after),
            None => out.len() == 0 && after == s,
        },
        None => out.len() == 0 && after == s,
    }
}

/// A run of payloads read from state `s`: the events, and the state after.
pub open spec fn run_events(s: AnthropicView, ps: Seq<(Option<Seq<char>>, Seq<char>)>, out: Seq<ProviderEvent>,
    after: AnthropicView) -> bool
    decreases ps.len(),
{
    if ps.len() == 0 {
        out.len() == 0 && after == s
    } else {
        exists|k: int, mid: AnthropicView| 0 <= k <= out.len() && run_events(s, ps.drop_last(), out.subrange(0, k), mid)
            && #[trigger] payload_step(mid, ps.last().1, out.subrange(k, out.len() as int), after)
    }
}

pub proof fn lemma_run_events_concat(s: AnthropicView, p1: Seq<(Option<Seq<char>>, Seq<char>)>, o1: Seq<ProviderEvent>,
    m: AnthropicView, p2: Seq<(Option<Seq<char>>, Seq<char>)>, o2: Seq<ProviderEvent>, e: AnthropicView)
    requires
        run_events(s, p1, o1, m),
        run_events(m, p2, o2, e),
    ensures
        run_events(s, p1 + p2, o1 + o2, e),
    decreases p2.len(),
{
    if p2.len() == 0 {
        assert(p1 + p2 =~= p1);
        assert(o1 + o2 =~= o1);
    } else {
        let (k, mid) = choose|k: int, mid: AnthropicView| 0 <= k <= o2.len()
            && run_events(m, p2.drop_last(), o2.subrange(0, k), mid)
            && #[trigger] payload_step(mid, p2.last().1, o2.subrange(k, o2.len() as int), e);
        lemma_run_events_concat(s, p1, o1, m, p2.drop_last(), o2.subrange(0, k), mid);
        let all = o1 + o2;
        let k2 = o1.len() + k;
        assert((p1 + p2).drop_last() =~= p1 + p2.drop_last());
        assert((p1 + p2).last() == p2.last());
        assert(all.subrange(0, k2) =~= o1 + o2.subrange(0, k));
        assert(all.subrange(k2, all.len() as int) =~= o2.subrange(k, o2.len() as int));
        assert(payload_step(mid, (p1 + p2).last().1, all.subrange(k2, all.len() as int), e));
    }
}

/// Stream fidelity: however the body is cut into chunks, the events and the
/// final state are those of the same run of payloads.
pub proof fn lemma_anthropic_split_invariant(c1: Seq<Seq<u8>>, c2: Seq<Seq<u8>>, s: AnthropicView,
    out: Seq<ProviderEvent>, after: AnthropicView)
    requires
        c1.flatten() == c2.flatten(),
    ensures
        run_events(s, sse_fold(None, scan_chunks(Seq::empty(), c1).0).1, out, after)
            == run_events(s, sse_fold(None, scan_chunks(Seq::empty(), c2).0).1, out, after),
{
    crate::lines::lemma_sse_split_invariant(c1, c2);
}

/// An Anthropic-style reply body read chunk by chunk.
pub struct AnthropicBody {
    pub body: EventStream,
    pub state: AnthropicStream,
}

impl AnthropicBody {
    pub fn new() -> (r: AnthropicBody)
        ensures
            r.body.pending().len() == 0,
            r.body.event() is None,
            r.state@ == (AnthropicView { tool_id: None, tool_name: None, tool_args: Seq::empty(), input_tokens: 0, output_tokens: 0 }),
    {
        AnthropicBody { body: EventStream::new(), state: AnthropicStream::new() }
    }

    /// At the end of the body: the events of a last line without a newline.
    pub fn finish(&mut self) -> (r: Vec<ProviderEvent>)
        ensures
            final(self).body.pending().len() == 0,
            old(self).body.pending().len() == 0 ==> r@.len() == 0 && final(self).state@ == old(self).state@,
            old(self).body.pending().len() > 0 ==> match crate::lines::sse_step(old(self).body.event(), old(self).body.pending()).1 {
                Some(x) => payload_step(old(self).state@, x.1, r@, final(self).state@),
                None => r@.len() == 0 && final(self).state@ == old(self).state@,
            },
    {
        match self.body.finish() {
            Some(d) => self.state.process_data_line(d.data.as_str()),
            None => Vec::new(),
        }
    }

    /// The events of the payloads that one chunk completes.
    pub fn feed(&mut self, chunk: &[u8]) -> (r: Vec<ProviderEvent>)
        ensures
            final(self).body.pending() == scan(old(self).body.pending(), chunk@).1,
            final(self).body.event() == sse_fold(old(self).body.event(), scan(old(self).body.pending(), chunk@).0).0,
            run_events(old(self).state@, sse_fold(old(self).body.event(), scan(old(self).body.pending(), chunk@).0).1,
                r@, final(self).state@),
    {
        let ghost s0 = self.state@;
        let ds = self.body.feed(chunk);
        let ghost ps = data_views(ds@);
        let ghost body_after = self.body;
        let mut out: Vec<ProviderEvent> = Vec::new();
        let mut i: usize = 0;
        while i < ds.len()
            invariant
                i <= ds@.len(),
                ps == data_views(ds@),
                self.body == body_after,
                run_events(s0, ps.subrange(0, i as int), out@, self.state@),
            decreases ds@.len() - i,
        {
            let ghost before = out@;
            let ghost mid = self.state@;
            let mut evs = self.state.process_data_line(ds[i].data.as_str());
            let ghost ev = evs@;
            out.append(&mut evs);
            proof {
                let sub = ps.subrange(0, i + 1);
                assert(sub.drop_last() =~= ps.subrange(0, i as int));
                assert(sub.last().1 == ds@[i as int].data@);
                assert(out@.subrange(0, before.len() as int) =~= before);
                assert(out@.subrange(before.len() as int, out@.len() as int) =~= ev);
                assert(payload_step(mid, sub.last().1, out@.subrange(before.len() as int, out@.len() as int), self.state@));
            }
            i = i + 1;
        }
        assert(ps.subrange(0, ds@.len() as int) =~= ps);
        out
    }
}

} // verus!
