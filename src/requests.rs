use vstd::prelude::*;
use crate::json::{Json, field, field2, text_of, get_text, take_field, parse_json, parsed};
use crate::mcp::is_text;
use crate::message::{ChatMessage, ChatOptions};
use crate::text::{copy_text, join, same_text};

verus! {

pub open spec fn is_pair(p: (String, Json), key: Seq<char>, v: Json) -> bool {
    p.0@ == key && p.1 == v
}

pub open spec fn is_text_pair(p: (String, Json), key: Seq<char>, t: Seq<char>) -> bool {
    p.0@ == key && is_text(p.1, t)
}

fn pair(key: &str, v: Json) -> (r: (String, Json))
    ensures
        is_pair(r, key@, v),
{
    (copy_text(key), v)
}

fn text_pair(key: &str, t: &str) -> (r: (String, Json))
    ensures
        is_text_pair(r, key@, t@),
{
    (copy_text(key), Json::Str(copy_text(t)))
}

/// The images of a message, where it has at least one.
pub open spec fn images_of(m: ChatMessage) -> Option<Seq<String>> {
    match m.images {
        Some(v) => if v@.len() > 0 { Some(v@) } else { None },
        None => None,
    }
}

/// `{type: "text", text}`.
pub open spec fn text_part(j: Json, t: Seq<char>) -> bool {
    j matches Json::Object(p) && p@.len() == 2 && is_text_pair(p@[0], "type"@, "text"@)
        && is_text_pair(p@[1], "text"@, t)
}

fn make_text_part(t: &str) -> (r: Json)
    ensures
        text_part(r, t@),
{
    Json::Object(vec![text_pair("type", "text"), text_pair("text", t)])
}

/// `{type: "image_url", image_url: {url: "data:image/jpeg;base64,<data>"}}`.
pub open spec fn openai_image_part(j: Json, data: Seq<char>) -> bool {
    j matches Json::Object(p) && p@.len() == 2 && is_text_pair(p@[0], "type"@, "image_url"@)
        && p@[1].0@ == "image_url"@ && (p@[1].1 matches Json::Object(q) && q@.len() == 1
            && is_text_pair(q@[0], "url"@, "data:image/jpeg;base64,"@ + data))
}

/// The text of a message followed by its images, as parts.
pub open spec fn parts_with_images(j: Json, text: Seq<char>, images: Seq<String>) -> bool {
    j matches Json::Array(a) && a@.len() == images.len() + 1 && text_part(a@[0], text)
        && forall|i: int| 0 <= i < images.len() ==> openai_image_part(#[trigger] a@[i + 1], images[i]@)
}

fn openai_parts(text: &str, images: &Vec<String>) -> (r: Json)
    ensures
        parts_with_images(r, text@, images@),
{
    let mut a: Vec<Json> = Vec::new();
    a.push(make_text_part(text));
    let mut i: usize = 0;
    while i < images.len()
        invariant
            i <= images@.len(),
            a@.len() == i + 1,
            text_part(a@[0], text@),
            forall|k: int| 0 <= k < i ==> openai_image_part(#[trigger] a@[k + 1], images@[k]@),
        decreases images@.len() - i,
    {
        let url = join("data:image/jpeg;base64,", images[i].as_str());
        let inner = Json::Object(vec![(copy_text("url"), Json::Str(url))]);
        let part = Json::Object(vec![text_pair("type", "image_url"), pair("image_url", inner)]);
        a.push(part);
        i = i + 1;
    }
    Json::Array(a)
}

/// A message as the OpenAI-style API takes it: `{role, content, tool_calls?,
/// tool_call_id?}`; a tool message carries its text and the call id; other
/// messages carry their text, or their text and images as parts, and their
/// tool calls as they stand.
pub open spec fn openai_message(m: ChatMessage, j: Json) -> bool {
    j matches Json::Object(p) && p@.len() >= 2 && is_text_pair(p@[0], "role"@, m.role@) && p@[1].0@ == "content"@
        && if m.role@ == "tool"@ {
            is_text(p@[1].1, m.content@) && match m.tool_call_id {
                Some(id) => p@.len() == 3 && is_text_pair(p@[2], "tool_call_id"@, id@),
                None => p@.len() == 2,
            }
        } else {
            (match images_of(m) {
                Some(imgs) => parts_with_images(p@[1].1, m.content@, imgs),
                None => is_text(p@[1].1, m.content@),
            }) && match m.tool_calls {
                Some(calls) => p@.len() == 3 && is_pair(p@[2], "tool_calls"@, Json::Array(calls)),
                None => p@.len() == 2,
            }
        }
}

/// Converts one message for the OpenAI-style API.
pub fn openai_message_json(m: ChatMessage) -> (r: Json)
    ensures
        openai_message(m, r),
{
    let ghost gm = m;
    let ChatMessage { role, content, images, tool_calls, tool_call_id } = m;
    if same_text(role.as_str(), "tool") {
        let mut p: Vec<(String, Json)> = vec![text_pair("role", "tool"), pair("content", Json::Str(content))];
        match tool_call_id {
            Some(id) => p.push(pair("tool_call_id", Json::Str(id))),
            None => {},
        }
        return Json::Object(p);
    }
    let body = match &images {
        Some(imgs) => if imgs.len() > 0 {
            openai_parts(content.as_str(), imgs)
        } else {
            Json::Str(content)
        },
        None => Json::Str(content),
    };
    let mut p: Vec<(String, Json)> = vec![pair("role", Json::Str(role)), pair("content", body)];
    match tool_calls {
        Some(calls) => p.push(pair("tool_calls", Json::Array(calls))),
        None => {},
    }
    Json::Object(p)
}

} // verus!

verus! {

/// What the OpenAI-style request adds, ahead of the conversation, where tools are offered.
pub open spec fn openai_tool_prompt() -> Seq<char> {
    "You have access to tools. When you need to use a tool, you MUST use the proper function calling format. Do NOT use XML-style tags like <function=...>. Instead, respond with tool_calls in your response. The system will execute the tool and provide the result."@
}

/// The index of the first message that is not a system message.
pub open spec fn first_non_system(ms: Seq<ChatMessage>) -> int
    decreases ms.len(),
{
    if ms.len() == 0 {
        0
    } else if ms[0].role@ != "system"@ {
        0
    } else {
        1 + first_non_system(ms.drop_first())
    }
}

proof fn lemma_first_non_system(ms: Seq<ChatMessage>)
    ensures
        0 <= first_non_system(ms) <= ms.len(),
        forall|i: int| 0 <= i < first_non_system(ms) ==> ms[i].role@ == "system"@,
        first_non_system(ms) < ms.len() ==> ms[first_non_system(ms)].role@ != "system"@,
    decreases ms.len(),
{
    if ms.len() > 0 && ms[0].role@ == "system"@ {
        let rest = ms.drop_first();
        lemma_first_non_system(rest);
        assert forall|i: int| 0 <= i < first_non_system(ms) implies ms[i].role@ == "system"@ by {
            if i > 0 {
                assert(ms[i] == rest[i - 1]);
            }
        }
        if first_non_system(ms) < ms.len() {
            assert(ms[first_non_system(ms)] == rest[first_non_system(rest)]);
        }
    }
}

/// `{role: "system", content: t}`.
pub open spec fn system_message(j: Json, t: Seq<char>) -> bool {
    j matches Json::Object(p) && p@.len() == 2 && is_text_pair(p@[0], "role"@, "system"@)
        && is_text_pair(p@[1], "content"@, t)
}

/// The conversation for the OpenAI-style API; where tools are offered, the
/// tool prompt goes after the leading system messages.
pub fn openai_messages(ms: Vec<ChatMessage>, with_tools: bool) -> (r: Vec<Json>)
    ensures
        !with_tools ==> r@.len() == ms@.len()
            && forall|i: int| 0 <= i < ms@.len() ==> openai_message(ms@[i], #[trigger] r@[i]),
        with_tools ==> r@.len() == ms@.len() + 1 && ({
            let k = first_non_system(ms@);
            &&& system_message(r@[k], openai_tool_prompt())
            &&& forall|i: int| 0 <= i < k ==> openai_message(ms@[i], #[trigger] r@[i])
            &&& forall|i: int| k <= i < ms@.len() ==> openai_message(ms@[i], #[trigger] r@[i + 1])
        }),
{
    let ghost gs = ms@;
    proof { lemma_first_non_system(gs); }
    let mut ms = ms;
    let mut out: Vec<Json> = Vec::new();
    let n = ms.len();
    let mut first: usize = n;
    let mut k: usize = 0;
    while k < n
        invariant
            n == gs.len(),
            ms@.len() == n - k,
            forall|i: int| 0 <= i < ms@.len() ==> ms@[i] == gs[k + i],
            out@.len() == k,
            forall|i: int| 0 <= i < k ==> openai_message(gs[i], #[trigger] out@[i]),
            first == n || first < k,
            first == n ==> forall|i: int| 0 <= i < k ==> gs[i].role@ == "system"@,
            first < n ==> first as int == first_non_system(gs),
            0 <= first_non_system(gs) <= gs.len(),
            forall|i: int| 0 <= i < first_non_system(gs) ==> gs[i].role@ == "system"@,
            first_non_system(gs) < gs.len() ==> gs[first_non_system(gs)].role@ != "system"@,
        decreases n - k,
    {
        let ghost prev = ms@;
        let m = ms.remove(0);
        assert(m == gs[k as int]);
        if first == n && !same_text(m.role.as_str(), "system") {
            first = k;
        }
        out.push(openai_message_json(m));
        proof {
            assert forall|i: int| 0 <= i < ms@.len() implies ms@[i] == gs[k + 1 + i] by {
                assert(ms@[i] == prev[i + 1]);
            }
        }
        k = k + 1;
    }
    assert(first < n ==> first as int == first_non_system(gs));
    assert(first == n ==> n as int == first_non_system(gs));
    if with_tools {
        let prompt = Json::Object(vec![text_pair("role", "system"), text_pair("content",
            "You have access to tools. When you need to use a tool, you MUST use the proper function calling format. Do NOT use XML-style tags like <function=...>. Instead, respond with tool_calls in your response. The system will execute the tool and provide the result.")]);
        let ghost before = out@;
        out.insert(first, prompt);
        assert(forall|i: int| 0 <= i < first ==> out@[i] == before[i]);
        assert(forall|i: int| first <= i < n ==> out@[i + 1] == before[i]);
    }
    out
}

/// An expected member of an object: its key, and its text (for a string
/// member) or its value.
pub open spec fn member_ok(p: (String, Json), m: (Seq<char>, Option<Seq<char>>, Json)) -> bool {
    p.0@ == m.0 && match m.1 {
        Some(t) => is_text(p.1, t),
        None => p.1 == m.2,
    }
}

/// Whether an object's members are exactly the expected ones, in order.
pub open spec fn members(p: Seq<(String, Json)>, want: Seq<(Seq<char>, Option<Seq<char>>, Json)>) -> bool {
    p.len() == want.len() && forall|i: int| 0 <= i < p.len() ==> member_ok(p[i], want[i])
}

pub open spec fn text_m(key: Seq<char>, t: Seq<char>) -> (Seq<char>, Option<Seq<char>>, Json) {
    (key, Some(t), Json::Null)
}

pub open spec fn value_m(key: Seq<char>, v: Json) -> (Seq<char>, Option<Seq<char>>, Json) {
    (key, None, v)
}

/// A member that is there only where its value is.
pub open spec fn opt_m(key: Seq<char>, v: Option<Json>) -> Seq<(Seq<char>, Option<Seq<char>>, Json)> {
    match v {
        Some(x) => seq![value_m(key, x)],
        None => Seq::empty(),
    }
}

pub open spec fn decimal_of(v: Option<String>) -> Option<Json> {
    match v {
        Some(s) => Some(Json::Decimal(s)),
        None => None,
    }
}

pub open spec fn int_of(v: Option<i32>) -> Option<Json> {
    match v {
        Some(n) => Some(int_json(n)),
        None => None,
    }
}

pub open spec fn array_of(v: Option<Vec<Json>>) -> Option<Json> {
    match v {
        Some(a) => Some(Json::Array(a)),
        None => None,
    }
}

pub open spec fn string_of(v: Option<String>) -> Option<Json> {
    match v {
        Some(s) => Some(Json::Str(s)),
        None => None,
    }
}

fn push_value(p: &mut Vec<(String, Json)>, key: &str, v: Json)
    ensures
        forall|w: Seq<(Seq<char>, Option<Seq<char>>, Json)>| members(old(p)@, w) ==> #[trigger] members(final(p)@, w.push(value_m(key@, v))),
{
    let ghost v0 = v;
    p.push(pair(key, v));
    assert forall|w: Seq<(Seq<char>, Option<Seq<char>>, Json)>| members(old(p)@, w) implies #[trigger] members(p@, w.push(value_m(key@, v0))) by {
        assert forall|i: int| 0 <= i < p@.len() implies member_ok(p@[i], w.push(value_m(key@, v0))[i]) by {
            if i < old(p)@.len() {
                assert(p@[i] == old(p)@[i]);
            }
        }
    }
}

fn push_text(p: &mut Vec<(String, Json)>, key: &str, t: &str)
    ensures
        forall|w: Seq<(Seq<char>, Option<Seq<char>>, Json)>| members(old(p)@, w) ==> #[trigger] members(final(p)@, w.push(text_m(key@, t@))),
{
    p.push(text_pair(key, t));
    assert forall|w: Seq<(Seq<char>, Option<Seq<char>>, Json)>| members(old(p)@, w) implies #[trigger] members(p@, w.push(text_m(key@, t@))) by {
        assert forall|i: int| 0 <= i < p@.len() implies member_ok(p@[i], w.push(text_m(key@, t@))[i]) by {
            if i < old(p)@.len() {
                assert(p@[i] == old(p)@[i]);
            }
        }
    }
}

fn push_opt(p: &mut Vec<(String, Json)>, key: &str, v: Option<Json>)
    ensures
        forall|w: Seq<(Seq<char>, Option<Seq<char>>, Json)>| members(old(p)@, w) ==> #[trigger] members(final(p)@, w + opt_m(key@, v)),
{
    let ghost v0 = v;
    match v {
        Some(x) => {
            push_value(p, key, x);
            assert forall|w: Seq<(Seq<char>, Option<Seq<char>>, Json)>| members(old(p)@, w) implies #[trigger] members(p@, w + opt_m(key@, v0)) by {
                assert(w + opt_m(key@, v0) =~= w.push(value_m(key@, v0->0)));
                assert(members(p@, w.push(value_m(key@, v0->0))));
            }
        },
        None => {
            assert forall|w: Seq<(Seq<char>, Option<Seq<char>>, Json)>| members(old(p)@, w) implies #[trigger] members(p@, w + opt_m(key@, v0)) by {
                assert(w + opt_m(key@, v0) =~= w);
            }
        },
    }
}

fn decimal_json(v: Option<String>) -> (r: Option<Json>)
    ensures
        r == decimal_of(v),
{
    match v {
        Some(s) => Some(Json::Decimal(s)),
        None => None,
    }
}

fn int_json_opt(v: Option<i32>) -> (r: Option<Json>)
    ensures
        r == int_of(v),
{
    match v {
        Some(n) => Some(make_int(n)),
        None => None,
    }
}

fn array_json(v: Option<Vec<Json>>) -> (r: Option<Json>)
    ensures
        r == array_of(v),
{
    match v {
        Some(a) => Some(Json::Array(a)),
        None => None,
    }
}

/// A 32-bit integer as JSON.
pub open spec fn int_json(n: i32) -> Json {
    if n >= 0 { Json::UInt(n as u64) } else { Json::Int(n as i64) }
}

pub fn make_int(n: i32) -> (r: Json)
    ensures
        r == int_json(n),
{
    if n >= 0 { Json::UInt(n as u64) } else { Json::Int(n as i64) }
}

/// The sampling members of an OpenAI-style request.
pub open spec fn openai_option_members(o: Option<ChatOptions>) -> Seq<(Seq<char>, Option<Seq<char>>, Json)> {
    match o {
        Some(o) => opt_m("temperature"@, decimal_of(o.temperature)) + opt_m("max_tokens"@, int_of(o.max_tokens))
            + opt_m("top_p"@, decimal_of(o.top_p)),
        None => Seq::empty(),
    }
}

/// The members of an OpenAI-style chat request: model, messages, `stream:
/// true`, the tools where given, then the sampling options where set.
pub open spec fn openai_members(model: Seq<char>, messages: Vec<Json>, tools: Option<Vec<Json>>,
    options: Option<ChatOptions>) -> Seq<(Seq<char>, Option<Seq<char>>, Json)> {
    seq![text_m("model"@, model), value_m("messages"@, Json::Array(messages)), value_m("stream"@, Json::Bool(true))]
        + opt_m("tools"@, array_of(tools)) + openai_option_members(options)
}

/// The body of an OpenAI-style chat request.
pub fn openai_body(model: &str, messages: Vec<Json>, tools: Option<Vec<Json>>, options: Option<ChatOptions>) -> (r: Json)
    ensures
        r matches Json::Object(p) && members(p@, openai_members(model@, messages, tools, options)),
{
    let ghost w0 = seq![text_m("model"@, model@), value_m("messages"@, Json::Array(messages)), value_m("stream"@, Json::Bool(true))];
    let mut p: Vec<(String, Json)> = Vec::new();
    assert(members(p@, Seq::empty()));
    push_text(&mut p, "model", model);
    push_value(&mut p, "messages", Json::Array(messages));
    push_value(&mut p, "stream", Json::Bool(true));
    assert(Seq::empty().push(text_m("model"@, model@)).push(value_m("messages"@, Json::Array(messages)))
        .push(value_m("stream"@, Json::Bool(true))) =~= w0);
    push_opt(&mut p, "tools", array_json(tools));
    let ghost w1 = w0 + opt_m("tools"@, array_of(tools));
    match options {
        Some(o) => {
            let ghost go = o;
            push_opt(&mut p, "temperature", decimal_json(o.temperature));
            push_opt(&mut p, "max_tokens", int_json_opt(o.max_tokens));
            push_opt(&mut p, "top_p", decimal_json(o.top_p));
            assert(w1 + opt_m("temperature"@, decimal_of(go.temperature)) + opt_m("max_tokens"@, int_of(go.max_tokens))
                + opt_m("top_p"@, decimal_of(go.top_p)) =~= openai_members(model@, messages, tools, options));
        },
        None => {
            assert(w1 =~= openai_members(model@, messages, tools, options));
        },
    }
    Json::Object(p)
}

} // verus!

verus! {

/// A tool call record replayed to the Anthropic-style API:
/// `{type: "tool_use", id, name, input}`, with the input parsed from the
/// argument text (an empty object where it does not parse).
pub open spec fn tool_use_part(j: Json, c: Json) -> bool {
    j matches Json::Object(p) && p@.len() == 4
        && is_text_pair(p@[0], "type"@, "tool_use"@)
        && is_pair(p@[1], "id"@, match field(c, "id"@) { Some(x) => x, None => Json::Null })
        && is_pair(p@[2], "name"@, match field2(c, "function"@, "name"@) { Some(x) => x, None => Json::Null })
        && p@[3].0@ == "input"@
        && crate::orchestrator::arguments_of(
            crate::orchestrator::text_or(text_of(field2(c, "function"@, "arguments"@)), "{}"@), p@[3].1)
}

/// The parts for the calls that have a `function` member, in order.
pub open spec fn tool_use_parts(calls: Seq<Json>, parts: Seq<Json>) -> bool
    decreases calls.len(),
{
    if calls.len() == 0 {
        parts.len() == 0
    } else if field(calls.last(), "function"@) is Some {
        parts.len() > 0 && tool_use_part(parts.last(), calls.last())
            && tool_use_parts(calls.drop_last(), parts.drop_last())
    } else {
        tool_use_parts(calls.drop_last(), parts)
    }
}

fn arguments_value(c: &Json) -> (r: Json)
    ensures
        crate::orchestrator::arguments_of(
            crate::orchestrator::text_or(text_of(field2(*c, "function"@, "arguments"@)), "{}"@), r),
{
    let text = match c.get("function") {
        Some(f) => match get_text(f, "arguments") {
            Some(t) => copy_text(t.as_str()),
            None => copy_text("{}"),
        },
        None => copy_text("{}"),
    };
    match parse_json(text.as_str()) {
        Some(v) => v,
        None => Json::Object(Vec::new()),
    }
}

fn tool_use_json(c: Json) -> (r: Json)
    ensures
        tool_use_part(r, c),
{
    let ghost gc = c;
    let input = arguments_value(&c);
    let mut c = c;
    let id = match take_field(&mut c, "id") {
        Some(x) => x,
        None => Json::Null,
    };
    proof {
        reveal_strlit("id");
        reveal_strlit("function");
        assert("function"@[0] != "id"@[0]);
        assert(field(c, "function"@) == field(gc, "function"@));
    }
    let name = match take_field(&mut c, "function") {
        Some(mut f) => match take_field(&mut f, "name") {
            Some(x) => x,
            None => Json::Null,
        },
        None => Json::Null,
    };
    Json::Object(vec![text_pair("type", "tool_use"), pair("id", id), pair("name", name), pair("input", input)])
}

/// `{type: "image", source: {type: "base64", media_type: "image/jpeg", data}}`.
pub open spec fn anthropic_image_part(j: Json, data: Seq<char>) -> bool {
    j matches Json::Object(p) && p@.len() == 2 && is_text_pair(p@[0], "type"@, "image"@)
        && p@[1].0@ == "source"@ && (p@[1].1 matches Json::Object(q) && q@.len() == 3
            && is_text_pair(q@[0], "type"@, "base64"@) && is_text_pair(q@[1], "media_type"@, "image/jpeg"@)
            && is_text_pair(q@[2], "data"@, data))
}

pub open spec fn nonempty_calls(calls: Option<Vec<Json>>) -> Option<Seq<Json>> {
    match calls {
        Some(v) => if v@.len() > 0 { Some(v@) } else { None },
        None => None,
    }
}

pub open spec fn nonempty_images(images: Option<Vec<String>>) -> Option<Seq<String>> {
    match images {
        Some(v) => if v@.len() > 0 { Some(v@) } else { None },
        None => None,
    }
}

/// The content of a non-tool message for the Anthropic-style API: with tool
/// calls, its text (where not empty) and one part per call; else with
/// images, its text and image parts; else its text.
pub open spec fn anthropic_content(content: Seq<char>, images: Option<Vec<String>>, calls: Option<Vec<Json>>, j: Json) -> bool {
    match nonempty_calls(calls) {
        Some(cs) => j matches Json::Array(a) && ({
            let t: int = if content.len() > 0 { 1 } else { 0 };
            &&& a@.len() >= t
            &&& (t == 1 ==> text_part(a@[0], content))
            &&& tool_use_parts(cs, a@.subrange(t, a@.len() as int))
        }),
        None => match nonempty_images(images) {
            Some(imgs) => j matches Json::Array(a) && a@.len() == imgs.len() + 1 && text_part(a@[0], content)
                && forall|i: int| 0 <= i < imgs.len() ==> anthropic_image_part(#[trigger] a@[i + 1], imgs[i]@),
            None => is_text(j, content),
        },
    }
}

/// A non-system message for the Anthropic-style API. A tool message becomes
/// a user message holding one `tool_result`; an assistant message keeps its
/// role; every other role is sent as `user`.
pub open spec fn anthropic_message(m: ChatMessage, j: Json) -> bool {
    j matches Json::Object(p) && p@.len() == 2 && p@[1].0@ == "content"@
        && if m.role@ == "tool"@ {
            is_text_pair(p@[0], "role"@, "user"@) && (p@[1].1 matches Json::Array(a) && a@.len() == 1
                && (a@[0] matches Json::Object(q) && q@.len() == 3
                    && is_text_pair(q@[0], "type"@, "tool_result"@)
                    && is_pair(q@[1], "tool_use_id"@, match m.tool_call_id { Some(id) => Json::Str(id), None => Json::Null })
                    && is_text_pair(q@[2], "content"@, m.content@)))
        } else {
            is_text_pair(p@[0], "role"@, if m.role@ == "assistant"@ { "assistant"@ } else { "user"@ })
                && anthropic_content(m.content@, m.images, m.tool_calls, p@[1].1)
        }
}

fn anthropic_content_json(content: String, images: Option<Vec<String>>, calls: Option<Vec<Json>>) -> (r: Json)
    ensures
        anthropic_content(content@, images, calls, r),
{
    match calls {
        Some(cs) => if cs.len() > 0 {
            let ghost all = cs@;
            let mut a: Vec<Json> = Vec::new();
            if !content.as_str().is_empty() {
                a.push(make_text_part(content.as_str()));
            }
            let t = a.len();
            let mut cs = cs;
            let n = cs.len();
            let mut k: usize = 0;
            assert(all.subrange(0, 0) =~= Seq::<Json>::empty());
            assert(a@.subrange(t as int, a@.len() as int) =~= Seq::<Json>::empty());
            while k < n
                invariant
                    n == all.len(),
                    cs@.len() == n - k,
                    forall|i: int| 0 <= i < cs@.len() ==> cs@[i] == all[k + i],
                    a@.len() >= t,
                    t <= 1,
                    t == 1 ==> text_part(a@[0], content@),
                    tool_use_parts(all.subrange(0, k as int), a@.subrange(t as int, a@.len() as int)),
                decreases n - k,
            {
                let ghost prev = cs@;
                let ghost before = a@;
                let c = cs.remove(0);
                assert(c == all[k as int]);
                let ghost sub = all.subrange(0, k + 1);
                assert(sub.drop_last() =~= all.subrange(0, k as int));
                assert(sub.last() == c);
                if c.get("function").is_some() {
                    a.push(tool_use_json(c));
                    assert(a@.subrange(t as int, a@.len() as int).drop_last() =~= before.subrange(t as int, before.len() as int));
                    assert(a@[0] == before[0] || t == 0);
                } else {
                }
                proof {
                    assert forall|i: int| 0 <= i < cs@.len() implies cs@[i] == all[k + 1 + i] by {
                        assert(cs@[i] == prev[i + 1]);
                    }
                }
                k = k + 1;
            }
            assert(all.subrange(0, n as int) =~= all);
            return Json::Array(a);
        } else {
        },
        None => {},
    }
    match images {
        Some(imgs) => if imgs.len() > 0 {
            let mut a: Vec<Json> = Vec::new();
            a.push(make_text_part(content.as_str()));
            let mut i: usize = 0;
            while i < imgs.len()
                invariant
                    i <= imgs@.len(),
                    a@.len() == i + 1,
                    text_part(a@[0], content@),
                    forall|k: int| 0 <= k < i ==> anthropic_image_part(#[trigger] a@[k + 1], imgs@[k]@),
                decreases imgs@.len() - i,
            {
                let source = Json::Object(vec![text_pair("type", "base64"), text_pair("media_type", "image/jpeg"),
                    text_pair("data", imgs[i].as_str())]);
                a.push(Json::Object(vec![text_pair("type", "image"), pair("source", source)]));
                i = i + 1;
            }
            return Json::Array(a);
        } else {
        },
        None => {},
    }
    Json::Str(content)
}

/// The text of the last system message, if any.
pub open spec fn last_system(ms: Seq<ChatMessage>) -> Option<Seq<char>>
    decreases ms.len(),
{
    if ms.len() == 0 {
        None
    } else if ms.last().role@ == "system"@ {
        Some(ms.last().content@)
    } else {
        last_system(ms.drop_last())
    }
}

/// The messages for the Anthropic-style API, and the system prompt: the
/// text of the last system message; system messages are not sent as messages.
pub fn anthropic_messages(ms: Vec<ChatMessage>) -> (r: (Option<String>, Vec<Json>))
    ensures
        crate::openai::opt_view(r.0) == last_system(ms@),
        r.1@.len() == ms@.filter(|m: ChatMessage| m.role@ != "system"@).len(),
        forall|i: int| 0 <= i < r.1@.len() ==>
            anthropic_message(ms@.filter(|m: ChatMessage| m.role@ != "system"@)[i], #[trigger] r.1@[i]),
{
    let ghost gs = ms@;
    let mut ms = ms;
    let mut system: Option<String> = None;
    let mut out: Vec<Json> = Vec::new();
    let n = ms.len();
    let mut k: usize = 0;
    assert(gs.subrange(0, 0).filter(|m: ChatMessage| m.role@ != "system"@) =~= Seq::<ChatMessage>::empty());
    while k < n
        invariant
            n == gs.len(),
            ms@.len() == n - k,
            forall|i: int| 0 <= i < ms@.len() ==> ms@[i] == gs[k + i],
            out@.len() == gs.subrange(0, k as int).filter(|m: ChatMessage| m.role@ != "system"@).len(),
            crate::openai::opt_view(system) == last_system(gs.subrange(0, k as int)),
            forall|i: int| 0 <= i < out@.len() ==>
                anthropic_message(gs.subrange(0, k as int).filter(|m: ChatMessage| m.role@ != "system"@)[i], #[trigger] out@[i]),
        decreases n - k,
    {
        let ghost prev = ms@;
        let ghost before = out@;
        let m = ms.remove(0);
        assert(m == gs[k as int]);
        let ghost sub = gs.subrange(0, k + 1);
        assert(sub.drop_last() =~= gs.subrange(0, k as int));
        proof { reveal(Seq::filter); }
        let ChatMessage { role, content, images, tool_calls, tool_call_id } = m;
        if same_text(role.as_str(), "system") {
            system = Some(content);
        } else if same_text(role.as_str(), "tool") {
            let id = match tool_call_id {
                Some(i) => Json::Str(i),
                None => Json::Null,
            };
            let result = Json::Object(vec![text_pair("type", "tool_result"), pair("tool_use_id", id), pair("content", Json::Str(content))]);
            out.push(Json::Object(vec![text_pair("role", "user"), pair("content", Json::Array(vec![result]))]));
        } else {
            let r = if same_text(role.as_str(), "assistant") { "assistant" } else { "user" };
            let body = anthropic_content_json(content, images, tool_calls);
            out.push(Json::Object(vec![text_pair("role", r), pair("content", body)]));
        }
        proof {
            assert forall|i: int| 0 <= i < ms@.len() implies ms@[i] == gs[k + 1 + i] by {
                assert(ms@[i] == prev[i + 1]);
            }
        }
        k = k + 1;
    }
    assert(gs.subrange(0, n as int) =~= gs);
    (system, out)
}

} // verus!

verus! {

/// A tool descriptor `{type, function: {name, description, parameters}}` as
/// the Anthropic-style API takes it: `{name, description, input_schema}`;
/// an entry without `function` stays as it is.
pub open spec fn anthropic_tool(d: Json, j: Json) -> bool {
    match field(d, "function"@) {
        Some(f) => j matches Json::Object(p) && p@.len() == 3
            && is_pair(p@[0], "name"@, match field(f, "name"@) { Some(x) => x, None => Json::Null })
            && is_pair(p@[1], "description"@, match field(f, "description"@) { Some(x) => x, None => Json::Null })
            && is_pair(p@[2], "input_schema"@, match field(f, "parameters"@) { Some(x) => x, None => Json::Null }),
        None => j == d,
    }
}

fn take_or_null(v: &mut Json, key: &str) -> (r: Json)
    ensures
        r == match field(*old(v), key@) { Some(x) => x, None => Json::Null },
        forall|k: Seq<char>| k != key@ ==> #[trigger] field(*final(v), k) == field(*old(v), k),
{
    match take_field(v, key) {
        Some(x) => x,
        None => Json::Null,
    }
}

/// Converts the offered tools for the Anthropic-style API.
pub fn anthropic_tools(tools: Vec<Json>) -> (r: Vec<Json>)
    ensures
        r@.len() == tools@.len(),
        forall|i: int| 0 <= i < tools@.len() ==> anthropic_tool(tools@[i], #[trigger] r@[i]),
{
    let ghost all = tools@;
    let mut tools = tools;
    let mut out: Vec<Json> = Vec::new();
    let n = tools.len();
    let mut k: usize = 0;
    while k < n
        invariant
            n == all.len(),
            tools@.len() == n - k,
            forall|i: int| 0 <= i < tools@.len() ==> tools@[i] == all[k + i],
            out@.len() == k,
            forall|i: int| 0 <= i < k ==> anthropic_tool(all[i], #[trigger] out@[i]),
        decreases n - k,
    {
        let ghost prev = tools@;
        let mut d = tools.remove(0);
        assert(d == all[k as int]);
        let ghost gd = d;
        if d.get("function").is_some() {
            let mut f = match take_field(&mut d, "function") {
                Some(f) => f,
                None => Json::Null,
            };
            let ghost gf = f;
            proof {
                reveal_strlit("name");
                reveal_strlit("description");
                reveal_strlit("parameters");
                assert("name"@[0] != "description"@[0] && "name"@[0] != "parameters"@[0] && "description"@[0] != "parameters"@[0]);
            }
            let name = take_or_null(&mut f, "name");
            let description = take_or_null(&mut f, "description");
            let schema = take_or_null(&mut f, "parameters");
            out.push(Json::Object(vec![pair("name", name), pair("description", description), pair("input_schema", schema)]));
        } else {
            out.push(d);
        }
        proof {
            assert forall|i: int| 0 <= i < tools@.len() implies tools@[i] == all[k + 1 + i] by {
                assert(tools@[i] == prev[i + 1]);
            }
        }
        k = k + 1;
    }
    out
}

/// The token limit of a request: the options' own, else 4096.
pub open spec fn token_limit(options: Option<ChatOptions>) -> i32 {
    match options {
        Some(o) => match o.max_tokens {
            Some(m) => m,
            None => 4096i32,
        },
        None => 4096i32,
    }
}

/// The members of an Anthropic-style request: model, messages, the token
/// limit (4096 unless the options set one), `stream: true`, then the system
/// prompt and the (already converted) tools where given, then the temperature
/// where set.
pub open spec fn anthropic_members(model: Seq<char>, messages: Vec<Json>, system: Option<String>,
    tools: Option<Vec<Json>>, options: Option<ChatOptions>) -> Seq<(Seq<char>, Option<Seq<char>>, Json)> {
    seq![text_m("model"@, model), value_m("messages"@, Json::Array(messages)),
        value_m("max_tokens"@, int_json(token_limit(options))), value_m("stream"@, Json::Bool(true))]
        + opt_m("system"@, string_of(system)) + opt_m("tools"@, array_of(tools))
        + match options { Some(o) => opt_m("temperature"@, decimal_of(o.temperature)), None => Seq::empty() }
}

/// The body of an Anthropic-style request, with the tools already converted.
pub fn anthropic_body(model: &str, messages: Vec<Json>, system: Option<String>, tools: Option<Vec<Json>>,
    options: Option<ChatOptions>) -> (r: Json)
    ensures
        r matches Json::Object(p) && members(p@, anthropic_members(model@, messages, system, tools, options)),
{
    let limit: i32 = match &options {
        Some(o) => match o.max_tokens {
            Some(m) => m,
            None => 4096,
        },
        None => 4096,
    };
    assert(limit == token_limit(options));
    let ghost w0 = seq![text_m("model"@, model@), value_m("messages"@, Json::Array(messages)),
        value_m("max_tokens"@, int_json(token_limit(options))), value_m("stream"@, Json::Bool(true))];
    let mut p: Vec<(String, Json)> = Vec::new();
    assert(members(p@, Seq::empty()));
    push_text(&mut p, "model", model);
    push_value(&mut p, "messages", Json::Array(messages));
    push_value(&mut p, "max_tokens", make_int(limit));
    push_value(&mut p, "stream", Json::Bool(true));
    assert(Seq::empty().push(text_m("model"@, model@)).push(value_m("messages"@, Json::Array(messages)))
        .push(value_m("max_tokens"@, int_json(token_limit(options)))).push(value_m("stream"@, Json::Bool(true))) =~= w0);
    let ghost gs = system;
    let sys = match system {
        Some(t) => Some(Json::Str(t)),
        None => None,
    };
    assert(sys == string_of(gs));
    push_opt(&mut p, "system", sys);
    push_opt(&mut p, "tools", array_json(tools));
    let ghost w1 = w0 + opt_m("system"@, string_of(gs)) + opt_m("tools"@, array_of(tools));
    match options {
        Some(o) => {
            let ghost go = o;
            push_opt(&mut p, "temperature", decimal_json(o.temperature));
            assert(w1 + opt_m("temperature"@, decimal_of(go.temperature))
                =~= anthropic_members(model@, messages, gs, tools, options));
        },
        None => {
            assert(w1 + Seq::empty() =~= anthropic_members(model@, messages, gs, tools, options));
            assert(w1 + Seq::empty() =~= w1);
        },
    }
    Json::Object(p)
}

} // verus!

verus! {

/// What the local daemon is told where tools are offered.
pub open spec fn ollama_tool_instruction() -> Seq<char> {
    "You have access to tools/functions. If the user asks for something that requires a tool, please use the available tools to verify or retrieve information. Ensure you use the correct tool name and arguments."@
}

/// The conversation with the tool instruction: appended, after a newline,
/// to a leading system message, or else sent first as a system message.
pub fn with_tool_instruction(ms: Vec<ChatMessage>) -> (r: Vec<ChatMessage>)
    ensures
        ms@.len() > 0 && ms@[0].role@ == "system"@ ==> r@.len() == ms@.len()
            && r@[0].role@ == "system"@ && r@[0].content@ == ms@[0].content@ + seq!['\n'] + ollama_tool_instruction()
            && r@[0].images == ms@[0].images && r@[0].tool_calls == ms@[0].tool_calls
            && r@[0].tool_call_id == ms@[0].tool_call_id
            && r@.drop_first() == ms@.drop_first(),
        !(ms@.len() > 0 && ms@[0].role@ == "system"@) ==> r@.len() == ms@.len() + 1
            && r@[0].role@ == "system"@ && r@[0].content@ == ollama_tool_instruction()
            && r@[0].images is None && r@[0].tool_calls is None && r@[0].tool_call_id is None
            && r@.drop_first() == ms@,
{
    let mut ms = ms;
    if ms.len() > 0 && same_text(ms[0].role.as_str(), "system") {
        let ghost before = ms@;
        let first = ms.remove(0);
        let ChatMessage { role, content, images, tool_calls, tool_call_id } = first;
        let mut content = content;
        crate::text::push_char(&mut content, '\n');
        content.append("You have access to tools/functions. If the user asks for something that requires a tool, please use the available tools to verify or retrieve information. Ensure you use the correct tool name and arguments.");
        ms.insert(0, ChatMessage { role, content, images, tool_calls, tool_call_id });
        assert(ms@.drop_first() =~= before.drop_first());
        ms
    } else {
        let ghost before = ms@;
        let m = ChatMessage::plain(copy_text("system"), copy_text(
            "You have access to tools/functions. If the user asks for something that requires a tool, please use the available tools to verify or retrieve information. Ensure you use the correct tool name and arguments."));
        ms.insert(0, m);
        assert(ms@.drop_first() =~= before);
        ms
    }
}

/// A message as the local daemon takes it: `{role, content, images?,
/// tool_calls?, tool_call_id?}`.
pub open spec fn ollama_message(m: ChatMessage, j: Json) -> bool {
    j matches Json::Object(p) && p@.len() >= 2 && is_text_pair(p@[0], "role"@, m.role@)
        && is_text_pair(p@[1], "content"@, m.content@)
        && p@.len() == 2 + (if m.images is Some { 1int } else { 0 }) + (if m.tool_calls is Some { 1int } else { 0 })
            + (if m.tool_call_id is Some { 1int } else { 0 })
        && (m.tool_calls matches Some(cs) ==> is_pair(p@[2 + (if m.images is Some { 1int } else { 0 })], "tool_calls"@, Json::Array(cs)))
}

pub fn ollama_message_json(m: ChatMessage) -> (r: Json)
    ensures
        ollama_message(m, r),
{
    let ChatMessage { role, content, images, tool_calls, tool_call_id } = m;
    let mut p: Vec<(String, Json)> = vec![pair("role", Json::Str(role)), pair("content", Json::Str(content))];
    match images {
        Some(imgs) => {
            let mut a: Vec<Json> = Vec::new();
            let mut imgs = imgs;
            while imgs.len() > 0
                decreases imgs@.len(),
            {
                let x = imgs.remove(0);
                a.push(Json::Str(x));
            }
            p.push(pair("images", Json::Array(a)));
        },
        None => {},
    }
    match tool_calls {
        Some(cs) => p.push(pair("tool_calls", Json::Array(cs))),
        None => {},
    }
    match tool_call_id {
        Some(id) => p.push(pair("tool_call_id", Json::Str(id))),
        None => {},
    }
    Json::Object(p)
}

/// The daemon's options: `temperature`, `top_k`, `top_p`, and `max_tokens`
/// under the name `num_predict`, each where set.
pub open spec fn ollama_option_members(o: ChatOptions) -> Seq<(Seq<char>, Option<Seq<char>>, Json)> {
    opt_m("temperature"@, decimal_of(o.temperature)) + opt_m("top_k"@, int_of(o.top_k))
        + opt_m("top_p"@, decimal_of(o.top_p)) + opt_m("num_predict"@, int_of(o.max_tokens))
}

pub fn ollama_options(o: ChatOptions) -> (r: Json)
    ensures
        r matches Json::Object(p) && members(p@, ollama_option_members(o)),
{
    let ghost go = o;
    let mut p: Vec<(String, Json)> = Vec::new();
    assert(members(p@, Seq::empty()));
    push_opt(&mut p, "temperature", decimal_json(o.temperature));
    push_opt(&mut p, "top_k", int_json_opt(o.top_k));
    push_opt(&mut p, "top_p", decimal_json(o.top_p));
    push_opt(&mut p, "num_predict", int_json_opt(o.max_tokens));
    assert(Seq::empty() + opt_m("temperature"@, decimal_of(go.temperature)) + opt_m("top_k"@, int_of(go.top_k))
        + opt_m("top_p"@, decimal_of(go.top_p)) + opt_m("num_predict"@, int_of(go.max_tokens))
        =~= ollama_option_members(go));
    Json::Object(p)
}

/// The members of a request to the local daemon: model, `stream: true`,
/// messages, then the tools and the options where given.
pub open spec fn ollama_members(model: Seq<char>, messages: Vec<Json>, tools: Option<Vec<Json>>,
    options: Option<Json>) -> Seq<(Seq<char>, Option<Seq<char>>, Json)> {
    seq![text_m("model"@, model), value_m("stream"@, Json::Bool(true)), value_m("messages"@, Json::Array(messages))]
        + opt_m("tools"@, array_of(tools)) + opt_m("options"@, options)
}

/// The body of a request to the local daemon, with the options already converted.
pub fn ollama_body(model: &str, messages: Vec<Json>, tools: Option<Vec<Json>>, options: Option<Json>) -> (r: Json)
    ensures
        r matches Json::Object(p) && members(p@, ollama_members(model@, messages, tools, options)),
{
    let ghost w0 = seq![text_m("model"@, model@), value_m("stream"@, Json::Bool(true)), value_m("messages"@, Json::Array(messages))];
    let mut p: Vec<(String, Json)> = Vec::new();
    assert(members(p@, Seq::empty()));
    push_text(&mut p, "model", model);
    push_value(&mut p, "stream", Json::Bool(true));
    push_value(&mut p, "messages", Json::Array(messages));
    assert(Seq::empty().push(text_m("model"@, model@)).push(value_m("stream"@, Json::Bool(true)))
        .push(value_m("messages"@, Json::Array(messages))) =~= w0);
    push_opt(&mut p, "tools", array_json(tools));
    push_opt(&mut p, "options", options);
    Json::Object(p)
}

} // verus!

verus! {

/// `{text: t}`.
pub open spec fn google_text_part(j: Json, t: Seq<char>) -> bool {
    j matches Json::Object(p) && p@.len() == 1 && is_text_pair(p@[0], "text"@, t)
}

/// `{inlineData: {mimeType: "image/jpeg", data}}`.
pub open spec fn google_image_part(j: Json, data: Seq<char>) -> bool {
    j matches Json::Object(p) && p@.len() == 1 && p@[0].0@ == "inlineData"@
        && (p@[0].1 matches Json::Object(q) && q@.len() == 2 && is_text_pair(q@[0], "mimeType"@, "image/jpeg"@)
            && is_text_pair(q@[1], "data"@, data))
}

/// `{functionCall: {name, args}}` for a call record, with the arguments parsed.
pub open spec fn google_call_part(j: Json, c: Json) -> bool {
    j matches Json::Object(p) && p@.len() == 1 && p@[0].0@ == "functionCall"@
        && (p@[0].1 matches Json::Object(q) && q@.len() == 2
            && is_text_pair(q@[0], "name"@, crate::orchestrator::text_or(text_of(field2(c, "function"@, "name"@)), Seq::empty()))
            && q@[1].0@ == "args"@
            && crate::orchestrator::arguments_of(
                crate::orchestrator::text_or(text_of(field2(c, "function"@, "arguments"@)), "{}"@), q@[1].1))
}

pub open spec fn google_call_parts(calls: Seq<Json>, parts: Seq<Json>) -> bool
    decreases calls.len(),
{
    if calls.len() == 0 {
        parts.len() == 0
    } else if field(calls.last(), "function"@) is Some {
        parts.len() > 0 && google_call_part(parts.last(), calls.last())
            && google_call_parts(calls.drop_last(), parts.drop_last())
    } else {
        google_call_parts(calls.drop_last(), parts)
    }
}

fn google_call_json(c: &Json) -> (r: Json)
    ensures
        google_call_part(r, *c),
{
    let name = match c.get("function") {
        Some(f) => match get_text(f, "name") {
            Some(n) => copy_text(n.as_str()),
            None => String::new(),
        },
        None => String::new(),
    };
    proof { reveal_strlit(""); }
    let args = arguments_value(c);
    let inner = Json::Object(vec![pair("name", Json::Str(name)), pair("args", args)]);
    Json::Object(vec![pair("functionCall", inner)])
}

/// A non-system, non-tool message for the Google-style API: role `model`
/// for the assistant and `user` otherwise; parts: its text, its images, and
/// its tool calls.
pub open spec fn google_content(m: ChatMessage, j: Json) -> bool {
    j matches Json::Object(p) && p@.len() == 2
        && is_text_pair(p@[0], "role"@, if m.role@ == "assistant"@ { "model"@ } else { "user"@ })
        && p@[1].0@ == "parts"@ && (p@[1].1 matches Json::Array(a) && ({
            let imgs = match m.images { Some(v) => v@, None => Seq::empty() };
            let calls = match m.tool_calls { Some(v) => v@, None => Seq::empty() };
            &&& a@.len() >= 1 + imgs.len()
            &&& google_text_part(a@[0], m.content@)
            &&& forall|i: int| 0 <= i < imgs.len() ==> google_image_part(#[trigger] a@[1 + i], imgs[i]@)
            &&& google_call_parts(calls, a@.subrange(1 + imgs.len() as int, a@.len() as int))
        }))
}

/// A tool message for the Google-style API: a `function` turn holding the
/// result under the call's id.
pub open spec fn google_tool_content(m: ChatMessage, j: Json) -> bool {
    j matches Json::Object(p) && p@.len() == 2 && is_text_pair(p@[0], "role"@, "function"@)
        && p@[1].0@ == "parts"@ && (p@[1].1 matches Json::Array(a) && a@.len() == 1
            && (a@[0] matches Json::Object(q) && q@.len() == 1 && q@[0].0@ == "functionResponse"@
                && (q@[0].1 matches Json::Object(f) && f@.len() == 2
                    && is_text_pair(f@[0], "name"@, match m.tool_call_id { Some(id) => id@, None => Seq::empty() })
                    && f@[1].0@ == "response"@ && (f@[1].1 matches Json::Object(res) && res@.len() == 1
                        && is_text_pair(res@[0], "result"@, m.content@)))))
}

pub fn google_content_json(m: ChatMessage) -> (r: Json)
    ensures
        m.role@ == "tool"@ ==> google_tool_content(m, r),
        m.role@ != "tool"@ ==> google_content(m, r),
{
    let ghost gm = m;
    if same_text(m.role.as_str(), "tool") {
        let name = match &m.tool_call_id {
            Some(id) => copy_text(id.as_str()),
            None => String::new(),
        };
        proof { reveal_strlit(""); }
        let res = Json::Object(vec![pair("result", Json::Str(m.content))]);
        let f = Json::Object(vec![pair("name", Json::Str(name)), pair("response", res)]);
        let part = Json::Object(vec![pair("functionResponse", f)]);
        return Json::Object(vec![text_pair("role", "function"), pair("parts", Json::Array(vec![part]))]);
    }
    let role = if same_text(m.role.as_str(), "assistant") { "model" } else { "user" };
    let mut a: Vec<Json> = Vec::new();
    a.push(Json::Object(vec![text_pair("text", m.content.as_str())]));
    let empty_i: Vec<String> = Vec::new();
    let imgs: &Vec<String> = match &m.images {
        Some(v) => v,
        None => &empty_i,
    };
    let mut i: usize = 0;
    while i < imgs.len()
        invariant
            i <= imgs@.len(),
            a@.len() == 1 + i,
            google_text_part(a@[0], gm.content@),
            forall|k: int| 0 <= k < i ==> google_image_part(#[trigger] a@[1 + k], imgs@[k]@),
        decreases imgs@.len() - i,
    {
        let inner = Json::Object(vec![text_pair("mimeType", "image/jpeg"), text_pair("data", imgs[i].as_str())]);
        a.push(Json::Object(vec![pair("inlineData", inner)]));
        i = i + 1;
    }
    let base = a.len();
    let empty_c: Vec<Json> = Vec::new();
    let calls: &Vec<Json> = match &m.tool_calls {
        Some(v) => v,
        None => &empty_c,
    };
    let mut k: usize = 0;
    assert(calls@.subrange(0, 0) =~= Seq::<Json>::empty());
    assert(a@.subrange(base as int, a@.len() as int) =~= Seq::<Json>::empty());
    while k < calls.len()
        invariant
            k <= calls@.len(),
            a@.len() >= base,
            base == 1 + imgs@.len(),
            google_text_part(a@[0], gm.content@),
            forall|q: int| 0 <= q < imgs@.len() ==> google_image_part(#[trigger] a@[1 + q], imgs@[q]@),
            google_call_parts(calls@.subrange(0, k as int), a@.subrange(base as int, a@.len() as int)),
        decreases calls@.len() - k,
    {
        let ghost before = a@;
        let ghost sub = calls@.subrange(0, k + 1);
        assert(sub.drop_last() =~= calls@.subrange(0, k as int));
        assert(sub.last() == calls@[k as int]);
        if calls[k].get("function").is_some() {
            a.push(google_call_json(&calls[k]));
            assert(a@.subrange(base as int, a@.len() as int).drop_last() =~= before.subrange(base as int, before.len() as int));
            assert(forall|q: int| 0 <= q < before.len() ==> a@[q] == before[q]);
        }
        k = k + 1;
    }
    assert(calls@.subrange(0, calls@.len() as int) =~= calls@);
    Json::Object(vec![text_pair("role", role), pair("parts", Json::Array(a))])
}

/// A non-system message for the Google-style API.
pub open spec fn google_message(m: ChatMessage, j: Json) -> bool {
    if m.role@ == "tool"@ { google_tool_content(m, j) } else { google_content(m, j) }
}

/// `{role: "user", parts: [{text: t}]}`.
pub open spec fn system_instruction(j: Json, t: Seq<char>) -> bool {
    j matches Json::Object(p) && p@.len() == 2 && is_text_pair(p@[0], "role"@, "user"@)
        && p@[1].0@ == "parts"@ && (p@[1].1 matches Json::Array(a) && a@.len() == 1 && google_text_part(a@[0], t))
}

/// The contents for the Google-style API, and the system instruction: the
/// last system message, as `{role: "user", parts: [{text}]}`.
pub fn google_contents(ms: Vec<ChatMessage>) -> (r: (Option<Json>, Vec<Json>))
    ensures
        r.1@.len() == ms@.filter(|m: ChatMessage| m.role@ != "system"@).len(),
        forall|i: int| 0 <= i < r.1@.len() ==> google_message(ms@.filter(|m: ChatMessage| m.role@ != "system"@)[i],
            #[trigger] r.1@[i]),
        last_system(ms@) is None <==> r.0 is None,
        last_system(ms@) matches Some(t) ==> (r.0 matches Some(j) && system_instruction(j, t)),
{
    let ghost gs = ms@;
    let mut ms = ms;
    let mut system: Option<Json> = None;
    let mut out: Vec<Json> = Vec::new();
    let n = ms.len();
    let mut k: usize = 0;
    assert(gs.subrange(0, 0).filter(|m: ChatMessage| m.role@ != "system"@) =~= Seq::<ChatMessage>::empty());
    while k < n
        invariant
            n == gs.len(),
            ms@.len() == n - k,
            forall|i: int| 0 <= i < ms@.len() ==> ms@[i] == gs[k + i],
            out@.len() == gs.subrange(0, k as int).filter(|m: ChatMessage| m.role@ != "system"@).len(),
            forall|i: int| 0 <= i < out@.len() ==> google_message(
                gs.subrange(0, k as int).filter(|m: ChatMessage| m.role@ != "system"@)[i], #[trigger] out@[i]),
            last_system(gs.subrange(0, k as int)) is None <==> system is None,
            last_system(gs.subrange(0, k as int)) matches Some(t) ==> (system matches Some(j) && system_instruction(j, t)),
        decreases n - k,
    {
        let ghost prev = ms@;
        let m = ms.remove(0);
        assert(m == gs[k as int]);
        let ghost sub = gs.subrange(0, k + 1);
        assert(sub.drop_last() =~= gs.subrange(0, k as int));
        proof { reveal(Seq::filter); }
        if same_text(m.role.as_str(), "system") {
            let part = Json::Object(vec![text_pair("text", m.content.as_str())]);
            system = Some(Json::Object(vec![text_pair("role", "user"), pair("parts", Json::Array(vec![part]))]));
        } else {
            out.push(google_content_json(m));
        }
        proof {
            assert forall|i: int| 0 <= i < ms@.len() implies ms@[i] == gs[k + 1 + i] by {
                assert(ms@[i] == prev[i + 1]);
            }
        }
        k = k + 1;
    }
    assert(gs.subrange(0, n as int) =~= gs);
    (system, out)
}

/// The declaration of an offered tool descriptor: `{name, description,
/// parameters}` from its `function` member, with empty text and an empty
/// object where absent.
pub open spec fn declaration_of(t: Json, d: Json) -> bool {
    field(t, "function"@) matches Some(f) && (d matches Json::Object(q) && q@.len() == 3
        && is_text_pair(q@[0], "name"@, crate::orchestrator::text_or(text_of(field(f, "name"@)), Seq::empty()))
        && is_text_pair(q@[1], "description"@, crate::orchestrator::text_or(text_of(field(f, "description"@)), Seq::empty()))
        && q@[2].0@ == "parameters"@ && match field(f, "parameters"@) {
            Some(x) => q@[2].1 == x,
            None => q@[2].1 matches Json::Object(e) && e@.len() == 0,
        })
}

/// The declarations of the descriptors that have a `function` member, in order.
pub open spec fn declarations(tools: Seq<Json>, ds: Seq<Json>) -> bool
    decreases tools.len(),
{
    if tools.len() == 0 {
        ds.len() == 0
    } else if field(tools.last(), "function"@) is Some {
        ds.len() > 0 && declaration_of(tools.last(), ds.last()) && declarations(tools.drop_last(), ds.drop_last())
    } else {
        declarations(tools.drop_last(), ds)
    }
}

/// The offered tools as one `{functionDeclarations: [...]}` entry.
pub fn google_tools(tools: Vec<Json>) -> (r: Json)
    ensures
        r matches Json::Object(p) && p@.len() == 1 && p@[0].0@ == "functionDeclarations"@
            && (p@[0].1 matches Json::Array(d) && declarations(tools@, d@)),
{
    let ghost all = tools@;
    let mut tools = tools;
    let mut decls: Vec<Json> = Vec::new();
    let n = tools.len();
    let mut k: usize = 0;
    while k < n
        invariant
            n == all.len(),
            tools@.len() == n - k,
            forall|i: int| 0 <= i < tools@.len() ==> tools@[i] == all[k + i],
            declarations(all.subrange(0, k as int), decls@),
        decreases n - k,
    {
        let ghost prev = tools@;
        let ghost before = decls@;
        let mut t = tools.remove(0);
        assert(t == all[k as int]);
        let ghost gt = t;
        let ghost sub = all.subrange(0, k + 1);
        assert(sub.drop_last() =~= all.subrange(0, k as int));
        assert(sub.last() == gt);
        match take_field(&mut t, "function") {
            Some(mut f) => {
                let ghost gf = f;
                let name = match get_text(&f, "name") {
                    Some(s) => copy_text(s.as_str()),
                    None => String::new(),
                };
                let description = match get_text(&f, "description") {
                    Some(s) => copy_text(s.as_str()),
                    None => String::new(),
                };
                proof { reveal_strlit(""); }
                let parameters = match take_field(&mut f, "parameters") {
                    Some(x) => x,
                    None => Json::Object(Vec::new()),
                };
                decls.push(Json::Object(vec![pair("name", Json::Str(name)), pair("description", Json::Str(description)),
                    pair("parameters", parameters)]));
                assert(decls@.drop_last() =~= before);
            },
            None => {},
        }
        proof {
            assert forall|i: int| 0 <= i < tools@.len() implies tools@[i] == all[k + 1 + i] by {
                assert(tools@[i] == prev[i + 1]);
            }
        }
        k = k + 1;
    }
    assert(all.subrange(0, n as int) =~= all);
    Json::Object(vec![pair("functionDeclarations", Json::Array(decls))])
}

/// `generationConfig`: the temperature and the output limit, each where set.
pub open spec fn generation_members(o: ChatOptions) -> Seq<(Seq<char>, Option<Seq<char>>, Json)> {
    opt_m("temperature"@, decimal_of(o.temperature)) + opt_m("maxOutputTokens"@, int_of(o.max_tokens))
}

pub fn generation_config(o: ChatOptions) -> (r: Json)
    ensures
        r matches Json::Object(p) && members(p@, generation_members(o)),
{
    let ghost go = o;
    let mut p: Vec<(String, Json)> = Vec::new();
    assert(members(p@, Seq::empty()));
    push_opt(&mut p, "temperature", decimal_json(o.temperature));
    push_opt(&mut p, "maxOutputTokens", int_json_opt(o.max_tokens));
    assert(Seq::empty() + opt_m("temperature"@, decimal_of(go.temperature)) + opt_m("maxOutputTokens"@, int_of(go.max_tokens))
        =~= generation_members(go));
    Json::Object(p)
}

/// The members of a Google-style request: the contents, then the tools,
/// the generation config and the system instruction where given.
pub open spec fn google_members(contents: Vec<Json>, tools: Option<Vec<Json>>, config: Option<Json>,
    system: Option<Json>) -> Seq<(Seq<char>, Option<Seq<char>>, Json)> {
    seq![value_m("contents"@, Json::Array(contents))] + opt_m("tools"@, array_of(tools))
        + opt_m("generationConfig"@, config) + opt_m("systemInstruction"@, system)
}

/// The body of a Google-style request, with tools and config already converted.
pub fn google_body(contents: Vec<Json>, tools: Option<Vec<Json>>, config: Option<Json>, system: Option<Json>) -> (r: Json)
    ensures
        r matches Json::Object(p) && members(p@, google_members(contents, tools, config, system)),
{
    let mut p: Vec<(String, Json)> = Vec::new();
    assert(members(p@, Seq::empty()));
    push_value(&mut p, "contents", Json::Array(contents));
    assert(Seq::empty().push(value_m("contents"@, Json::Array(contents))) =~= seq![value_m("contents"@, Json::Array(contents))]);
    push_opt(&mut p, "tools", array_json(tools));
    push_opt(&mut p, "generationConfig", config);
    push_opt(&mut p, "systemInstruction", system);
    Json::Object(p)
}

} // verus!
