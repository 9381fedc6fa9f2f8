use vstd::prelude::*;
use crate::config::{ProviderConfig, base_url_of, ends_with_v1};
use crate::json::Json;
use crate::message::{ChatMessage, ChatOptions};
use crate::requests::{
    anthropic_body, anthropic_message, anthropic_messages, anthropic_tool, anthropic_tools, declarations, first_non_system,
    generation_config, generation_members, google_body, google_contents, google_message, google_tools, int_json, is_text_pair,
    last_system, member_ok, members, ollama_body, ollama_message, ollama_message_json, ollama_option_members, ollama_options,
    ollama_tool_instruction, openai_body, openai_members, openai_message, openai_messages, openai_tool_prompt, system_instruction,
    system_message, text_m, token_limit, value_m, with_tool_instruction, decimal_of, opt_m,
    anthropic_members, ollama_members, google_members,
};
use crate::text::{chars_of, copy_text, join};

verus! {

/// An HTTP request that an adapter asks for: where to post, with which
/// headers, and the JSON body.
pub struct PreparedRequest {
    pub url: String,
    pub headers: Vec<(String, String)>,
    pub body: Json,
}

/// The local inference daemon (NDJSON).
#[derive(Clone, Debug, PartialEq)]
pub struct OllamaProvider;

/// OpenAI-compatible services (server-sent events with deltas).
#[derive(Clone, Debug, PartialEq)]
pub struct OpenAIProvider;

/// Anthropic-style services (typed events).
#[derive(Clone, Debug, PartialEq)]
pub struct AnthropicProvider;

/// Google-style services (one JSON value per event).
#[derive(Clone, Debug, PartialEq)]
pub struct GoogleProvider;

pub open spec fn header(h: (String, String), name: Seq<char>, value: Seq<char>) -> bool {
    h.0@ == name && h.1@ == value
}

pub open spec fn has_tools(tools: Option<Vec<Json>>) -> bool {
    tools matches Some(t) && t@.len() > 0
}

/// Whether tools are offered: given, and at least one.
pub fn offers_tools(tools: &Option<Vec<Json>>) -> (r: bool)
    ensures
        r == has_tools(*tools),
{
    match tools {
        Some(t) => t.len() > 0,
        None => false,
    }
}

fn json_header() -> (r: (String, String))
    ensures
        header(r, "Content-Type"@, "application/json"@),
{
    (copy_text("Content-Type"), copy_text("application/json"))
}

impl OllamaProvider {
    /// The request to `{base}/api/chat`. Where tools are offered, they go in
    /// the body and the tool instruction goes into the conversation.
    pub fn prepare(&self, config: &ProviderConfig, model: &str, messages: Vec<ChatMessage>,
        tools: Option<Vec<Json>>, options: Option<ChatOptions>) -> (r: PreparedRequest)
        ensures
            r.url@ == base_url_of(*config) + "/api/chat"@,
            r.headers@.len() == 1 && header(r.headers@[0], "Content-Type"@, "application/json"@),
            r.body matches Json::Object(p) && ({
                let t: int = if has_tools(tools) { 1 } else { 0 };
                let o: int = if options is Some { 1 } else { 0 };
                &&& p@.len() == 3 + t + o
                &&& member_ok(p@[0], text_m("model"@, model@))
                &&& member_ok(p@[1], value_m("stream"@, Json::Bool(true)))
                &&& p@[2].0@ == "messages"@
                &&& (t == 1 ==> member_ok(p@[3], value_m("tools"@, Json::Array(tools->0))))
                &&& (options matches Some(op) ==> p@[3 + t].0@ == "options"@
                    && (p@[3 + t].1 matches Json::Object(q) && members(q@, ollama_option_members(op))))
            })
                && (p@[2].1 matches Json::Array(ms) && ms@.len() == messages@.len() + (if has_tools(tools) {
                    if messages@.len() > 0 && messages@[0].role@ == "system"@ { 0int } else { 1 } } else { 0 }))
                && (p@[2].1 matches Json::Array(ms) && ({
                    let lead = has_tools(tools) && !(messages@.len() > 0 && messages@[0].role@ == "system"@);
                    let merged = has_tools(tools) && messages@.len() > 0 && messages@[0].role@ == "system"@;
                    &&& (lead ==> (ms@[0] matches Json::Object(q) && q@.len() == 2
                        && is_text_pair(q@[0], "role"@, "system"@)
                        && is_text_pair(q@[1], "content"@, ollama_tool_instruction())))
                    &&& (merged ==> (ms@[0] matches Json::Object(q) && q@.len() >= 2
                        && is_text_pair(q@[0], "role"@, "system"@)
                        && is_text_pair(q@[1], "content"@, messages@[0].content@ + seq!['\n'] + ollama_tool_instruction())))
                    &&& (lead ==> forall|i: int| 0 <= i < messages@.len() ==>
                        ollama_message(#[trigger] messages@[i], ms@[i + 1]))
                    &&& (!lead ==> forall|i: int| (if merged { 1int } else { 0int }) <= i < messages@.len() ==>
                        ollama_message(#[trigger] messages@[i], ms@[i]))
                })),
    {
        let base = config.get_base_url();
        let url = crate::config::ollama_endpoint(base.as_str());
        let with_tools = offers_tools(&tools);
        let ms = if with_tools { with_tool_instruction(messages) } else { messages };
        let ghost gms = ms@;
        let mut ms = ms;
        let mut converted: Vec<Json> = Vec::new();
        while ms.len() > 0
            invariant
                converted@.len() + ms@.len() == gms.len(),
                forall|j: int| 0 <= j < ms@.len() ==> ms@[j] == gms[converted@.len() + j],
                forall|j: int| 0 <= j < converted@.len() ==> ollama_message(gms[j], #[trigger] converted@[j]),
            decreases ms@.len(),
        {
            let ghost prev = ms@;
            let k = converted.len();
            let m = ms.remove(0);
            assert(m == gms[k as int]);
            converted.push(ollama_message_json(m));
            assert forall|j: int| 0 <= j < ms@.len() implies ms@[j] == gms[converted@.len() + j] by {
                assert(ms@[j] == prev[j + 1]);
            }
        }
        assert(converted@.len() == gms.len());
        assert(with_tools == has_tools(tools));
        proof {
            if with_tools {
                if messages@.len() > 0 && messages@[0].role@ == "system"@ {
                    assert forall|i: int| 1 <= i < messages@.len() implies gms[i] == messages@[i] by {
                        assert(gms.drop_first()[i - 1] == messages@.drop_first()[i - 1]);
                    }
                } else {
                    assert forall|i: int| 0 <= i < messages@.len() implies gms[i + 1] == messages@[i] by {
                        assert(gms.drop_first()[i] == messages@[i]);
                    }
                }
            }
        }
        let offered = if with_tools { tools } else { None };
        let ghost goff = offered;
        let ghost gopt = options;
        let ghost gconv = converted;
        let opts = match options {
            Some(o) => Some(ollama_options(o)),
            None => None,
        };
        let ghost gopts = opts;
        let body = ollama_body(model, converted, offered, opts);
        let ghost gb = body;
        proof {
            let want = ollama_members(model@, gconv, goff, gopts);
            let t: int = if has_tools(tools) { 1 } else { 0 };
            assert(want[0] == text_m("model"@, model@));
            assert(want[1] == value_m("stream"@, Json::Bool(true)));
            assert(want[2] == value_m("messages"@, Json::Array(gconv)));
            if t == 1 {
                assert(want[3] == value_m("tools"@, Json::Array(tools->0)));
            }
            if gopt is Some {
                assert(want[3 + t] == value_m("options"@, gopts->0));
            }
            reveal_strlit("tools");
            reveal_strlit("options");
            assert("tools"@[0] != "options"@[0]);
        }
        PreparedRequest { url, headers: vec![json_header()], body }
    }

    /// The retry without tools and without the tool instruction, for a model
    /// that refused tools.
    pub fn prepare_without_tools(&self, config: &ProviderConfig, model: &str, messages: Vec<ChatMessage>,
        options: Option<ChatOptions>) -> (r: PreparedRequest)
        ensures
            r.url@ == base_url_of(*config) + "/api/chat"@,
            r.headers@.len() == 1 && header(r.headers@[0], "Content-Type"@, "application/json"@),
            r.body matches Json::Object(p) && ({
                let o: int = if options is Some { 1 } else { 0 };
                &&& p@.len() == 3 + o
                &&& member_ok(p@[0], text_m("model"@, model@))
                &&& member_ok(p@[1], value_m("stream"@, Json::Bool(true)))
                &&& p@[2].0@ == "messages"@
                &&& (options matches Some(op) ==> p@[3].0@ == "options"@
                    && (p@[3].1 matches Json::Object(q) && members(q@, ollama_option_members(op))))
                &&& (p@[2].1 matches Json::Array(ms) && ms@.len() == messages@.len()
                    && forall|i: int| 0 <= i < messages@.len() ==> ollama_message(#[trigger] messages@[i], ms@[i]))
            }),
    {
        self.prepare(config, model, messages, None, options)
    }
}

pub open spec fn contains_text(s: Seq<char>, pat: Seq<char>) -> bool {
    exists|i: int| crate::openai::occurs_at(s, pat, i)
}

/// Whether a failed request is to be retried without tools: tools were
/// offered and the error body says the model does not support them.
pub fn needs_tool_fallback(offered_tools: bool, error_body: &str) -> (r: bool)
    ensures
        r == (offered_tools && contains_text(error_body@, "does not support tools"@)),
{
    if !offered_tools {
        return false;
    }
    let cs = chars_of(error_body);
    let pat = chars_of("does not support tools");
    match crate::openai::find_text(cs.as_slice(), pat.as_slice()) {
        Some(_) => true,
        None => {
            proof {
                if contains_text(error_body@, "does not support tools"@) {
                    let i = choose|i: int| crate::openai::occurs_at(cs@, pat@, i);
                    lemma_find_none(cs@, pat@, 0, i);
                }
            }
            false
        },
    }
}

proof fn lemma_find_none(s: Seq<char>, pat: Seq<char>, from: int, i: int)
    requires
        0 <= from <= i,
        crate::openai::occurs_at(s, pat, i),
    ensures
        crate::openai::find_from(s, pat, from) != -1,
    decreases i - from,
{
    if !crate::openai::occurs_at(s, pat, from) {
        lemma_find_none(s, pat, from + 1, i);
    }
}

proof fn lemma_tools_key()
    ensures
        "tools"@ != "model"@, "tools"@ != "messages"@, "tools"@ != "stream"@, "tools"@ != "max_tokens"@,
        "tools"@ != "system"@, "tools"@ != "temperature"@, "tools"@ != "top_p"@,
{
    reveal_strlit("tools");
    reveal_strlit("model");
    reveal_strlit("messages");
    reveal_strlit("stream");
    reveal_strlit("max_tokens");
    reveal_strlit("system");
    reveal_strlit("temperature");
    reveal_strlit("top_p");
    assert("tools"@[0] != "model"@[0]);
    assert("tools"@[0] != "messages"@[0]);
    assert("tools"@[0] != "stream"@[0]);
    assert("tools"@[0] != "max_tokens"@[0]);
    assert("tools"@[0] != "system"@[0]);
    assert("tools"@[1] != "temperature"@[1]);
    assert("tools"@[2] != "top_p"@[2]);
}

impl OpenAIProvider {
    /// The request to the chat completions endpoint, with bearer
    /// authorization where a key is set.
    pub fn prepare(&self, config: &ProviderConfig, model: &str, messages: Vec<ChatMessage>,
        tools: Option<Vec<Json>>, options: Option<ChatOptions>) -> (r: PreparedRequest)
        ensures
            ends_with_v1(base_url_of(*config)) ==> r.url@ == base_url_of(*config) + "/chat/completions"@,
            !ends_with_v1(base_url_of(*config)) ==> r.url@ == base_url_of(*config) + "/v1/chat/completions"@,
            match config.api_key {
                Some(k) => if k@.len() > 0 {
                    r.headers@.len() == 2 && header(r.headers@[0], "Authorization"@, "Bearer "@ + k@)
                        && header(r.headers@[1], "Content-Type"@, "application/json"@)
                } else {
                    r.headers@.len() == 1 && header(r.headers@[0], "Content-Type"@, "application/json"@)
                },
                None => r.headers@.len() == 1 && header(r.headers@[0], "Content-Type"@, "application/json"@),
            },
            r.body matches Json::Object(p) && p@.len() >= 3
                && (tools is None ==> forall|i: int| 0 <= i < p@.len() ==> p@[i].0@ != "tools"@)
                && (p@[1].1 matches Json::Array(ms) && members(p@, openai_members(model@, ms, tools, options))
                    && ms@.len() == messages@.len() + (if tools is Some { 1int } else { 0 })
                    && (tools is None ==> forall|i: int| 0 <= i < messages@.len() ==>
                        openai_message(#[trigger] messages@[i], ms@[i]))
                    && (tools is Some ==> ({
                        let k = first_non_system(messages@);
                        &&& system_message(ms@[k], openai_tool_prompt())
                        &&& forall|i: int| 0 <= i < k ==> openai_message(#[trigger] messages@[i], ms@[i])
                        &&& forall|i: int| k <= i < messages@.len() ==> openai_message(#[trigger] messages@[i], ms@[i + 1])
                    }))),
    {
        let base = config.get_base_url();
        let url = crate::config::openai_endpoint(base.as_str());
        let mut headers: Vec<(String, String)> = Vec::new();
        match &config.api_key {
            Some(k) => if !k.as_str().is_empty() {
                headers.push((copy_text("Authorization"), join("Bearer ", k.as_str())));
            },
            None => {},
        }
        headers.push(json_header());
        let ms = openai_messages(messages, tools.is_some());
        let ghost gms = ms;
        let ghost gt = tools;
        let ghost go = options;
        let body = openai_body(model, ms, tools, options);
        proof {
            let want = openai_members(model@, gms, gt, go);
            assert(want[1] == value_m("messages"@, Json::Array(gms)));
            lemma_tools_key();
            if gt is None {
                assert forall|i: int| 0 <= i < want.len() implies want[i].0 != "tools"@ by {
                    if i >= 3 {
                        let os = crate::requests::openai_option_members(go);
                        assert(want[i] == os[i - 3]);
                        let o = go->0;
                        let a = opt_m("temperature"@, decimal_of(o.temperature));
                        let b = opt_m("max_tokens"@, crate::requests::int_of(o.max_tokens));
                        let c = opt_m("top_p"@, decimal_of(o.top_p));
                        assert(os == a + b + c);
                        let j = i - 3;
                        if j < a.len() {
                            assert(os[j] == a[j]);
                        } else if j < a.len() + b.len() {
                            assert(os[j] == b[j - a.len()]);
                        } else {
                            assert(os[j] == c[j - a.len() - b.len()]);
                        }
                    }
                }
            }
        }
        PreparedRequest { url, headers, body }
    }
}

impl AnthropicProvider {
    /// The request to `{base}/v1/messages`; a key is required.
    pub fn prepare(&self, config: &ProviderConfig, model: &str, messages: Vec<ChatMessage>,
        tools: Option<Vec<Json>>, options: Option<ChatOptions>) -> (r: Result<PreparedRequest, String>)
        ensures
            config.api_key is None <==> r is Err,
            r matches Err(e) ==> e@ == "Anthropic API key is required"@,
            r matches Ok(q) ==> q.url@ == base_url_of(*config) + "/v1/messages"@
                && q.headers@.len() == 3 && header(q.headers@[0], "x-api-key"@, config.api_key->0@)
                && header(q.headers@[1], "anthropic-version"@, "2023-06-01"@)
                && header(q.headers@[2], "Content-Type"@, "application/json"@)
                && (q.body matches Json::Object(p) && ({
                    let s: int = if last_system(messages@) is Some { 1 } else { 0 };
                    let t: int = if tools is Some { 1 } else { 0 };
                    let e: int = if options matches Some(o) && o.temperature is Some { 1 } else { 0 };
                    &&& p@.len() == 4 + s + t + e
                    &&& member_ok(p@[0], text_m("model"@, model@))
                    &&& p@[1].0@ == "messages"@
                    &&& member_ok(p@[2], value_m("max_tokens"@, int_json(token_limit(options))))
                    &&& member_ok(p@[3], value_m("stream"@, Json::Bool(true)))
                    &&& (last_system(messages@) matches Some(text) ==> member_ok(p@[4], text_m("system"@, text)))
                    &&& (tools matches Some(tl) ==> p@[4 + s].0@ == "tools"@ && (p@[4 + s].1 matches Json::Array(a)
                        && a@.len() == tl@.len() && forall|i: int| 0 <= i < tl@.len() ==> anthropic_tool(tl@[i], #[trigger] a@[i])))
                    &&& (tools is None ==> forall|i: int| 0 <= i < p@.len() ==> p@[i].0@ != "tools"@)
                    &&& (options matches Some(o) ==> (o.temperature matches Some(x)
                        ==> member_ok(p@[4 + s + t], value_m("temperature"@, Json::Decimal(x)))))
                })
                    && (p@[1].1 matches Json::Array(ms)
                        && ms@.len() == messages@.filter(|m: ChatMessage| m.role@ != "system"@).len()
                        && forall|i: int| 0 <= i < ms@.len() ==> anthropic_message(
                            messages@.filter(|m: ChatMessage| m.role@ != "system"@)[i], #[trigger] ms@[i]))),
    {
        let key = match &config.api_key {
            Some(k) => copy_text(k.as_str()),
            None => return Err(copy_text("Anthropic API key is required")),
        };
        let base = config.get_base_url();
        let url = crate::config::anthropic_endpoint(base.as_str());
        let headers = vec![(copy_text("x-api-key"), key), (copy_text("anthropic-version"), copy_text("2023-06-01")), json_header()];
        let (system, ms) = anthropic_messages(messages);
        let ghost gsys = system;
        let ghost gms = ms;
        let ghost go = options;
        let converted = match tools {
            Some(t) => Some(anthropic_tools(t)),
            None => None,
        };
        let ghost gconv = converted;
        let body = anthropic_body(model, ms, system, converted, options);
        proof {
            let want = anthropic_members(model@, gms, gsys, gconv, go);
            let s: int = if gsys is Some { 1 } else { 0 };
            let t: int = if gconv is Some { 1 } else { 0 };
            assert(want[0] == text_m("model"@, model@));
            assert(want[1] == value_m("messages"@, Json::Array(gms)));
            assert(want[2] == value_m("max_tokens"@, int_json(token_limit(go))));
            assert(want[3] == value_m("stream"@, Json::Bool(true)));
            if gsys is Some {
                assert(want[4] == value_m("system"@, Json::Str(gsys->0)));
            }
            if gconv is Some {
                assert(want[4 + s] == value_m("tools"@, Json::Array(gconv->0)));
            }
            if go matches Some(o) && o.temperature is Some {
                assert(want[4 + s + t] == value_m("temperature"@, Json::Decimal(go->0.temperature->0)));
            }
            lemma_tools_key();
        }
        Ok(PreparedRequest { url, headers, body })
    }
}

impl GoogleProvider {
    /// The request to the streaming endpoint, with the key in the query; a
    /// key is required.
    pub fn prepare(&self, config: &ProviderConfig, model: &str, messages: Vec<ChatMessage>,
        tools: Option<Vec<Json>>, options: Option<ChatOptions>) -> (r: Result<PreparedRequest, String>)
        ensures
            config.api_key is None <==> r is Err,
            r matches Err(e) ==> e@ == "Google API key is required"@,
            r matches Ok(q) ==> q.url@ == base_url_of(*config) + "/v1beta/models/"@ + model@
                    + ":streamGenerateContent?alt=sse&key="@ + config.api_key->0@
                && q.headers@.len() == 1 && header(q.headers@[0], "Content-Type"@, "application/json"@)
                && (q.body matches Json::Object(p) && ({
                    let t: int = if tools is Some { 1 } else { 0 };
                    let o: int = if options is Some { 1 } else { 0 };
                    let y: int = if last_system(messages@) is Some { 1 } else { 0 };
                    &&& p@.len() == 1 + t + o + y
                    &&& (tools matches Some(tl) ==> p@[1].0@ == "tools"@ && (p@[1].1 matches Json::Array(a) && a@.len() == 1
                        && (a@[0] matches Json::Object(g) && g@.len() == 1 && g@[0].0@ == "functionDeclarations"@
                            && (g@[0].1 matches Json::Array(d) && declarations(tl@, d@)))))
                    &&& (options matches Some(op) ==> p@[1 + t].0@ == "generationConfig"@
                        && (p@[1 + t].1 matches Json::Object(c) && members(c@, generation_members(op))))
                    &&& (last_system(messages@) matches Some(text) ==> p@[1 + t + o].0@ == "systemInstruction"@
                        && system_instruction(p@[1 + t + o].1, text))
                })
                    && p@[0].0@ == "contents"@
                    && (p@[0].1 matches Json::Array(cs)
                        && cs@.len() == messages@.filter(|m: ChatMessage| m.role@ != "system"@).len()
                        && forall|i: int| 0 <= i < cs@.len() ==> google_message(
                            messages@.filter(|m: ChatMessage| m.role@ != "system"@)[i], #[trigger] cs@[i]))),
    {
        let key = match &config.api_key {
            Some(k) => copy_text(k.as_str()),
            None => return Err(copy_text("Google API key is required")),
        };
        let base = config.get_base_url();
        let url = crate::config::google_endpoint(base.as_str(), model, key.as_str());
        let (system, contents) = google_contents(messages);
        let ghost gsys = system;
        let ghost gcs = contents;
        let decls = match tools {
            Some(t) => Some(vec![google_tools(t)]),
            None => None,
        };
        let ghost gd = decls;
        let config = match options {
            Some(o) => Some(generation_config(o)),
            None => None,
        };
        let ghost gc = config;
        let body = google_body(contents, decls, config, system);
        proof {
            let want = google_members(gcs, gd, gc, gsys);
            let t: int = if gd is Some { 1 } else { 0 };
            let o: int = if gc is Some { 1 } else { 0 };
            assert(want[0] == value_m("contents"@, Json::Array(gcs)));
            if gd is Some {
                assert(want[1] == value_m("tools"@, Json::Array(gd->0)));
            }
            if gc is Some {
                assert(want[1 + t] == value_m("generationConfig"@, gc->0));
            }
            if gsys is Some {
                assert(want[1 + t + o] == value_m("systemInstruction"@, gsys->0));
            }
        }
        Ok(PreparedRequest { url, headers: vec![json_header()], body })
    }
}

} // verus!
