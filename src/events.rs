use vstd::prelude::*;
use crate::json::{Json, field, field2, text_of, lemma_lookup_at};
use crate::text::copy_text;

verus! {

/// Token counts reported by a provider.
#[derive(Clone, Debug, PartialEq)]
pub struct Usage {
    pub prompt_tokens: Option<i32>,
    pub completion_tokens: Option<i32>,
    pub total_tokens: Option<i32>,
}

/// Token counts as reported with a streamed chunk.
#[derive(Clone, Debug, PartialEq)]
pub struct UsageStats {
    pub prompt_tokens: Option<i32>,
    pub completion_tokens: Option<i32>,
    pub total_tokens: Option<i32>,
}

impl UsageStats {
    pub fn of(u: &Usage) -> (r: UsageStats)
        ensures
            r.prompt_tokens == u.prompt_tokens,
            r.completion_tokens == u.completion_tokens,
            r.total_tokens == u.total_tokens,
    {
        UsageStats { prompt_tokens: u.prompt_tokens, completion_tokens: u.completion_tokens, total_tokens: u.total_tokens }
    }
}

/// What a provider adapter yields while a reply streams in.
pub enum ProviderEvent {
    /// A piece of the assistant's text.
    Content(String),
    /// A complete tool call, with `id`, `type` and `function.{name, arguments}`.
    ToolCall(Json),
    Usage(Usage),
    /// A failure that ends the stream.
    Error(String),
}

/// The id, type, name and argument text of a tool call record.
pub struct CallView {
    pub id: Seq<char>,
    pub kind: Seq<char>,
    pub name: Seq<char>,
    pub arguments: Seq<char>,
}

/// The four text fields of a tool call record, where all are present.
pub open spec fn call_view(v: Json) -> Option<CallView> {
    match (text_of(field(v, "id"@)), text_of(field(v, "type"@)),
        text_of(field2(v, "function"@, "name"@)), text_of(field2(v, "function"@, "arguments"@))) {
        (Some(id), Some(kind), Some(name), Some(arguments)) =>
            Some(CallView { id, kind, name, arguments }),
        _ => None,
    }
}

pub open spec fn is_call(e: ProviderEvent, c: CallView) -> bool {
    e matches ProviderEvent::ToolCall(j) && call_view(j) == Some(c)
}

pub open spec fn is_content(e: ProviderEvent, s: Seq<char>) -> bool {
    e matches ProviderEvent::Content(t) && t@ == s
}

/// Builds the record `{id, type, function: {name, arguments}}`.
pub fn tool_call_record(id: String, kind: String, name: String, arguments: String) -> (r: Json)
    ensures
        call_view(r) == Some(CallView { id: id@, kind: kind@, name: name@, arguments: arguments@ }),
{
    let ghost (i, k, n, a) = (id@, kind@, name@, arguments@);
    let function = Json::Object(vec![
        (copy_text("name"), Json::Str(name)),
        (copy_text("arguments"), Json::Str(arguments)),
    ]);
    let ghost fg = function;
    let r = Json::Object(vec![
        (copy_text("id"), Json::Str(id)),
        (copy_text("type"), Json::Str(kind)),
        (copy_text("function"), function),
    ]);
    proof {
        reveal_strlit("id");
        reveal_strlit("type");
        reveal_strlit("function");
        reveal_strlit("name");
        reveal_strlit("arguments");
        let rg = r;
        if let Json::Object(p) = rg {
            assert(p@[0].0@ == "id"@);
            assert(p@[1].0@ == "type"@);
            assert(p@[2].0@ == "function"@);
            assert(p@.drop_first()[0] == p@[1]);
            assert(p@.drop_first().drop_first()[0] == p@[2]);
            assert("type"@[0] != "id"@[0]);
            assert("function"@[0] != "id"@[0] && "function"@[0] != "type"@[0]);
            lemma_lookup_at(p@, 0, "id"@);
            lemma_lookup_at(p@, 1, "type"@);
            lemma_lookup_at(p@, 2, "function"@);
        }
        if let Json::Object(q) = fg {
            assert(q@.drop_first()[0] == q@[1]);
            assert("arguments"@[0] != "name"@[0]);
            lemma_lookup_at(q@, 0, "name"@);
            lemma_lookup_at(q@, 1, "arguments"@);
        }
    }
    r
}

} // verus!
