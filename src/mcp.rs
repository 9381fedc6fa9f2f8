use vstd::prelude::*;
use crate::json::{Json, field, text_of, uint_of, items_of, bool_of, get_text, take_field, take_items, parse_json, parsed, render_json, rendered};
use crate::protocol::{CallToolResult, Content, JsonRpcError, Tool};
use crate::text::{copy_text, same_text, chars_of, slice_text};

verus! {

pub open spec fn is_text(v: Json, t: Seq<char>) -> bool {
    v matches Json::Str(s) && s@ == t
}

/// Builds a JSON-RPC 2.0 message: a request where `id` is given, else a
/// notification, which carries no id.
pub fn rpc_message(id: Option<u64>, method: &str, params: Option<Json>) -> (r: Json)
    ensures
        r matches Json::Object(m) && ({
            let id_n: int = if id is Some { 1 } else { 0 };
            &&& m@.len() == 2 + id_n + (if params is Some { 1int } else { 0 })
            &&& m@[0].0@ == "jsonrpc"@ && is_text(m@[0].1, "2.0"@)
            &&& (id matches Some(n) ==> m@[1].0@ == "id"@ && m@[1].1 == Json::UInt(n))
            &&& m@[1 + id_n].0@ == "method"@ && is_text(m@[1 + id_n].1, method@)
            &&& (params matches Some(p) ==> m@[2 + id_n].0@ == "params"@ && m@[2 + id_n].1 == p)
        }),
{
    let mut m: Vec<(String, Json)> = Vec::new();
    m.push((copy_text("jsonrpc"), Json::Str(copy_text("2.0"))));
    match id {
        Some(n) => m.push((copy_text("id"), Json::UInt(n))),
        None => {},
    }
    m.push((copy_text("method"), Json::Str(copy_text(method))));
    match params {
        Some(p) => m.push((copy_text("params"), p)),
        None => {},
    }
    Json::Object(m)
}

/// The text of one message on a line-delimited transport: its JSON and a newline.
pub fn frame_line(v: &Json) -> (r: String)
    ensures
        r@ == rendered(*v) + seq!['\n'],
{
    let mut r = render_json(v);
    crate::text::push_char(&mut r, '\n');
    r
}

/// The parameters of the `initialize` request.
pub fn initialize_params(client_name: &str, client_version: &str) -> (r: Json)
    ensures
        r matches Json::Object(m) && m@.len() == 3
            && m@[0].0@ == "protocolVersion"@ && is_text(m@[0].1, "2024-11-05"@)
            && m@[1].0@ == "capabilities"@ && (m@[1].1 matches Json::Object(c) && c@.len() == 2
                && c@[0].0@ == "roots"@ && (c@[0].1 matches Json::Object(rt) && rt@.len() == 1
                    && rt@[0].0@ == "listChanged"@ && rt@[0].1 == Json::Bool(false))
                && c@[1].0@ == "sampling"@ && (c@[1].1 matches Json::Object(sm) && sm@.len() == 0))
            && m@[2].0@ == "clientInfo"@ && (m@[2].1 matches Json::Object(ci) && ci@.len() == 2
                && ci@[0].0@ == "name"@ && is_text(ci@[0].1, client_name@)
                && ci@[1].0@ == "version"@ && is_text(ci@[1].1, client_version@)),
{
    let roots = Json::Object(vec![(copy_text("listChanged"), Json::Bool(false))]);
    let caps = Json::Object(vec![(copy_text("roots"), roots), (copy_text("sampling"), Json::Object(Vec::new()))]);
    let info = Json::Object(vec![
        (copy_text("name"), Json::Str(copy_text(client_name))),
        (copy_text("version"), Json::Str(copy_text(client_version))),
    ]);
    Json::Object(vec![
        (copy_text("protocolVersion"), Json::Str(copy_text("2024-11-05"))),
        (copy_text("capabilities"), caps),
        (copy_text("clientInfo"), info),
    ])
}

/// The parameters of a `tools/call` request.
pub fn call_params(name: &str, arguments: Json) -> (r: Json)
    ensures
        r matches Json::Object(m) && m@.len() == 2 && m@[0].0@ == "name"@ && is_text(m@[0].1, name@)
            && m@[1].0@ == "arguments"@ && m@[1].1 == arguments,
{
    Json::Object(vec![(copy_text("name"), Json::Str(copy_text(name))), (copy_text("arguments"), arguments)])
}

/// The request ids of one client: each request takes the next.
pub struct RequestIds {
    pub next: u64,
}

impl RequestIds {
    pub fn new() -> (r: RequestIds)
        ensures
            r.next == 1,
    {
        RequestIds { next: 1 }
    }

    /// The id for the next request; none once the ids are spent.
    pub fn allocate(&mut self) -> (r: Option<u64>)
        ensures
            old(self).next < u64::MAX ==> r == Some(old(self).next) && final(self).next == old(self).next + 1,
            old(self).next == u64::MAX ==> r is None && final(self).next == old(self).next,
    {
        if self.next == u64::MAX {
            return None;
        }
        let id = self.next;
        self.next = self.next + 1;
        Some(id)
    }
}

/// What one received message means to a caller waiting for the reply to its request.
pub enum Reply {
    /// The reply's result (null where it has none).
    Result(Json),
    /// The reply's error.
    Failure(JsonRpcError),
    /// A message for someone else: keep waiting.
    Skip,
    /// The transport closed.
    Closed,
}

pub open spec fn i64_of(v: Option<Json>) -> Option<i64> {
    match v {
        Some(Json::UInt(u)) => if u <= i64::MAX { Some(u as i64) } else { None },
        Some(Json::Int(i)) => Some(i),
        _ => None,
    }
}

/// The error object of a reply: its code and message.
pub open spec fn error_of(e: Json) -> (i64, Seq<char>) {
    (match i64_of(field(e, "code"@)) { Some(c) => c, None => 0 },
        match text_of(field(e, "message"@)) { Some(m) => m, None => Seq::empty() })
}

/// Whether `r` is how a caller waiting on request `id` reads message `msg`.
pub open spec fn reply_for(msg: Option<Json>, id: u64, r: Reply) -> bool {
    match msg {
        None => r is Closed,
        Some(v) => if uint_of(field(v, "id"@)) == Some(id) {
            match field(v, "error"@) {
                Some(e) => if e is Null {
                    r matches Reply::Result(x) && Some(x) == (match field(v, "result"@) { Some(y) => Some(y), None => Some(Json::Null) })
                } else {
                    r matches Reply::Failure(f) && (f.code, f.message@) == error_of(e)
                },
                None => r matches Reply::Result(x) && Some(x) == (match field(v, "result"@) { Some(y) => Some(y), None => Some(Json::Null) }),
            }
        } else {
            r is Skip
        },
    }
}

/// Reads one received message for the caller waiting on request `id`.
pub fn classify_reply(msg: Option<Json>, id: u64) -> (r: Reply)
    ensures
        reply_for(msg, id, r),
{
    let mut v = match msg {
        Some(v) => v,
        None => return Reply::Closed,
    };
    let ghost gv = v;
    let matches_id = match v.get("id") {
        Some(x) => match x.as_u64() {
            Some(n) => n == id,
            None => false,
        },
        None => false,
    };
    if !matches_id {
        return Reply::Skip;
    }
    let failure = match v.get("error") {
        Some(e) => match e {
            Json::Null => None,
            _ => {
                let code: i64 = match e.get("code") {
                    Some(Json::UInt(u)) => if *u <= i64::MAX as u64 { *u as i64 } else { 0 },
                    Some(Json::Int(i)) => *i,
                    _ => 0,
                };
                let message = match get_text(e, "message") {
                    Some(m) => copy_text(m.as_str()),
                    None => String::new(),
                };
                Some(JsonRpcError { code, message })
            },
        },
        None => None,
    };
    match failure {
        Some(f) => Reply::Failure(f),
        None => match take_field(&mut v, "result") {
            Some(x) => Reply::Result(x),
            None => Reply::Result(Json::Null),
        },
    }
}

} // verus!

verus! {

/// A tool entry of a `tools/list` result: its name, its description where
/// it is text, and its input schema (null where absent). An entry without a
/// name is not a tool.
pub open spec fn tool_entry(t: Json) -> Option<(Seq<char>, Option<Seq<char>>, Json)> {
    match text_of(field(t, "name"@)) {
        Some(n) => Some((n, text_of(field(t, "description"@)),
            match field(t, "inputSchema"@) { Some(s) => s, None => Json::Null })),
        None => None,
    }
}

pub open spec fn tool_matches(tool: Tool, t: Json) -> bool {
    tool_entry(t) matches Some((n, d, s)) && tool.name@ == n && tool.input_schema == s
        && match tool.description { Some(x) => d == Some(x@), None => d is None }
}

/// The tools of a `tools/list` result.
pub fn parse_tools(result: Json) -> (r: Result<Vec<Tool>, String>)
    ensures
        r matches Ok(tools) ==> (items_of(field(result, "tools"@)) matches Some(ts)
            && tools@.len() == ts.len() && forall|i: int| 0 <= i < ts.len() ==> tool_matches(#[trigger] tools@[i], ts[i])),
        r is Err <==> match items_of(field(result, "tools"@)) {
            Some(ts) => exists|i: int| 0 <= i < ts.len() && tool_entry(#[trigger] ts[i]) is None,
            None => true,
        },
{
    let mut res = result;
    let items = match take_field(&mut res, "tools") {
        Some(t) => match take_items(t) {
            Some(a) => a,
            None => return Err(copy_text("invalid tools/list result")),
        },
        None => return Err(copy_text("invalid tools/list result")),
    };
    let ghost ts = items@;
    let mut items = items;
    let mut tools: Vec<Tool> = Vec::new();
    let n = items.len();
    let mut k: usize = 0;
    while k < n
        invariant
            n == ts.len(),
            items_of(field(result, "tools"@)) == Some(ts),
            items@.len() == n - k,
            forall|i: int| 0 <= i < items@.len() ==> items@[i] == ts[k + i],
            tools@.len() == k,
            forall|i: int| 0 <= i < k ==> tool_matches(#[trigger] tools@[i], ts[i]),
        decreases n - k,
    {
        let ghost prev = items@;
        let mut t = items.remove(0);
        assert(t == ts[k as int]);
        let name = match get_text(&t, "name") {
            Some(s) => copy_text(s.as_str()),
            None => {
                assert(tool_entry(ts[k as int]) is None);
                return Err(copy_text("invalid tools/list result"));
            },
        };
        let description = match get_text(&t, "description") {
            Some(s) => Some(copy_text(s.as_str())),
            None => None,
        };
        let input_schema = match take_field(&mut t, "inputSchema") {
            Some(s) => s,
            None => Json::Null,
        };
        tools.push(Tool { name, description, input_schema });
        proof {
            assert forall|i: int| 0 <= i < items@.len() implies items@[i] == ts[k + 1 + i] by {
                assert(items@[i] == prev[i + 1]);
            }
        }
        k = k + 1;
    }
    assert forall|i: int| 0 <= i < ts.len() implies tool_entry(#[trigger] ts[i]) is Some by {
        assert(tool_matches(tools@[i], ts[i]));
    }
    Ok(tools)
}

/// A content part of a `tools/call` result, where its `type` and fields are
/// those of one of the three kinds.
pub open spec fn content_entry(c: Json, part: Content) -> bool {
    match text_of(field(c, "type"@)) {
        Some(k) => if k == "text"@ {
            text_of(field(c, "text"@)) matches Some(t) && part matches Content::Text { text } && text@ == t
        } else if k == "image"@ {
            text_of(field(c, "data"@)) matches Some(d) && text_of(field(c, "mime_type"@)) matches Some(m)
                && part matches Content::Image { data, mime_type } && data@ == d && mime_type@ == m
        } else if k == "resource"@ {
            text_of(field(c, "uri"@)) matches Some(u) && part matches Content::Resource { uri, mime_type, text, blob }
                && uri@ == u && crate::openai::opt_view(mime_type) == text_of(field(c, "mime_type"@))
                && crate::openai::opt_view(text) == text_of(field(c, "text"@))
                && crate::openai::opt_view(blob) == text_of(field(c, "blob"@))
        } else {
            false
        },
        None => false,
    }
}

pub open spec fn content_ok(c: Json) -> bool {
    exists|p: Content| content_entry(c, p)
}

fn opt_text(v: &Json, key: &str) -> (r: Option<String>)
    ensures
        crate::openai::opt_view(r) == text_of(field(*v, key@)),
{
    match get_text(v, key) {
        Some(s) => Some(copy_text(s.as_str())),
        None => None,
    }
}

fn parse_content(c: &Json) -> (r: Option<Content>)
    ensures
        r matches Some(p) ==> content_entry(*c, p),
        r is None ==> !content_ok(*c),
{
    let kind = match get_text(c, "type") {
        Some(k) => k,
        None => return None,
    };
    if same_text(kind.as_str(), "text") {
        match opt_text(c, "text") {
            Some(text) => Some(Content::Text { text }),
            None => None,
        }
    } else if same_text(kind.as_str(), "image") {
        match (opt_text(c, "data"), opt_text(c, "mime_type")) {
            (Some(data), Some(mime_type)) => Some(Content::Image { data, mime_type }),
            _ => None,
        }
    } else if same_text(kind.as_str(), "resource") {
        match opt_text(c, "uri") {
            Some(uri) => Some(Content::Resource {
                uri,
                mime_type: opt_text(c, "mime_type"),
                text: opt_text(c, "text"),
                blob: opt_text(c, "blob"),
            }),
            None => None,
        }
    } else {
        None
    }
}

/// The result of a `tools/call` request: its parts, and its error flag
/// (false where absent).
pub fn parse_call_result(result: &Json) -> (r: Result<CallToolResult, String>)
    ensures
        r matches Ok(res) ==> (items_of(field(*result, "content"@)) matches Some(cs)
            && res.content@.len() == cs.len()
            && (forall|i: int| 0 <= i < cs.len() ==> content_entry(cs[i], #[trigger] res.content@[i]))
            && res.is_error == match bool_of(field(*result, "isError"@)) { Some(b) => b, None => false }),
        r is Err <==> match items_of(field(*result, "content"@)) {
            Some(cs) => exists|i: int| 0 <= i < cs.len() && !content_ok(#[trigger] cs[i]),
            None => true,
        },
{
    let items = match result.get("content") {
        Some(c) => match c.as_array() {
            Some(a) => a,
            None => return Err(copy_text("invalid tools/call result")),
        },
        None => return Err(copy_text("invalid tools/call result")),
    };
    let mut parts: Vec<Content> = Vec::new();
    let mut i: usize = 0;
    while i < items.len()
        invariant
            i <= items@.len(),
            items_of(field(*result, "content"@)) == Some(items@),
            parts@.len() == i,
            forall|j: int| 0 <= j < i ==> content_entry(items@[j], #[trigger] parts@[j]),
        decreases items@.len() - i,
    {
        match parse_content(&items[i]) {
            Some(p) => parts.push(p),
            None => {
                assert(!content_ok(items@[i as int]));
                assert(exists|j: int| 0 <= j < items@.len() && !content_ok(#[trigger] items@[j]));
                let ghost cs = items_of(field(*result, "content"@))->0;
                assert(cs == items@);
                assert(!content_ok(cs[i as int]));
                return Err(copy_text("invalid tools/call result"));
            },
        }
        i = i + 1;
    }
    let is_error = match result.get("isError") {
        Some(b) => match b.as_bool() {
            Some(x) => x,
            None => false,
        },
        None => false,
    };
    proof {
        assert forall|j: int| 0 <= j < items@.len() implies content_ok(#[trigger] items@[j]) by {
            assert(content_entry(items@[j], parts@[j]));
        }
    }
    Ok(CallToolResult { content: parts, is_error })
}

} // verus!

verus! {

pub open spec fn is_meta_key(p: (String, Json)) -> bool {
    p.0@ == "$schema"@
}

/// A tool's schema as offered to a provider: an object loses its `$schema`
/// member; other values stay as they are.
pub open spec fn offered_schema(s: Json, r: Json) -> bool {
    match s {
        Json::Object(m) => r matches Json::Object(n) && n@ == m@.filter(|p: (String, Json)| !is_meta_key(p)),
        _ => r == s,
    }
}

pub fn strip_schema_key(s: Json) -> (r: Json)
    ensures
        offered_schema(s, r),
{
    match s {
        Json::Object(m) => {
            let ghost orig = m@;
            let mut m = m;
            let mut kept: Vec<(String, Json)> = Vec::new();
            let n = m.len();
            let mut k: usize = 0;
            assert(orig.subrange(0, 0).filter(|p: (String, Json)| !is_meta_key(p)) =~= Seq::<(String, Json)>::empty());
            while k < n
                invariant
                    n == orig.len(),
                    m@.len() == n - k,
                    forall|i: int| 0 <= i < m@.len() ==> m@[i] == orig[k + i],
                    kept@ == orig.subrange(0, k as int).filter(|p: (String, Json)| !is_meta_key(p)),
                decreases n - k,
            {
                let ghost prev = m@;
                let p = m.remove(0);
                assert(orig.subrange(0, k + 1).drop_last() =~= orig.subrange(0, k as int));
                assert(p == orig[k as int]);
                if !same_text(p.0.as_str(), "$schema") {
                    kept.push(p);
                }
                proof {
                    assert forall|i: int| 0 <= i < m@.len() implies m@[i] == orig[k + 1 + i] by {
                        assert(m@[i] == prev[i + 1]);
                    }
                    reveal(Seq::filter);
                }
                k = k + 1;
            }
            assert(orig.subrange(0, n as int) =~= orig);
            Json::Object(kept)
        },
        other => other,
    }
}

/// The tools of the connected servers: what to offer the provider, and
/// which server runs each tool.
pub struct ToolCatalog {
    pub descriptors: Vec<Json>,
    pub owners: Vec<(String, String)>,
}

/// The server that runs `tool`: the last one registered for it.
pub open spec fn owner_of(owners: Seq<(String, String)>, tool: Seq<char>) -> Option<Seq<char>>
    decreases owners.len(),
{
    if owners.len() == 0 {
        None
    } else if owners.last().0@ == tool {
        Some(owners.last().1@)
    } else {
        owner_of(owners.drop_last(), tool)
    }
}

/// The descriptor offered for a tool:
/// `{type: "function", function: {name, description, parameters}}`.
pub open spec fn descriptor_of(d: Json, tool: Tool) -> bool {
    d matches Json::Object(m) && m@.len() == 2
        && m@[0].0@ == "type"@ && is_text(m@[0].1, "function"@)
        && m@[1].0@ == "function"@ && (m@[1].1 matches Json::Object(f) && f@.len() == 3
            && f@[0].0@ == "name"@ && is_text(f@[0].1, tool.name@)
            && f@[1].0@ == "description"@ && (match tool.description {
                Some(x) => is_text(f@[1].1, x@),
                None => f@[1].1 == Json::Null,
            })
            && f@[2].0@ == "parameters"@ && offered_schema(tool.input_schema, f@[2].1))
}

impl ToolCatalog {
    pub fn new() -> (r: ToolCatalog)
        ensures
            r.descriptors@.len() == 0,
            r.owners@.len() == 0,
    {
        ToolCatalog { descriptors: Vec::new(), owners: Vec::new() }
    }

    /// Adds the tools of `server`, in order.
    pub fn add_server(&mut self, server: &str, tools: Vec<Tool>)
        ensures
            final(self).descriptors@.len() == old(self).descriptors@.len() + tools@.len(),
            final(self).descriptors@.subrange(0, old(self).descriptors@.len() as int) == old(self).descriptors@,
            forall|i: int| 0 <= i < tools@.len() ==>
                descriptor_of(#[trigger] final(self).descriptors@[old(self).descriptors@.len() + i], tools@[i]),
            final(self).owners@.len() == old(self).owners@.len() + tools@.len(),
            final(self).owners@.subrange(0, old(self).owners@.len() as int) == old(self).owners@,
            forall|i: int| 0 <= i < tools@.len() ==>
                (#[trigger] final(self).owners@[old(self).owners@.len() + i]).0@ == tools@[i].name@
                && final(self).owners@[old(self).owners@.len() + i].1@ == server@,
    {
        let ghost ts = tools@;
        let ghost d0 = self.descriptors@;
        let ghost o0 = self.owners@;
        let mut tools = tools;
        let n = tools.len();
        let mut k: usize = 0;
        while k < n
            invariant
                n == ts.len(),
                tools@.len() == n - k,
                forall|i: int| 0 <= i < tools@.len() ==> tools@[i] == ts[k + i],
                self.descriptors@.len() == d0.len() + k,
                self.descriptors@.subrange(0, d0.len() as int) == d0,
                forall|i: int| 0 <= i < k ==> descriptor_of(#[trigger] self.descriptors@[d0.len() + i], ts[i]),
                self.owners@.len() == o0.len() + k,
                self.owners@.subrange(0, o0.len() as int) == o0,
                forall|i: int| 0 <= i < k ==> (#[trigger] self.owners@[o0.len() + i]).0@ == ts[i].name@
                    && self.owners@[o0.len() + i].1@ == server@,
            decreases n - k,
        {
            let ghost prev = tools@;
            let tool = tools.remove(0);
            assert(tool == ts[k as int]);
            let Tool { name, description, input_schema } = tool;
            let owner = (copy_text(name.as_str()), copy_text(server));
            let desc = match description {
                Some(d) => Json::Str(d),
                None => Json::Null,
            };
            let function = Json::Object(vec![
                (copy_text("name"), Json::Str(name)),
                (copy_text("description"), desc),
                (copy_text("parameters"), strip_schema_key(input_schema)),
            ]);
            let d = Json::Object(vec![(copy_text("type"), Json::Str(copy_text("function"))), (copy_text("function"), function)]);
            self.descriptors.push(d);
            self.owners.push(owner);
            proof {
                assert forall|i: int| 0 <= i < tools@.len() implies tools@[i] == ts[k + 1 + i] by {
                    assert(tools@[i] == prev[i + 1]);
                }
                assert(self.descriptors@.subrange(0, d0.len() as int) =~= d0);
                assert(self.owners@.subrange(0, o0.len() as int) =~= o0);
                assert(self.descriptors@[d0.len() + k] == d);
            }
            k = k + 1;
        }
    }

    /// The tools to offer the provider; none where no server offers any.
    pub fn offered(&self) -> (r: Option<&Vec<Json>>)
        ensures
            self.descriptors@.len() == 0 ==> r is None,
            self.descriptors@.len() > 0 ==> (r matches Some(d) && d@ == self.descriptors@),
    {
        if self.descriptors.len() == 0 {
            None
        } else {
            Some(&self.descriptors)
        }
    }

    /// The server that runs `tool`.
    pub fn client_for(&self, tool: &str) -> (r: Option<&String>)
        ensures
            r matches Some(s) ==> owner_of(self.owners@, tool@) == Some(s@),
            r is None ==> owner_of(self.owners@, tool@) is None,
    {
        let mut i: usize = self.owners.len();
        assert(self.owners@.subrange(0, i as int) =~= self.owners@);
        while i > 0
            invariant
                i <= self.owners@.len(),
                owner_of(self.owners@, tool@) == owner_of(self.owners@.subrange(0, i as int), tool@),
            decreases i,
        {
            let ghost pre = self.owners@.subrange(0, i as int);
            assert(pre.drop_last() =~= self.owners@.subrange(0, i - 1));
            assert(pre.last() == self.owners@[i - 1]);
            if same_text(self.owners[i - 1].0.as_str(), tool) {
                return Some(&self.owners[i - 1].1);
            }
            i = i - 1;
        }
        None
    }
}

/// The receiving side of a remote server session: the server names, with an
/// `endpoint` event, the URL to which requests are posted.
pub struct SseSession {
    pub post_url: Option<String>,
}

impl SseSession {
    pub fn new() -> (r: SseSession)
        ensures
            r.post_url is None,
    {
        SseSession { post_url: None }
    }

    /// One received event: an `endpoint` event sets the URL and yields
    /// nothing; another yields its data, which must be JSON.
    pub fn on_event(&mut self, event: &str, data: &str) -> (r: Result<Option<Json>, String>)
        ensures
            event@ == "endpoint"@ ==> r == Ok::<Option<Json>, String>(None) && (final(self).post_url matches Some(u)
                && u@ == crate::lines::trimmed(data@)),
            event@ != "endpoint"@ ==> final(self).post_url == old(self).post_url && match parsed(data@) {
                Some(v) => r == Ok::<Option<Json>, String>(Some(v)),
                None => r matches Err(e) && e@ == "Failed to parse JSON"@,
            },
    {
        if same_text(event, "endpoint") {
            let cs = chars_of(data);
            let (lo, hi) = crate::lines::trim_bounds(cs.as_slice());
            self.post_url = Some(slice_text(cs.as_slice(), lo, hi));
            Ok(None)
        } else {
            match parse_json(data) {
                Some(v) => Ok(Some(v)),
                None => Err(copy_text("Failed to parse JSON")),
            }
        }
    }

    /// Where to post a request; an error until the server named it.
    pub fn target(&self) -> (r: Result<&String, String>)
        ensures
            self.post_url matches Some(u) ==> (r matches Ok(t) && t@ == u@),
            self.post_url is None ==> (r matches Err(e) && e@ == "no endpoint discovered"@),
    {
        match &self.post_url {
            Some(u) => Ok(u),
            None => Err(copy_text("no endpoint discovered")),
        }
    }
}

} // verus!
