use ollie::config::{
    active_provider, add_provider, check_can_activate, delete_provider, openai_endpoint, google_endpoint,
    update_provider, ProviderConfig, ProviderType,
};
use ollie::events::ProviderEvent;
use ollie::json::{parse_json, render_json, Json};
use ollie::lines::{data_payload, LineReader, SseReader};
use ollie::anthropic::AnthropicBody;
use ollie::google::GoogleStream;
use ollie::openai::OpenAIBody;
use ollie::config::ensure_default_provider;
use ollie::mcp::{
    classify_reply, initialize_params, parse_call_result, parse_tools, rpc_message, Reply, RequestIds, SseSession,
    ToolCatalog,
};
use ollie::ollama::{process_line, tools_unsupported_warning, OllamaStream};
use ollie::openai::{parse_groq_call, groq_call_id, CallAccumulator, CallDelta, OpenAIStream};
use ollie::orchestrator::{
    tool_message_text, truncate_result, ChatResponse, Conversation, Ending, ToolOutcome, UiEvent, MAX_LOOPS,
};
use ollie::protocol::{CallToolResult, Content, Tool};
use ollie::providers::{needs_tool_fallback, AnthropicProvider, GoogleProvider, OllamaProvider, OpenAIProvider};
use ollie::registry::StreamRegistry;
use ollie::message::ChatMessage;

fn feed_all(chunks: &[&[u8]]) -> (Vec<Vec<u8>>, Option<Vec<u8>>) {
    let mut r = LineReader::new();
    let mut lines = Vec::new();
    for c in chunks {
        lines.extend(r.feed(c));
    }
    let last = r.finish();
    (lines, last)
}

fn config(id: &str, t: ProviderType, key: Option<&str>, base: Option<&str>) -> ProviderConfig {
    ProviderConfig {
        id: id.to_string(),
        name: id.to_string(),
        provider_type: t,
        api_key: key.map(|k| k.to_string()),
        base_url: base.map(|b| b.to_string()),
        enabled: true,
    }
}

fn call_fields(j: &Json) -> (String, String, String) {
    let id = match j.get("id") { Some(Json::Str(s)) => s.clone(), _ => String::new() };
    let f = j.get("function").unwrap();
    let name = match f.get("name") { Some(Json::Str(s)) => s.clone(), _ => String::new() };
    let args = match f.get("arguments") { Some(Json::Str(s)) => s.clone(), _ => String::new() };
    (id, name, args)
}

#[test]
fn lines_do_not_depend_on_chunking() {
    let text = "data: héllo\n\nsecond line\r\nthird";
    let bytes = text.as_bytes();
    let whole = feed_all(&[bytes]);
    for cut in 0..bytes.len() {
        let split = feed_all(&[&bytes[..cut], &bytes[cut..]]);
        assert_eq!(split, whole);
    }
    let singles: Vec<&[u8]> = bytes.chunks(1).collect();
    assert_eq!(feed_all(&singles), whole);
    assert_eq!(whole.0.len(), 3);
    assert_eq!(whole.1, Some(b"third".to_vec()));
}

#[test]
fn multibyte_character_split_across_chunks() {
    let body = "{\"message\":{\"content\":\"h\u{e9}\"},\"done\":false}\n".as_bytes();
    let pos = body.iter().position(|b| *b == 0xC3).unwrap();
    let mut s = OllamaStream::new();
    let mut events = s.feed(&body[..pos + 1]);
    assert!(events.is_empty());
    events.extend(s.feed(&body[pos + 1..]));
    assert!(matches!(&events[0], ProviderEvent::Content(c) if c == "h\u{e9}"));
}

#[test]
fn ndjson_trailing_line_without_newline() {
    let mut s = OllamaStream::new();
    let events = s.feed(b"{\"message\":{\"content\":\"x\"},\"done\":false}");
    assert!(events.is_empty());
    let tail = s.finish();
    assert!(matches!(&tail[0], ProviderEvent::Content(c) if c == "x"));
    assert!(s.finish().is_empty());
}

#[test]
fn ndjson_blank_and_bad_lines_are_skipped() {
    assert!(process_line("   ").is_empty());
    assert!(process_line("not json").is_empty());
    assert!(process_line("{\"message\":{\"content\":\"x\"}}").is_empty());
    let events = process_line("{\"message\":{\"content\":\"\",\"tool_calls\":[{\"function\":{\"name\":\"f\",\"arguments\":{}}}]},\"done\":false}");
    assert_eq!(events.len(), 1);
    match &events[0] {
        ProviderEvent::ToolCall(j) => assert_eq!(render_json(j), "{\"function\":{\"arguments\":{},\"name\":\"f\"}}"),
        _ => panic!("tool call expected"),
    }
}

#[test]
fn deltas_assemble_by_index_in_ascending_order() {
    let mut acc = CallAccumulator::new();
    let d = |index: u64, id: Option<&str>, name: Option<&str>, args: Option<&str>| CallDelta {
        index,
        id: id.map(|s| s.to_string()),
        kind: None,
        name: name.map(|s| s.to_string()),
        arguments: args.map(|s| s.to_string()),
    };
    acc.apply(d(1, Some("b"), Some("wr"), Some("{\"x\"")));
    acc.apply(d(0, Some("a"), Some("re"), Some("{")));
    acc.apply(d(1, None, Some("ite"), Some(":1}")));
    acc.apply(d(0, None, Some("ad"), Some("}")));
    let calls = acc.flush();
    assert_eq!(calls.len(), 2);
    assert_eq!(call_fields(&calls[0]), ("a".to_string(), "read".to_string(), "{}".to_string()));
    assert_eq!(call_fields(&calls[1]), ("b".to_string(), "write".to_string(), "{\"x\":1}".to_string()));
    assert!(acc.is_empty());
    assert!(acc.flush().is_empty());
}

#[test]
fn openai_content_and_usage() {
    let mut s = OpenAIStream::new();
    let events = s.process_data_line("{\"choices\":[{\"delta\":{\"content\":\"Hi\"}}],\"usage\":{\"prompt_tokens\":1,\"completion_tokens\":2,\"total_tokens\":3}}");
    assert_eq!(events.len(), 2);
    assert!(matches!(&events[0], ProviderEvent::Usage(u) if u.total_tokens == Some(3)));
    assert!(matches!(&events[1], ProviderEvent::Content(c) if c == "Hi"));
    assert!(s.process_data_line("{\"choices\":[{\"delta\":{\"content\":\"\"}}]}").is_empty());
    assert!(s.process_data_line("garbage").is_empty());
}

#[test]
fn groq_parse_edge_cases() {
    assert_eq!(parse_groq_call("<function=ls {\"p\":1}>></function>"), Some(("ls".to_string(), "{\"p\":1}".to_string())));
    assert_eq!(parse_groq_call("<function=ls{not json}></function>"), None);
    assert_eq!(parse_groq_call("no markers"), None);
    assert_eq!(parse_groq_call("</function><function=ls{}"), None);
    assert_eq!(groq_call_id("1234abcd-ef00-0000"), "groq_call_1234abcd");
    assert_eq!(groq_call_id("nodash"), "groq_call_nodash");
}

#[test]
fn loop_cap_bounds_invocations() {
    let (mut conv, _) = Conversation::start(Vec::new());
    let mut invocations = 0;
    loop {
        let (invoke, shown) = conv.begin_turn(false);
        if !invoke {
            assert!(shown.is_none());
            break;
        }
        invocations += 1;
        let call = parse_json("{\"id\":\"x\",\"type\":\"function\",\"function\":{\"name\":\"t\",\"arguments\":\"{}\"}}").unwrap();
        assert!(conv.on_event(ProviderEvent::ToolCall(call), false).is_none());
        let (shown, requests) = conv.end_turn(false);
        assert!(shown.is_empty());
        for r in requests {
            conv.record_tool_result(r.call_id.clone(), &r.name, &ToolOutcome::NoMapping);
        }
    }
    assert_eq!(invocations, MAX_LOOPS);
    assert!(matches!(conv.outcome(), Some(Ending::Capped)));
    assert_eq!(conv.messages().len(), 20);
}

#[test]
fn one_terminal_event_and_nothing_after() {
    let (mut conv, _) = Conversation::start(Vec::new());
    assert!(conv.begin_turn(false).0);
    let e = conv.on_event(ProviderEvent::Error("boom".to_string()), false);
    assert!(matches!(e, Some(UiEvent::Error(ref m)) if m == "boom"));
    assert!(conv.on_event(ProviderEvent::Content("late".to_string()), false).is_none());
    assert!(conv.on_event(ProviderEvent::Content("late".to_string()), true).is_none());
    let (end, reqs) = conv.end_turn(false);
    assert!(end.is_empty() && reqs.is_empty());
    assert!(conv.on_provider_failure("again".to_string()).is_none());
    let (invoke, shown) = conv.begin_turn(false);
    assert!(!invoke && shown.is_none());
    let resp = ChatResponse::of(conv.outcome(), "boom".to_string());
    assert_eq!(resp, ChatResponse { success: false, error: Some("boom".to_string()) });
}

#[test]
fn provider_failure_is_the_terminal_error() {
    let (mut conv, _) = Conversation::start(Vec::new());
    assert!(conv.begin_turn(false).0);
    let e = conv.on_provider_failure("HTTP 500".to_string());
    assert!(matches!(e, Some(UiEvent::Error(ref m)) if m == "HTTP 500"));
    assert!(matches!(conv.outcome(), Some(Ending::Failed)));
}

#[test]
fn cancel_before_invocation() {
    let (mut conv, _) = Conversation::start(Vec::new());
    let (invoke, shown) = conv.begin_turn(true);
    assert!(!invoke);
    assert!(matches!(shown, Some(UiEvent::Cancelled)));
    assert_eq!(ChatResponse::of(conv.outcome(), String::new()), ChatResponse { success: true, error: None });
}

#[test]
fn registry_cleanup_and_cancellation() {
    let mut reg = StreamRegistry::new();
    reg.register("stream-a");
    reg.register("stream-b");
    assert!(reg.contains("stream-a"));
    assert!(!reg.is_cancelled("stream-a"));
    reg.cancel("stream-a");
    assert!(reg.is_cancelled("stream-a"));
    assert!(!reg.is_cancelled("stream-b"));
    reg.cancel("unknown");
    assert!(!reg.contains("unknown"));
    reg.cancel_all();
    assert!(reg.is_cancelled("stream-b"));
    reg.unregister("stream-a");
    assert!(!reg.contains("stream-a"));
    assert!(!reg.is_cancelled("stream-a"));
    assert!(reg.contains("stream-b"));
    reg.unregister("stream-a");
    reg.register("stream-b");
    assert!(!reg.is_cancelled("stream-b"));
}

#[test]
fn truncation_cuts_at_last_newline() {
    let mut text = "x".repeat(10);
    text.push('\n');
    text.push_str(&"y".repeat(8000));
    let out = truncate_result(&text);
    assert_eq!(out, format!("{}\n\n[... Output truncated. Showing 10/8011 characters. Consider using more specific queries or filters to reduce output size.]", "x".repeat(10)));
}

#[test]
fn truncation_without_newline_cuts_at_limit() {
    let text = "z".repeat(8001);
    let out = truncate_result(&text);
    assert!(out.starts_with(&"z".repeat(8000)));
    assert!(out.ends_with("Showing 8000/8001 characters. Consider using more specific queries or filters to reduce output size.]"));
}

#[test]
fn short_results_pass_through() {
    let text = "q".repeat(8000);
    assert_eq!(truncate_result(&text), text);
    assert_eq!(truncate_result(""), "");
}

#[test]
fn tool_failures_become_messages() {
    assert_eq!(tool_message_text("ls", &ToolOutcome::NoMapping), "Error: No client found for tool ls");
    assert_eq!(tool_message_text("ls", &ToolOutcome::NoClient("srv".to_string())), "Error: Client srv not found");
    assert_eq!(tool_message_text("ls", &ToolOutcome::Failed("RPC Error -1: bad".to_string())), "Error executing tool: RPC Error -1: bad");
    let res = CallToolResult {
        content: vec![
            Content::Text { text: "a".to_string() },
            Content::Image { data: "AA==".to_string(), mime_type: "image/png".to_string() },
            Content::Resource { uri: "file:///x".to_string(), mime_type: None, text: Some("b".to_string()), blob: None },
        ],
        is_error: false,
    };
    assert_eq!(tool_message_text("ls", &ToolOutcome::Done(res)), "a\nb");
}

#[test]
fn provider_base_urls_and_endpoints() {
    assert_eq!(config("a", ProviderType::Ollama, None, None).get_base_url(), "http://localhost:11434");
    assert_eq!(config("a", ProviderType::OpenAI, None, None).get_base_url(), "https://api.openai.com");
    assert_eq!(config("a", ProviderType::Anthropic, None, None).get_base_url(), "https://api.anthropic.com");
    assert_eq!(config("a", ProviderType::Google, None, None).get_base_url(), "https://generativelanguage.googleapis.com");
    assert_eq!(config("a", ProviderType::Other, None, Some("http://h")).get_base_url(), "http://h");
    assert_eq!(openai_endpoint("https://api.groq.com/openai/v1"), "https://api.groq.com/openai/v1/chat/completions");
    assert_eq!(openai_endpoint("https://api.openai.com"), "https://api.openai.com/v1/chat/completions");
    assert_eq!(google_endpoint("https://g", "m", "k"), "https://g/v1beta/models/m:streamGenerateContent?alt=sse&key=k");
    let d = ProviderConfig::ollama_default();
    assert_eq!(d.id, "local-default");
    assert_eq!(d.base_url.as_deref(), Some("http://localhost:11434"));
    assert_eq!(ProviderType::default(), ProviderType::Ollama);
}

#[test]
fn provider_list_operations() {
    let mut list = vec![ProviderConfig::ollama_default()];
    assert!(add_provider(&mut list, config("groq", ProviderType::Other, Some("k"), Some("https://api.groq.com/openai/v1"))).is_ok());
    assert_eq!(list.len(), 2);
    assert_eq!(
        add_provider(&mut list, config("groq", ProviderType::Other, None, None)),
        Err("Provider with ID 'groq' already exists".to_string())
    );
    assert_eq!(list.len(), 2);
    assert!(update_provider(&mut list, config("groq", ProviderType::OpenAI, None, None)).is_ok());
    assert_eq!(list[1].provider_type, ProviderType::OpenAI);
    assert_eq!(
        update_provider(&mut list, config("nope", ProviderType::OpenAI, None, None)),
        Err("Provider with ID 'nope' not found".to_string())
    );
    assert_eq!(check_can_activate(&list, "nope"), Err("Provider with ID 'nope' not found".to_string()));
    assert!(check_can_activate(&list, "groq").is_ok());
    let mut active = Some("groq".to_string());
    assert_eq!(active_provider(&list, &active).map(|c| c.id.clone()), Ok("groq".to_string()));
    assert!(delete_provider(&mut list, &mut active, "local-default").is_err());
    assert_eq!(list.len(), 2);
    assert!(delete_provider(&mut list, &mut active, "groq").is_ok());
    assert_eq!(list.len(), 1);
    assert_eq!(active.as_deref(), Some("local-default"));
    assert_eq!(active_provider(&list, &None).map(|c| c.id.clone()), Ok("local-default".to_string()));
    assert_eq!(active_provider(&list, &Some("gone".to_string())).map(|c| c.id.clone()), Err("Active provider not found".to_string()));
}

#[test]
fn json_rpc_messages() {
    let req = rpc_message(Some(7), "tools/list", None);
    assert_eq!(render_json(&req), "{\"id\":7,\"jsonrpc\":\"2.0\",\"method\":\"tools/list\"}");
    let note = rpc_message(None, "notifications/initialized", None);
    assert!(note.get("id").is_none());
    let init = initialize_params("Ollie", "0.2.1");
    assert_eq!(
        render_json(&init),
        "{\"capabilities\":{\"roots\":{\"listChanged\":false},\"sampling\":{}},\"clientInfo\":{\"name\":\"Ollie\",\"version\":\"0.2.1\"},\"protocolVersion\":\"2024-11-05\"}"
    );
    let mut ids = RequestIds::new();
    assert_eq!(ids.allocate(), Some(1));
    assert_eq!(ids.allocate(), Some(2));
    ids.next = u64::MAX;
    assert_eq!(ids.allocate(), None);
}

#[test]
fn replies_are_matched_by_id() {
    assert!(matches!(classify_reply(None, 1), Reply::Closed));
    assert!(matches!(classify_reply(parse_json("{\"jsonrpc\":\"2.0\",\"id\":2,\"result\":{}}"), 1), Reply::Skip));
    assert!(matches!(classify_reply(parse_json("{\"jsonrpc\":\"2.0\",\"method\":\"ping\"}"), 1), Reply::Skip));
    match classify_reply(parse_json("{\"jsonrpc\":\"2.0\",\"id\":1,\"result\":{\"ok\":true}}"), 1) {
        Reply::Result(v) => assert_eq!(render_json(&v), "{\"ok\":true}"),
        _ => panic!("result expected"),
    }
    match classify_reply(parse_json("{\"jsonrpc\":\"2.0\",\"id\":1}"), 1) {
        Reply::Result(v) => assert!(matches!(v, Json::Null)),
        _ => panic!("result expected"),
    }
    match classify_reply(parse_json("{\"jsonrpc\":\"2.0\",\"id\":1,\"error\":{\"code\":-32601,\"message\":\"no such method\"}}"), 1) {
        Reply::Failure(e) => {
            assert_eq!(e.code, -32601);
            assert_eq!(e.message, "no such method");
        }
        _ => panic!("failure expected"),
    }
}

#[test]
fn tool_lists_and_results_parse() {
    let tools = parse_tools(parse_json("{\"tools\":[{\"name\":\"ls\",\"description\":\"list\",\"inputSchema\":{\"type\":\"object\"}},{\"name\":\"rm\"}]}").unwrap()).unwrap();
    assert_eq!(tools.len(), 2);
    assert_eq!(tools[0].name, "ls");
    assert_eq!(tools[0].description.as_deref(), Some("list"));
    assert_eq!(render_json(&tools[0].input_schema), "{\"type\":\"object\"}");
    assert!(matches!(tools[1].input_schema, Json::Null));
    assert!(parse_tools(parse_json("{\"tools\":[{\"description\":\"x\"}]}").unwrap()).is_err());
    assert!(parse_tools(parse_json("{}").unwrap()).is_err());

    let res = parse_call_result(&parse_json("{\"content\":[{\"type\":\"text\",\"text\":\"a\"},{\"type\":\"resource\",\"uri\":\"u\",\"text\":\"b\"}],\"isError\":true}").unwrap()).unwrap();
    assert_eq!(res.content.len(), 2);
    assert!(res.is_error);
    assert_eq!(res.content[0], Content::Text { text: "a".to_string() });
    let plain = parse_call_result(&parse_json("{\"content\":[]}").unwrap()).unwrap();
    assert!(!plain.is_error);
    assert!(parse_call_result(&parse_json("{\"content\":[{\"type\":\"video\"}]}").unwrap()).is_err());
    assert!(parse_call_result(&parse_json("{}").unwrap()).is_err());
}

#[test]
fn catalog_offers_tools_without_schema_key() {
    let mut cat = ToolCatalog::new();
    assert!(cat.offered().is_none());
    let schema = parse_json("{\"$schema\":\"http://json-schema.org/draft-07/schema#\",\"type\":\"object\"}").unwrap();
    cat.add_server("a", vec![Tool { name: "ls".to_string(), description: Some("list".to_string()), input_schema: schema }]);
    cat.add_server("b", vec![Tool { name: "ls".to_string(), description: None, input_schema: Json::Null }]);
    let offered = cat.offered().unwrap();
    assert_eq!(offered.len(), 2);
    assert_eq!(
        render_json(&offered[0]),
        "{\"function\":{\"description\":\"list\",\"name\":\"ls\",\"parameters\":{\"type\":\"object\"}},\"type\":\"function\"}"
    );
    assert_eq!(cat.client_for("ls").map(|s| s.as_str()), Some("b"));
    assert!(cat.client_for("rm").is_none());
}

#[test]
fn sse_session_discovers_endpoint() {
    let mut s = SseSession::new();
    assert_eq!(s.target(), Err("no endpoint discovered".to_string()));
    assert_eq!(s.on_event("endpoint", "  http://host/messages?session=1 \n").map(|v| v.is_none()), Ok(true));
    assert_eq!(s.target().map(|u| u.clone()), Ok("http://host/messages?session=1".to_string()));
    let v = s.on_event("message", "{\"id\":1}").ok().flatten().unwrap();
    assert_eq!(render_json(&v), "{\"id\":1}");
    assert_eq!(s.on_event("message", "not json").map(|v| v.is_none()), Err("Failed to parse JSON".to_string()));
}

#[test]
fn requests_are_prepared_per_provider() {
    let msgs = || vec![
        ChatMessage::plain("system".to_string(), "be brief".to_string()),
        ChatMessage::plain("user".to_string(), "hi".to_string()),
    ];
    let tools = || Some(vec![parse_json("{\"type\":\"function\",\"function\":{\"name\":\"ls\",\"description\":\"d\",\"parameters\":{}}}").unwrap()]);

    let o = OllamaProvider.prepare(&ProviderConfig::ollama_default(), "m", msgs(), tools(), None);
    assert_eq!(o.url, "http://localhost:11434/api/chat");
    let body = render_json(&o.body);
    assert!(body.contains("be brief\\nYou have access to tools/functions."));
    assert!(body.contains("\"tools\":["));
    let plain = OllamaProvider.prepare_without_tools(&ProviderConfig::ollama_default(), "m", msgs(), None);
    assert!(!render_json(&plain.body).contains("tools"));

    let oa = OpenAIProvider.prepare(&config("o", ProviderType::OpenAI, Some("sk"), None), "gpt", msgs(), tools(), None);
    assert_eq!(oa.url, "https://api.openai.com/v1/chat/completions");
    assert_eq!(oa.headers[0], ("Authorization".to_string(), "Bearer sk".to_string()));
    match oa.body.get("messages") {
        Some(Json::Array(ms)) => {
            assert_eq!(ms.len(), 3);
            assert!(matches!(ms[1].get("role"), Some(Json::Str(r)) if r == "system"));
            assert!(matches!(ms[2].get("role"), Some(Json::Str(r)) if r == "user"));
        }
        _ => panic!("messages expected"),
    }
    let anon = OpenAIProvider.prepare(&config("o", ProviderType::Other, None, Some("http://x/v1")), "m", msgs(), None, None);
    assert_eq!(anon.url, "http://x/v1/chat/completions");
    assert_eq!(anon.headers.len(), 1);

    assert_eq!(
        AnthropicProvider.prepare(&config("a", ProviderType::Anthropic, None, None), "c", msgs(), None, None).err(),
        Some("Anthropic API key is required".to_string())
    );
    let a = AnthropicProvider.prepare(&config("a", ProviderType::Anthropic, Some("k"), None), "c", msgs(), tools(), None).ok().unwrap();
    assert_eq!(a.url, "https://api.anthropic.com/v1/messages");
    let ab = render_json(&a.body);
    assert!(ab.contains("\"system\":\"be brief\""));
    assert!(ab.contains("\"max_tokens\":4096"));
    assert!(ab.contains("\"input_schema\":{}"));

    assert_eq!(
        GoogleProvider.prepare(&config("g", ProviderType::Google, None, None), "gm", msgs(), None, None).err(),
        Some("Google API key is required".to_string())
    );
    let g = GoogleProvider.prepare(&config("g", ProviderType::Google, Some("k"), None), "gm", msgs(), tools(), None).ok().unwrap();
    assert_eq!(g.url, "https://generativelanguage.googleapis.com/v1beta/models/gm:streamGenerateContent?alt=sse&key=k");
    let gb = render_json(&g.body);
    assert!(gb.contains("\"systemInstruction\":{\"parts\":[{\"text\":\"be brief\"}],\"role\":\"user\"}"));
    assert!(gb.contains("\"functionDeclarations\":[{\"description\":\"d\",\"name\":\"ls\",\"parameters\":{}}]"));
}

#[test]
fn tool_fallback_decision() {
    assert!(needs_tool_fallback(true, "{\"error\":\"registry.ollama.ai/library/gemma does not support tools\"}"));
    assert!(!needs_tool_fallback(false, "does not support tools"));
    assert!(!needs_tool_fallback(true, "model not found"));
    assert_eq!(
        tools_unsupported_warning("gemma"),
        "**Note:** The model `gemma` does not support MCP tools. Continuing without tool access.\n\n"
    );
}

#[test]
fn wrappers_transform_their_input() {
    assert_eq!(data_payload(&[b'd', b'a', b't', b'a', b':', b' ', 0x68, 0xFF, 0x69]), Some("h\u{FFFD}i".to_string()));
    assert_eq!(data_payload(b"  data: {\"a\":1}\r"), Some("{\"a\":1}".to_string()));
    assert_eq!(data_payload(b"event: endpoint"), None);
    let v = parse_json(" { \"b\" : [1, -2, 1.5, null, true] } ").unwrap();
    assert_eq!(render_json(&v), "{\"b\":[1,-2,1.5,null,true]}");
    assert!(parse_json("{").is_none());
    let copy = v.duplicate();
    assert_eq!(render_json(&copy), render_json(&v));
}

#[test]
fn sse_event_names_apply_to_the_next_payload() {
    let mut r = SseReader::new();
    assert!(r.on_line(b"event: endpoint").is_none());
    assert_eq!(r.event.as_deref(), Some("endpoint"));
    let d = r.on_line(b"data: /messages?id=1\r").unwrap();
    assert_eq!(d.event.as_deref(), Some("endpoint"));
    assert_eq!(d.data, "/messages?id=1");
    let d = r.on_line(b"data: [DONE]").unwrap();
    assert!(d.event.is_none());
    assert_eq!(d.data, "[DONE]");
    assert!(r.on_line(b"").is_none());
    assert!(r.on_line(b": comment").is_none());
}

fn event_texts(events: &[ProviderEvent]) -> Vec<String> {
    events
        .iter()
        .map(|e| match e {
            ProviderEvent::Content(s) => format!("content:{}", s),
            ProviderEvent::ToolCall(j) => format!("call:{}", render_json(j)),
            ProviderEvent::Usage(u) => format!("usage:{:?}/{:?}/{:?}", u.prompt_tokens, u.completion_tokens, u.total_tokens),
            ProviderEvent::Error(m) => format!("error:{}", m),
        })
        .collect()
}

#[test]
fn openai_chunk_without_choices_is_skipped() {
    let mut s = OpenAIStream::new();
    assert!(s.process_data_line("{\"usage\":{\"prompt_tokens\":1,\"completion_tokens\":2,\"total_tokens\":3}}").is_empty());
}

#[test]
fn openai_finish_reason_flushes_in_index_order() {
    let mut s = OpenAIStream::new();
    assert!(s.process_data_line("{\"choices\":[{\"delta\":{\"tool_calls\":[{\"index\":1,\"id\":\"b\",\"function\":{\"name\":\"w\",\"arguments\":\"{}\"}},{\"index\":0,\"id\":\"a\",\"function\":{\"name\":\"r\",\"arguments\":\"[\"}}]}}]}").is_empty());
    let events = s.process_data_line("{\"choices\":[{\"delta\":{\"content\":\"x\",\"tool_calls\":[{\"index\":0,\"function\":{\"arguments\":\"]\"}}]},\"finish_reason\":\"tool_calls\"}]}");
    assert_eq!(events.len(), 3);
    assert!(matches!(&events[0], ProviderEvent::Content(c) if c == "x"));
    match (&events[1], &events[2]) {
        (ProviderEvent::ToolCall(a), ProviderEvent::ToolCall(b)) => {
            assert_eq!(call_fields(a), ("a".to_string(), "r".to_string(), "[]".to_string()));
            assert_eq!(call_fields(b), ("b".to_string(), "w".to_string(), "{}".to_string()));
        }
        _ => panic!("two calls expected"),
    }
    assert!(s.process_data_line("[DONE]").is_empty());
}

#[test]
fn unicode_white_space_is_trimmed() {
    let line = "\u{a0}data: {\"a\":1}\u{3000}".as_bytes();
    assert_eq!(data_payload(line), Some("{\"a\":1}".to_string()));
}

fn chunkings(body: &[u8]) -> Vec<Vec<&[u8]>> {
    let mut out = vec![vec![body]];
    for cut in 1..body.len() {
        out.push(vec![&body[..cut], &body[cut..]]);
    }
    out.push(body.chunks(1).collect());
    out.push(body.chunks(7).collect());
    out
}

#[test]
fn sse_adapters_do_not_depend_on_chunking() {
    let openai = "data: {\"choices\":[{\"delta\":{\"content\":\"h\u{e9}\"}}]}\n\ndata: {\"choices\":[{\"delta\":{\"tool_calls\":[{\"index\":0,\"id\":\"c\",\"function\":{\"name\":\"f\",\"arguments\":\"{}\"}}]},\"finish_reason\":\"stop\"}]}\ndata: [DONE]";
    let mut expected = None;
    for cs in chunkings(openai.as_bytes()) {
        let mut r = OpenAIBody::new();
        let mut ev = Vec::new();
        for c in cs {
            ev.extend(r.feed(c));
        }
        ev.extend(r.finish());
        let t = event_texts(&ev);
        assert_eq!(t.len(), 2);
        match &expected {
            None => expected = Some(t),
            Some(e) => assert_eq!(&t, e),
        }
    }
    let anthropic = "event: content_block_delta\ndata: {\"type\":\"content_block_delta\",\"delta\":{\"text\":\"\u{e9}t\u{e9}\"}}\n\nevent: message_stop\ndata: {\"type\":\"message_stop\"}\n";
    let mut expected = None;
    for cs in chunkings(anthropic.as_bytes()) {
        let mut r = AnthropicBody::new();
        let mut ev = Vec::new();
        for c in cs {
            ev.extend(r.feed(c));
        }
        ev.extend(r.finish());
        let t = event_texts(&ev);
        assert_eq!(t[0], "content:\u{e9}t\u{e9}");
        match &expected {
            None => expected = Some(t),
            Some(e) => assert_eq!(&t, e),
        }
    }
    let google = "data: {\"candidates\":[{\"content\":{\"parts\":[{\"text\":\"a\u{e9}\"}]}}]}\r\n\r\ndata: {\"candidates\":[{\"content\":{\"parts\":[{\"text\":\"b\"}]}}]}";
    let mut expected = None;
    for cs in chunkings(google.as_bytes()) {
        let mut r = GoogleStream::new();
        let mut ev = Vec::new();
        for c in cs {
            ev.extend(r.feed(c));
        }
        ev.extend(r.finish());
        let t = event_texts(&ev);
        assert_eq!(t, vec!["content:a\u{e9}".to_string(), "content:b".to_string()]);
        match &expected {
            None => expected = Some(t),
            Some(e) => assert_eq!(&t, e),
        }
    }
}

#[test]
fn request_bodies_hold_tools_and_options() {
    let msgs = || vec![ChatMessage::plain("user".to_string(), "hi".to_string())];
    let tools = || Some(vec![parse_json("{\"type\":\"function\",\"function\":{\"name\":\"ls\",\"description\":\"d\",\"parameters\":{\"type\":\"object\"}}}").unwrap()]);
    let opts = || Some(ollie::message::ChatOptions { temperature: Some("0.5".to_string()), top_k: Some(3), top_p: None, max_tokens: Some(64) });

    let o = OllamaProvider.prepare(&ProviderConfig::ollama_default(), "m", msgs(), tools(), opts());
    let body = render_json(&o.body);
    assert!(body.contains("\"options\":{\"num_predict\":64,\"temperature\":0.5,\"top_k\":3}"));
    assert!(body.contains("\"stream\":true"));
    assert!(body.contains("\"tools\":[{\"function\":{\"description\":\"d\",\"name\":\"ls\",\"parameters\":{\"type\":\"object\"}},\"type\":\"function\"}]"));
    let retry = OllamaProvider.prepare_without_tools(&ProviderConfig::ollama_default(), "m", msgs(), opts());
    assert_eq!(
        render_json(&retry.body),
        "{\"messages\":[{\"content\":\"hi\",\"role\":\"user\"}],\"model\":\"m\",\"options\":{\"num_predict\":64,\"temperature\":0.5,\"top_k\":3},\"stream\":true}"
    );

    let a = AnthropicProvider.prepare(&config("a", ProviderType::Anthropic, Some("k"), None), "c", msgs(), tools(), opts()).ok().unwrap();
    let ab = render_json(&a.body);
    assert!(ab.contains("\"tools\":[{\"description\":\"d\",\"input_schema\":{\"type\":\"object\"},\"name\":\"ls\"}]"));
    assert!(ab.contains("\"max_tokens\":64"));
    assert!(ab.contains("\"temperature\":0.5"));
    let none = AnthropicProvider.prepare(&config("a", ProviderType::Anthropic, Some("k"), None), "c", msgs(), None, None).ok().unwrap();
    assert!(!render_json(&none.body).contains("tools"));

    let oa = OpenAIProvider.prepare(&config("o", ProviderType::OpenAI, None, None), "g", msgs(), None, opts());
    let ob = render_json(&oa.body);
    assert!(!ob.contains("tools"));
    assert!(ob.contains("\"max_tokens\":64"));

    let g = GoogleProvider.prepare(&config("g", ProviderType::Google, Some("k"), None), "gm", msgs(), None, opts()).ok().unwrap();
    assert!(render_json(&g.body).contains("\"generationConfig\":{\"maxOutputTokens\":64,\"temperature\":0.5}"));
}

#[test]
fn default_provider_is_restored() {
    let mut list = vec![config("x", ProviderType::OpenAI, None, None)];
    let mut active = None;
    ensure_default_provider(&mut list, &mut active);
    assert_eq!(list.len(), 2);
    assert_eq!(list[0].id, "local-default");
    assert_eq!(active.as_deref(), Some("local-default"));
    let mut active = Some("x".to_string());
    ensure_default_provider(&mut list, &mut active);
    assert_eq!(list.len(), 2);
    assert_eq!(active.as_deref(), Some("x"));
}

#[test]
fn duplicated_messages_keep_their_fields() {
    let mut m = ChatMessage::plain("assistant".to_string(), "t".to_string());
    m.tool_calls = Some(vec![parse_json("{\"id\":\"c\"}").unwrap()]);
    m.images = Some(vec!["AA==".to_string()]);
    let d = m.duplicate();
    assert_eq!(d.role, "assistant");
    assert_eq!(d.images, m.images);
    assert_eq!(render_json(&d.tool_calls.unwrap()[0]), "{\"id\":\"c\"}");
}
