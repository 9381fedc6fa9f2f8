use ollie::anthropic::AnthropicStream;
use ollie::events::ProviderEvent;
use ollie::google;
use ollie::json::{parse_json, render_json, Json};
use ollie::lines::{data_payload, LineReader};
use ollie::mcp::ToolCatalog;
use ollie::message::ChatMessage;
use ollie::ollama::OllamaStream;
use ollie::openai::OpenAIStream;
use ollie::orchestrator::{Conversation, Ending, ToolOutcome, UiEvent};
use ollie::protocol::{CallToolResult, Content, Tool};

fn text_of(j: &Json, key: &str) -> Option<String> {
    match j.get(key) {
        Some(Json::Str(s)) => Some(s.clone()),
        _ => None,
    }
}

fn function_text(j: &Json, key: &str) -> Option<String> {
    match j.get("function") {
        Some(f) => text_of(f, key),
        None => None,
    }
}

fn contents(events: &[ProviderEvent]) -> Vec<String> {
    events
        .iter()
        .filter_map(|e| match e {
            ProviderEvent::Content(s) => Some(s.clone()),
            _ => None,
        })
        .collect()
}

fn sse_events(stream: &mut OpenAIStream, body: &str) -> Vec<ProviderEvent> {
    let mut reader = LineReader::new();
    let mut out = Vec::new();
    for line in reader.feed(body.as_bytes()) {
        if let Some(data) = data_payload(&line) {
            out.extend(stream.process_data_line(&data));
        }
    }
    out
}

#[test]
fn local_stream_two_chunks() {
    let body = "{\"message\":{\"content\":\"Hel\"},\"done\":false}\n{\"message\":{\"content\":\"lo\"},\"done\":true,\"prompt_eval_count\":3,\"eval_count\":2}\n";
    let mut stream = OllamaStream::new();
    let mut events = stream.feed(body.as_bytes());
    events.extend(stream.finish());
    assert_eq!(contents(&events), vec!["Hel".to_string(), "lo".to_string()]);
    match events.last() {
        Some(ProviderEvent::Usage(u)) => {
            assert_eq!(u.prompt_tokens, Some(3));
            assert_eq!(u.completion_tokens, Some(2));
            assert_eq!(u.total_tokens, Some(5));
        }
        _ => panic!("usage expected last"),
    }

    let (mut conv, start) = Conversation::start(vec![ChatMessage::plain("user".to_string(), "hi".to_string())]);
    assert!(matches!(start, UiEvent::StreamStart));
    let (invoke, shown) = conv.begin_turn(false);
    assert!(invoke);
    assert!(shown.is_none());
    let mut ui = Vec::new();
    for e in events {
        if let Some(x) = conv.on_event(e, false) {
            ui.push(x);
        }
    }
    let (end, requests) = conv.end_turn(false);
    assert!(requests.is_empty());
    ui.extend(end);
    assert_eq!(ui.len(), 4);
    assert!(matches!(&ui[0], UiEvent::Chunk { content, done: false } if content == "Hel"));
    assert!(matches!(&ui[1], UiEvent::Chunk { content, done: false } if content == "lo"));
    assert!(matches!(&ui[2], UiEvent::Chunk { content, done: true } if content.is_empty()));
    assert!(matches!(&ui[3], UiEvent::Complete));
    assert!(matches!(conv.outcome(), Some(Ending::Completed)));
}

#[test]
fn openai_single_tool_call_two_deltas() {
    let body = [
        "data: {\"choices\":[{\"delta\":{\"tool_calls\":[{\"index\":0,\"id\":\"c1\",\"function\":{\"name\":\"ls\",\"arguments\":\"{\\\"p\\\"\"}}]}}]}\n",
        "data: {\"choices\":[{\"delta\":{\"tool_calls\":[{\"index\":0,\"function\":{\"arguments\":\":\\\"/\\\"}\"}}]},\"finish_reason\":\"tool_calls\"}]}\n",
        "data: [DONE]\n",
    ]
    .join("");
    let mut stream = OpenAIStream::new();
    let events = sse_events(&mut stream, &body);
    assert_eq!(events.len(), 1);
    let call = match &events[0] {
        ProviderEvent::ToolCall(c) => c,
        _ => panic!("tool call expected"),
    };
    assert_eq!(text_of(call, "id").as_deref(), Some("c1"));
    assert_eq!(function_text(call, "name").as_deref(), Some("ls"));
    assert_eq!(function_text(call, "arguments").as_deref(), Some("{\"p\":\"/\"}"));

    let mut catalog = ToolCatalog::new();
    let schema = parse_json("{\"type\":\"object\"}").unwrap();
    catalog.add_server("srv1", vec![Tool { name: "ls".to_string(), description: None, input_schema: schema }]);

    let (mut conv, _) = Conversation::start(vec![ChatMessage::plain("user".to_string(), "list".to_string())]);
    assert!(conv.begin_turn(false).0);
    for e in events {
        assert!(conv.on_event(e, false).is_none());
    }
    let (shown, requests) = conv.end_turn(false);
    assert!(shown.is_empty());
    assert_eq!(requests.len(), 1);
    let req = &requests[0];
    assert_eq!(req.name, "ls");
    assert_eq!(req.call_id, "c1");
    assert_eq!(render_json(&req.arguments), "{\"p\":\"/\"}");
    assert_eq!(catalog.client_for("ls").map(|s| s.as_str()), Some("srv1"));

    let start = conv.announce(req.name.clone(), req.arguments.duplicate());
    assert!(matches!(&start, UiEvent::ToolStart { tool, args } if tool == "ls" && render_json(args) == "{\"p\":\"/\"}"));
    let outcome = ToolOutcome::Done(CallToolResult {
        content: vec![Content::Text { text: "a\nb\n".to_string() }],
        is_error: false,
    });
    conv.record_tool_result(req.call_id.clone(), &req.name, &outcome);

    let history = conv.messages();
    assert_eq!(history.len(), 3);
    assert_eq!(history[1].role, "assistant");
    assert_eq!(history[1].content, "");
    let calls = history[1].tool_calls.as_ref().unwrap();
    assert_eq!(calls.len(), 1);
    assert_eq!(text_of(&calls[0], "id").as_deref(), Some("c1"));
    assert_eq!(history[2].role, "tool");
    assert_eq!(history[2].content, "a\nb\n");
    assert_eq!(history[2].tool_call_id.as_deref(), Some("c1"));

    assert!(conv.begin_turn(false).0);
    let shown = conv.on_event(ProviderEvent::Content("done".to_string()), false);
    assert!(matches!(shown, Some(UiEvent::Chunk { ref content, done: false }) if content == "done"));
    let (end, requests) = conv.end_turn(false);
    assert!(requests.is_empty());
    assert_eq!(end.len(), 2);
    assert!(matches!(&end[0], UiEvent::Chunk { content, done: true } if content.is_empty()));
    assert!(matches!(&end[1], UiEvent::Complete));
}

#[test]
fn anthropic_tool_use_block() {
    let lines = [
        "{\"type\":\"message_start\",\"usage\":{\"input_tokens\":4}}",
        "{\"type\":\"content_block_start\",\"content_block\":{\"type\":\"tool_use\",\"id\":\"t1\",\"name\":\"search\"}}",
        "{\"type\":\"content_block_delta\",\"delta\":{\"partial_json\":\"{\\\"q\\\":\\\"x\"}}",
        "{\"type\":\"content_block_delta\",\"delta\":{\"partial_json\":\"\\\"}\"}}",
        "{\"type\":\"content_block_stop\"}",
        "{\"type\":\"message_delta\",\"usage\":{\"output_tokens\":5}}",
        "{\"type\":\"message_stop\"}",
    ];
    let mut stream = AnthropicStream::new();
    let mut events = Vec::new();
    for l in lines.iter() {
        events.extend(stream.process_data_line(l));
    }
    assert_eq!(events.len(), 2);
    match &events[0] {
        ProviderEvent::ToolCall(c) => {
            assert_eq!(text_of(c, "id").as_deref(), Some("t1"));
            assert_eq!(text_of(c, "type").as_deref(), Some("function"));
            assert_eq!(function_text(c, "name").as_deref(), Some("search"));
            assert_eq!(function_text(c, "arguments").as_deref(), Some("{\"q\":\"x\"}"));
        }
        _ => panic!("tool call expected"),
    }
    match &events[1] {
        ProviderEvent::Usage(u) => {
            assert_eq!(u.prompt_tokens, Some(4));
            assert_eq!(u.completion_tokens, Some(5));
            assert_eq!(u.total_tokens, Some(9));
        }
        _ => panic!("usage expected"),
    }
}

#[test]
fn google_text_and_function_call() {
    let data = "{\"candidates\":[{\"content\":{\"role\":\"model\",\"parts\":[{\"text\":\"hi\"},{\"functionCall\":{\"name\":\"t\",\"args\":{\"a\":1}}}]}}]}";
    let events = google::process_data_line(data);
    assert_eq!(events.len(), 2);
    assert!(matches!(&events[0], ProviderEvent::Content(s) if s == "hi"));
    match &events[1] {
        ProviderEvent::ToolCall(c) => {
            assert_eq!(text_of(c, "id").as_deref(), Some("t"));
            assert_eq!(function_text(c, "name").as_deref(), Some("t"));
            assert_eq!(function_text(c, "arguments").as_deref(), Some("{\"a\":1}"));
        }
        _ => panic!("tool call expected"),
    }
}

#[test]
fn cancellation_after_first_chunk() {
    let (mut conv, start) = Conversation::start(Vec::new());
    let mut ui = vec![start];
    assert!(conv.begin_turn(false).0);
    let mut cancelled = false;
    for s in ["a", "b", "c"] {
        if let Some(e) = conv.on_event(ProviderEvent::Content(s.to_string()), cancelled) {
            ui.push(e);
        }
        cancelled = true;
    }
    let (end, _) = conv.end_turn(true);
    ui.extend(end);
    assert_eq!(ui.len(), 3);
    assert!(matches!(&ui[0], UiEvent::StreamStart));
    assert!(matches!(&ui[1], UiEvent::Chunk { content, .. } if content == "a"));
    assert!(matches!(&ui[2], UiEvent::Cancelled));
    assert!(matches!(conv.outcome(), Some(Ending::Cancelled)));
}

#[test]
fn groq_failed_generation_repaired() {
    let data = "{\"error\":{\"code\":\"tool_use_failed\",\"failed_generation\":\"<function=ls{\\\"p\\\":\\\"/\\\"}></function>\"}}";
    let mut stream = OpenAIStream::new();
    let events = stream.process_data_line(data);
    assert_eq!(events.len(), 1);
    match &events[0] {
        ProviderEvent::ToolCall(c) => {
            assert_eq!(function_text(c, "name").as_deref(), Some("ls"));
            assert_eq!(function_text(c, "arguments").as_deref(), Some("{\"p\":\"/\"}"));
            assert!(text_of(c, "id").unwrap().starts_with("groq_call_"));
            assert!(text_of(c, "id").unwrap().len() > "groq_call_".len());
        }
        _ => panic!("tool call expected"),
    }
}
