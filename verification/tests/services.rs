use kota::endpoints::{api_base, bigquery_insert_url, chat_completions_url, vertex_stream_url};
use kota::llm::{
    is_done_marker, Message, SseBuffer, StreamAccumulator, StreamChoice, StreamChunk, StreamDelta,
    StreamEvent, StreamToolCall, StreamToolCallFunction,
};
use kota::mcp::{tool_output, ContentBlock, McpRegistry, McpTool};
use kota::monitor::{bandwidth_spike, traffic_totals, PowerState};
use kota::vertex::{chunk_events, chunk_events_with_ids, gemini_request, GeminiPart, StreamedCall, StreamedPart};

fn tool(name: &str) -> McpTool {
    McpTool { name: name.to_string(), description: "d".to_string(), input_schema: "{}".to_string() }
}

#[test]
fn registry_routes_tools_to_servers() {
    let mut r = McpRegistry::new();
    r.register("fs", tool("read"));
    r.register("web", tool("fetch"));
    r.register("fs2", tool("read"));
    assert!(r.has_tool("read"));
    assert_eq!(r.server_of("read").as_deref(), Some("fs2"));
    assert_eq!(r.route("fetch").unwrap(), "web");
    assert_eq!(r.route("nope").unwrap_err(), "Unknown MCP tool: nope");
    let names: Vec<String> = r.list_all_tools().into_iter().map(|t| t.name).collect();
    assert_eq!(names, vec!["read", "fetch"]);
}

#[test]
fn tool_output_joins_text_blocks() {
    let blocks = vec![
        ContentBlock { kind: Some("text".to_string()), text: Some("a".to_string()) },
        ContentBlock { kind: Some("image".to_string()), text: Some("x".to_string()) },
        ContentBlock { kind: Some("text".to_string()), text: Some("b".to_string()) },
    ];
    assert_eq!(tool_output(&Some(blocks)).unwrap(), "a\nb");
    assert_eq!(
        tool_output(&None).unwrap_err(),
        "Invalid response format from tool call (missing content array)"
    );
}

#[test]
fn urls() {
    assert_eq!(api_base("http://h/v1//"), "http://h/v1");
    assert_eq!(chat_completions_url("http://h/v1"), "http://h/v1/chat/completions");
    assert_eq!(
        vertex_stream_url("us-central1", "p", "m"),
        "https://us-central1-aiplatform.googleapis.com/v1/projects/p/locations/us-central1/publishers/google/models/m:streamGenerateContent?alt=sse"
    );
    assert_eq!(
        bigquery_insert_url("p", "d", "t"),
        "https://bigquery.googleapis.com/bigquery/v2/projects/p/datasets/d/tables/t/insertAll"
    );
}

#[test]
fn monitors() {
    assert_eq!(traffic_totals(&vec![(1, 2), (3, 4)]), Some((4, 6)));
    assert_eq!(traffic_totals(&vec![(u64::MAX, 0), (1, 0)]), None);
    assert!(bandwidth_spike(64_000_001));
    assert!(!bandwidth_spike(64_000_000));
    let mut p = PowerState::new();
    p.on_event(true, false);
    let t = p.tick();
    assert!(t.reset_energy && t.accumulate);
    let t = p.tick();
    assert!(!t.reset_energy && t.accumulate);
    p.on_event(false, true);
    let t = p.tick();
    assert!(!t.accumulate);
}

#[test]
fn sse_lines_become_payloads() {
    let mut b = SseBuffer::new();
    b.push_text(": comment\n\ndata: {\"a\":1}\r\ndata: [DO");
    assert_eq!(b.next_payload().as_deref(), Some("{\"a\":1}"));
    assert_eq!(b.next_payload(), None);
    b.push_text("NE]\n");
    let p = b.next_payload().unwrap();
    assert!(is_done_marker(&p));
}

fn msg(role: &str, content: Option<&str>) -> Message {
    Message { role: role.to_string(), content: content.map(|c| c.to_string()), tool_calls: None, tool_call_id: None }
}

#[test]
fn gemini_contents_and_instruction() {
    let mut tool_msg = msg("tool", Some("out"));
    tool_msg.tool_call_id = Some("c1".to_string());
    let r = gemini_request(&vec![msg("system", Some("You are Antigravity, an agent")), msg("assistant", Some("hi")), tool_msg]);
    assert!(matches!(r.system_instruction, Some(GeminiPart::Text(ref t)) if t == "You are Antigravity, an agent"));
    assert_eq!(r.contents.len(), 2);
    assert_eq!(r.contents[0].role, "model");
    assert_eq!(r.contents[1].role, "function");
    assert!(matches!(r.contents[1].parts[0], GeminiPart::FunctionResponse { ref name, ref content } if name == "c1" && content == "out"));
    let r2 = gemini_request(&vec![msg("system", Some("You are Kota.")), msg("user", None)]);
    assert!(r2.system_instruction.is_none());
    assert_eq!(r2.contents.len(), 2);
    assert_eq!(r2.contents[0].role, "user");
    assert!(r2.contents[1].parts.is_empty());
}

#[test]
fn gemini_chunk_events() {
    let parts = vec![
        StreamedPart { text: Some("Hel".to_string()), call: None },
        StreamedPart { text: Some("".to_string()), call: Some(StreamedCall { name: Some("read_file".to_string()), args: "{\"path\":\"a\"}".to_string() }) },
        StreamedPart { text: None, call: Some(StreamedCall { name: None, args: "null".to_string() }) },
    ];
    let ev = chunk_events_with_ids(&parts, &vec!["id-1".to_string()]);
    assert_eq!(ev.len(), 2);
    assert!(matches!(ev[0], StreamEvent::Content(ref t) if t == "Hel"));
    assert!(matches!(ev[1], StreamEvent::ToolCall { ref id, ref name, ref arguments } if id == "id-1" && name == "read_file" && arguments == "{\"path\":\"a\"}"));
    let ev2 = chunk_events(&parts);
    match &ev2[1] {
        StreamEvent::ToolCall { id, .. } => assert_eq!(id.len(), 36),
        other => panic!("unexpected {:?}", other),
    }
}

/// Pushes `pieces` one after another, draining the buffer after each push.
fn payloads_of(pieces: &[&str]) -> (Vec<String>, String) {
    let mut b = SseBuffer::new();
    let mut out = Vec::new();
    for p in pieces {
        b.push_text(p);
        while let Some(d) = b.next_payload() {
            out.push(d);
        }
    }
    (out, b.buffer.iter().collect())
}

#[test]
fn sse_payloads_do_not_depend_on_how_text_arrives() {
    let stream = "event: x\ndata: {\"a\":1}\n\n: ping\ndata: two\r\ndata: [DONE]\ndata: par";
    let whole = payloads_of(&[stream]);
    assert_eq!(whole.0, vec!["{\"a\":1}", "two", "[DONE]"]);
    assert_eq!(whole.1, "data: par");
    let chars: Vec<char> = stream.chars().collect();
    for cut in 0..=chars.len() {
        let a: String = chars[..cut].iter().collect();
        let b: String = chars[cut..].iter().collect();
        assert_eq!(payloads_of(&[&a, &b]), whole);
    }
    let pieces: Vec<String> = chars.iter().map(|c| c.to_string()).collect();
    let refs: Vec<&str> = pieces.iter().map(|s| s.as_str()).collect();
    assert_eq!(payloads_of(&refs), whole);
}

fn delta_chunk(
    content: Option<&str>,
    reasoning: Option<&str>,
    call: Option<(Option<&str>, Option<&str>, Option<&str>)>,
    finish: Option<&str>,
) -> StreamChunk {
    StreamChunk {
        choices: vec![StreamChoice {
            delta: StreamDelta {
                content: content.map(|s| s.to_string()),
                reasoning_content: reasoning.map(|s| s.to_string()),
                tool_calls: call.map(|(id, name, args)| {
                    vec![StreamToolCall {
                        index: Some(0),
                        id: id.map(|s| s.to_string()),
                        call_type: None,
                        function: Some(StreamToolCallFunction {
                            name: name.map(|s| s.to_string()),
                            arguments: args.map(|s| s.to_string()),
                        }),
                    }]
                }),
            },
            finish_reason: finish.map(|s| s.to_string()),
        }],
    }
}

fn describe(events: &[StreamEvent]) -> Vec<String> {
    events
        .iter()
        .map(|e| match e {
            StreamEvent::Content(t) => format!("content:{}", t),
            StreamEvent::Thinking(t) => format!("thinking:{}", t),
            StreamEvent::ToolCall { id, name, arguments } => format!("call:{}:{}:{}", id, name, arguments),
            StreamEvent::Done => "done".to_string(),
        })
        .collect()
}

#[test]
fn tool_call_arguments_arrive_in_fragments() {
    let mut acc = StreamAccumulator::new();
    let mut events = Vec::new();
    events.extend(acc.on_chunk(&delta_chunk(Some("Let me look."), Some("hmm"), None, None)));
    events.extend(acc.on_chunk(&delta_chunk(Some(""), None, Some((Some("c1"), Some("read_"), Some("{\"pa"))), None)));
    events.extend(acc.on_chunk(&delta_chunk(None, None, Some((None, Some("file"), Some("th\": "))), None)));
    events.extend(acc.on_chunk(&delta_chunk(None, None, Some((None, None, Some("\"a.rs\"}"))), None)));
    // A new id closes the first call.
    events.extend(acc.on_chunk(&delta_chunk(None, None, Some((Some("c2"), Some("list_dir"), Some("{}"))), None)));
    events.extend(acc.on_chunk(&delta_chunk(None, None, None, Some("tool_calls"))));
    events.extend(acc.on_done());
    assert_eq!(
        describe(&events),
        vec![
            "content:Let me look.",
            "thinking:hmm",
            "call:c1:read_file:{\"path\": \"a.rs\"}",
            "call:c2:list_dir:{}",
            "done",
        ]
    );
}

#[test]
fn open_call_is_flushed_at_done() {
    let mut acc = StreamAccumulator::new();
    let mut events = acc.on_chunk(&delta_chunk(None, None, Some((Some("x"), Some("search"), Some("{}"))), None));
    assert!(events.is_empty());
    events.extend(acc.on_done());
    assert_eq!(describe(&events), vec!["call:x:search:{}", "done"]);
    // A call without a name is never emitted.
    let mut acc = StreamAccumulator::new();
    acc.on_chunk(&delta_chunk(None, None, Some((Some("y"), None, Some("{}"))), Some("tool_calls")));
    assert_eq!(describe(&acc.on_done()), vec!["done"]);
}
