use kota::agent::{assistant_record, delegate_from, delegate_request, episodic_keyword, salient_keyword, tool_preview, tool_route, Agent, StepOutcome, ToolRoute};
use kota::mode::AgentMode;
use kota::skills::{SkillLibrary, SkillText};

fn lib() -> SkillLibrary {
    SkillLibrary {
        entries: vec![
            SkillText { name: "base".to_string(), text: "BASE".to_string() },
            SkillText { name: "coder".to_string(), text: "CODE".to_string() },
            SkillText { name: "research".to_string(), text: "READ".to_string() },
        ],
    }
}

fn is_uuid(s: &str) -> bool {
    s.len() == 36
        && s.chars().enumerate().all(|(i, c)| {
            if i == 8 || i == 13 || i == 18 || i == 23 {
                c == '-'
            } else {
                c.is_ascii_digit() || ('a'..='f').contains(&c)
            }
        })
}

#[test]
fn new_agent_holds_system_prompt_and_session_id() {
    let a = Agent::new(1000, "/w", AgentMode::Coder, &lib());
    assert_eq!(a.messages.len(), 1);
    assert_eq!(a.messages[0].role, "system");
    assert_eq!(
        a.messages[0].content.as_deref(),
        Some("BASE\n\n=== SYNTHESIZED SKILLS ===\n\n--- SKILL: coder (Weight: 1.00) ---\nCODE\n")
    );
    assert!(is_uuid(&a.session_id));
    let b = Agent::new(1000, "/w", AgentMode::Coder, &lib());
    assert_ne!(a.session_id, b.session_id);
}

#[test]
fn turn_step_and_reset() {
    let mut a = Agent::new(8, "/w", AgentMode::Coder, &lib());
    a.begin_turn("please summarise everything", "everything", &vec!["old answer".to_string(), "older".to_string()]);
    assert_eq!(a.messages.len(), 3);
    assert_eq!(
        a.messages[1].content.as_deref(),
        Some("EPISODIC MEMORY RECALL (Past context regarding 'everything'):\nold answer\n---\nolder")
    );
    assert_eq!(a.messages[2].role, "user");
    let s = a.begin_step();
    assert_eq!(s.step, 1);
    // 75/4 + 82/4 + 27/4 bytes = 18 + 20 + 6
    assert_eq!(s.tokens_in, 44);
    assert!(s.over_budget);
    let out = a.finish_stream("".to_string(), vec![("c1".to_string(), "read_file".to_string(), "{}".to_string())]);
    assert_eq!(out, StepOutcome::ToolsRequested);
    assert!(a.messages[3].content.is_none());
    assert_eq!(a.messages[3].tool_calls.as_ref().unwrap()[0].call_type, "function");
    a.record_tool_result("c1", "file text".to_string());
    assert_eq!(a.messages[4].tool_call_id.as_deref(), Some("c1"));
    let out = a.finish_stream("done".to_string(), vec![]);
    assert_eq!(out, StepOutcome::Finished);
    assert_eq!(a.last_reply(), "done");
    a.reset();
    assert_eq!(a.messages.len(), 1);
    assert_eq!(a.step, 0);
    assert_eq!(a.last_reply(), "Subagent finished with no response.");
    a.set_mode(AgentMode::Research, &lib());
    assert_eq!(a.mode, AgentMode::Research);
    assert!(a.messages[0].content.as_deref().unwrap().contains("READ"));
}

#[test]
fn keywords_and_routes() {
    assert_eq!(salient_keyword("find the bigger words here"), "bigger");
    assert_eq!(salient_keyword("abcd wxyz"), "wxyz");
    assert_eq!(episodic_keyword("tiny word"), None);
    assert_eq!(episodic_keyword("recall quantum").as_deref(), Some("quantum"));
    assert_eq!(tool_route("delegate_task", true), ToolRoute::Delegate);
    assert_eq!(tool_route("x", true), ToolRoute::Mcp);
    assert_eq!(tool_route("x", false), ToolRoute::Builtin);
}

#[test]
fn delegate_arguments() {
    let r = delegate_request(r#"{"task": "write tests", "mode": "eval"}"#).unwrap();
    assert_eq!((r.task.as_str(), r.mode.as_str()), ("write tests", "eval"));
    let r = delegate_request(r#"{}"#).unwrap();
    assert_eq!((r.task.as_str(), r.mode.as_str()), ("", "coder"));
    let e = delegate_request("not json").unwrap_err();
    assert!(e.starts_with("Failed to parse delegate_task arguments: "));
}

#[test]
fn previews_are_cut_at_200_bytes() {
    let long = "x".repeat(250);
    let p = tool_preview(&long);
    assert_eq!(p.len(), 203);
    assert!(p.ends_with("..."));
    assert_eq!(tool_preview("short"), "short");
}

#[test]
fn a_turn_only_appends_in_order() {
    let mut a = Agent::new(1000, "/w", AgentMode::Coder, &lib());
    let before: Vec<String> = a.messages.iter().map(|m| m.role.clone()).collect();
    a.begin_turn("list and read", "list", &vec![]);
    a.finish_stream(
        "checking".to_string(),
        vec![
            ("c1".to_string(), "list_dir".to_string(), "{}".to_string()),
            ("c2".to_string(), "read_file".to_string(), "{\"path\":\"a\"}".to_string()),
        ],
    );
    a.record_tool_result("c1", "a\nb".to_string());
    a.record_tool_result("c2", "text".to_string());
    a.finish_stream("all read".to_string(), vec![]);
    let roles: Vec<&str> = a.messages.iter().map(|m| m.role.as_str()).collect();
    assert_eq!(&roles[..before.len()], &before.iter().map(|s| s.as_str()).collect::<Vec<_>>()[..]);
    assert_eq!(&roles[before.len()..], &["user", "assistant", "tool", "tool", "assistant"]);
    let calls = a.messages[2].tool_calls.as_ref().unwrap();
    assert_eq!(calls.len(), 2);
    assert!(calls.iter().all(|c| c.call_type == "function"));
    assert_eq!(a.messages[2].content.as_deref(), Some("checking"));
    assert_eq!(a.messages[3].tool_call_id.as_deref(), Some("c1"));
    assert_eq!(a.messages[4].tool_call_id.as_deref(), Some("c2"));
    assert_eq!(a.messages[5].content.as_deref(), Some("all read"));
    assert!(a.messages[5].tool_calls.is_none());
}

#[test]
fn delegation_from_found_arguments_and_memory_record() {
    let r = delegate_from(Ok(Some("write tests".to_string())), None).unwrap();
    assert_eq!(r.task, "write tests");
    assert_eq!(r.mode, "coder");
    let r = delegate_from(Ok(None), Some("eval".to_string())).unwrap();
    assert_eq!(r.task, "");
    assert_eq!(r.mode, "eval");
    let e = delegate_from(Err("bad".to_string()), Some("eval".to_string())).unwrap_err();
    assert_eq!(e, "Failed to parse delegate_task arguments: bad");
    assert_eq!(assistant_record("", "[1]"), "[1]");
    assert_eq!(assistant_record("Let me look", "[1]"), "Let me look\nTool Calls: [1]");
}

#[test]
fn operations_keep_session_and_workdir() {
    let mut a = Agent::new(1000, "/w", AgentMode::Coder, &lib());
    let id = a.session_id.clone();
    a.begin_turn("hello there", "hello", &vec![]);
    a.begin_step();
    a.finish_stream("".to_string(), vec![("c".to_string(), "list_dir".to_string(), "{}".to_string())]);
    a.record_tool_result("c", "x".to_string());
    a.finish_stream("ok".to_string(), vec![]);
    a.set_mode(AgentMode::Research, &lib());
    a.reset();
    assert_eq!(a.session_id, id);
    assert_eq!(a.workdir, "/w");
    assert_eq!(a.messages.len(), 1);
}
