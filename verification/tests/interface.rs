use kota::commands::{Action, Session};
use kota::mode::AgentMode;
use kota::ui::{App, Key, KeyMods, KeyOutcome, LineKind, UiEvent};

#[test]
fn new_app_shows_banner_with_port() {
    let app = App::new(AgentMode::Coder, 8765);
    assert_eq!(app.output.len(), 12);
    assert_eq!(app.output[8].1, "  • Port  : http://localhost:8765 (Remote UI)");
    assert!(app.output.iter().all(|(k, _)| *k == LineKind::System));
}

#[test]
fn events_build_the_transcript() {
    let mut app = App::new(AgentMode::Coder, 1);
    app.output.clear();
    app.handle_event(UiEvent::UserMessage { text: "hello".to_string() });
    app.handle_event(UiEvent::StepStarted { step: 1, tokens_in: 342 });
    app.handle_event(UiEvent::Token { text: "Hi".to_string() });
    app.handle_event(UiEvent::Token { text: " there".to_string() });
    app.handle_event(UiEvent::ToolCallStarted { step: 1, tool: "read_file".to_string(), args: "{\"path\":\"src/main.rs\"}".to_string() });
    app.handle_event(UiEvent::ToolCallFinished { step: 1, tool: "read_file".to_string(), duration_ms: 12, success: true, result_preview: "use std::io;\nmore".to_string() });
    app.handle_event(UiEvent::Done { step: 1, total_tokens: 0, duration_ms: 2340 });
    let lines: Vec<&str> = app.output.iter().map(|(_, t)| t.as_str()).collect();
    assert_eq!(
        lines,
        vec![
            "▶ hello",
            "  ── step 1 (342 tokens) ──",
            "  Hi there",
            "  🔧 read_file({\"path\":\"src/main.rs\"})",
            "  ✓ read_file (12ms)",
            "    → use std::io;",
            "  ── done (2340ms) ──",
        ]
    );
    assert!(app.active_tools.is_empty());
    assert_eq!(app.step_count, 1);
    assert_eq!(app.last_duration_ms, 2340);
}

#[test]
fn notices_switch_mode_and_errors_unlock() {
    let mut app = App::new(AgentMode::Coder, 1);
    app.output.clear();
    app.busy = true;
    app.handle_event(UiEvent::UserMessage { text: "SYSTEM: Mode changed to RESEARCH".to_string() });
    assert_eq!(app.mode, AgentMode::Research);
    assert_eq!(app.output[0].1, "  Mode changed to RESEARCH");
    app.handle_event(UiEvent::UserMessage { text: "SYSTEM:\nline one\nline two".to_string() });
    assert_eq!(app.output[1].1, "  line one");
    assert_eq!(app.output[2].1, "  line two");
    app.handle_event(UiEvent::BudgetWarning { used: 20000, max: 24000 });
    assert_eq!(app.output[3], (LineKind::Error, "  ⚠ context budget: 20000/24000 tokens".to_string()));
    app.handle_event(UiEvent::Error { message: "boom".to_string() });
    assert_eq!(app.output[4].1, "❌ boom");
    assert!(!app.busy);
    app.handle_event(UiEvent::NetworkThreatDetected { severity: "CRITICAL".to_string(), description: "spike".to_string() });
    assert_eq!(app.output[5].1, "🚨 THREAT [CRITICAL]: spike");
}

#[test]
fn keys_edit_submit_and_scroll() {
    let mut app = App::new(AgentMode::Coder, 1);
    for c in "hi".chars() {
        assert!(matches!(app.on_key(KeyMods::NoModifiers, Key::Char(c)), KeyOutcome::Continue));
    }
    app.on_key(KeyMods::NoModifiers, Key::Char('x'));
    app.on_key(KeyMods::NoModifiers, Key::Backspace);
    assert_eq!(app.input, "hi");
    match app.on_key(KeyMods::NoModifiers, Key::Enter) {
        KeyOutcome::Submit(t) => assert_eq!(t, "hi"),
        other => panic!("unexpected {:?}", other),
    }
    assert!(app.busy);
    assert_eq!(app.input, "");
    app.on_key(KeyMods::NoModifiers, Key::Char('z'));
    assert_eq!(app.input, "");
    app.on_key(KeyMods::NoModifiers, Key::PageUp);
    app.on_key(KeyMods::NoModifiers, Key::PageUp);
    assert_eq!(app.scroll, 10);
    app.on_key(KeyMods::NoModifiers, Key::PageDown);
    assert_eq!(app.scroll, 5);
    app.on_key(KeyMods::NoModifiers, Key::PageDown);
    assert_eq!(app.scroll, 0);
    app.on_wheel(true);
    assert_eq!(app.scroll, 2);
    app.on_wheel(true);
    app.on_key(KeyMods::NoModifiers, Key::Char('g'));
    assert_eq!(app.scroll, 0);
    assert!(matches!(app.on_key(KeyMods::ControlOnly, Key::Char('r')), KeyOutcome::Reset));
    assert_eq!(app.output.len(), 1);
    assert_eq!(app.output[0].1, "── conversation reset ──");
    assert!(matches!(app.on_key(KeyMods::ControlOnly, Key::Char('c')), KeyOutcome::Quit));
}

#[test]
fn page_down_undoes_page_up_and_reset_keeps_prompt() {
    let mut app = App::new(AgentMode::Coder, 1);
    for start in [0u16, 5, 7, 100] {
        app.scroll = start;
        app.on_key(KeyMods::NoModifiers, Key::PageUp);
        app.on_key(KeyMods::ControlOnly, Key::PageDown);
        assert_eq!(app.scroll, start);
    }
    // Three lines back is not restored: PageDown snaps to the tail.
    app.scroll = 3;
    app.on_key(KeyMods::NoModifiers, Key::PageUp);
    app.on_key(KeyMods::NoModifiers, Key::PageDown);
    assert_eq!(app.scroll, 0);
    app.on_key(KeyMods::NoModifiers, Key::Char('q'));
    app.scroll = 9;
    assert!(matches!(app.on_key(KeyMods::ControlOnly, Key::Char('r')), KeyOutcome::Reset));
    assert_eq!(app.output.len(), 1);
    assert_eq!(app.input, "q");
    assert_eq!(app.scroll, 9);
}

#[test]
fn layout_and_status() {
    let mut app = App::new(AgentMode::Eval, 1);
    app.output.clear();
    app.output.push((LineKind::User, "▶ a b".to_string()));
    app.output.push((LineKind::System, "".to_string()));
    app.output.push((LineKind::Assistant, "abcdefghij".to_string()));
    // "▶ a b": 5 chars at width 4 is 2 rows, plus 1 for its spaces; "" is 1;
    // 10 chars at width 4: 3
    assert_eq!(app.output_rows(4), Some(7));
    assert_eq!(app.scroll_offset(6, 5), 4);
    app.scroll = 2;
    assert_eq!(app.scroll_offset(6, 5), 2);
    app.active_tools = vec!["a".to_string(), "b".to_string()];
    app.step_count = 3;
    app.last_duration_ms = 40;
    assert_eq!(
        app.status_line("1.5", "0.0"),
        " mode: EVAL | step 3 | last: 40ms | tx: 1.5kbps | rx: 0.0kbps | 🔧 a, b | ↑ scrolled (PgDn/g to tail) | Ctrl+C quit"
    );
    assert_eq!(app.input_title(), " prompt ");
}

#[test]
fn event_checks_refuse_cuts_inside_characters() {
    let args = format!("{}é", "a".repeat(59));
    assert!(!App::event_ok(&UiEvent::ToolCallStarted { step: 1, tool: "t".to_string(), args }));
    assert!(App::event_ok(&UiEvent::ToolCallStarted { step: 1, tool: "t".to_string(), args: "é".repeat(40) }));
}

fn texts(actions: &[Action]) -> Vec<String> {
    actions
        .iter()
        .map(|a| match a {
            Action::Say { text, source } => format!("say[{}] {}", source, text),
            Action::StartArt { mode } => format!("art {}", mode),
            Action::PowerConfig { enabled } => format!("power {}", enabled),
            Action::Finished => "finished".to_string(),
            Action::SetMode(m) => format!("mode {}", m.to_str()),
            Action::UseEndpoint { api_url, model } => format!("endpoint {} {}", api_url, model),
            Action::UseVertex { model } => format!("vertex {}", model),
            Action::Process(t) => format!("process {}", t),
        })
        .collect()
}

#[test]
fn slash_commands() {
    let mut s = Session::new(AgentMode::Coder, "qwen3:8b", "http://localhost:11434/v1", ".", 24000);
    let a = s.dispatch("/status", "tui");
    assert_eq!(
        texts(&a),
        vec![
            "say[tui] /status".to_string(),
            "say[system] SYSTEM:\nAgent Status:\n  Active Mode: CODER\n  Model: qwen3:8b\n  Endpoint: http://localhost:11434/v1\n  Workdir: .\n  Token Budget: 24000".to_string(),
            "finished".to_string(),
        ]
    );
    let a = s.dispatch("/mode research", "tui");
    assert_eq!(texts(&a)[1], "mode research");
    assert_eq!(texts(&a)[2], "say[system] SYSTEM: Mode changed to RESEARCH");
    assert_eq!(s.mode, AgentMode::Research);
    let a = s.dispatch("/eco on", "tui");
    assert_eq!(texts(&a)[1], "endpoint http://localhost:11434/v1 llama3.2:1b");
    assert_eq!(texts(&a)[2], "say[system] SYSTEM: Eco mode on. Model is now llama3.2:1b");
    s.dispatch("/cloud on", "tui");
    assert_eq!(s.api_url, "https://api.groq.com/openai/v1");
    let a = s.dispatch("/gcp on", "tui");
    assert_eq!(texts(&a)[1], "vertex gemini-1.5-pro-002");
    let a = s.dispatch("/gcp off", "tui");
    assert_eq!(texts(&a)[1], "endpoint http://localhost:11434/v1 qwen3:8b");
    assert_eq!(s.model, "qwen3:8b");
    let a = s.dispatch("/art Cat", "tui");
    assert_eq!(texts(&a)[1], "art cat");
    let a = s.dispatch("/art dog", "tui");
    assert_eq!(texts(&a)[1], "say[system] SYSTEM:\nUnknown art mode 'dog'. Try: cat, clouds, plasma, lizard.");
    let a = s.dispatch("/power on", "tui");
    assert_eq!(texts(&a)[1..3].to_vec(), vec!["power true".to_string(), "say[system] SYSTEM: Power monitoring enabled".to_string()]);
    let a = s.dispatch("explain this", "web");
    assert_eq!(texts(&a), vec!["say[web] explain this".to_string(), "process explain this".to_string()]);
    let a = s.dispatch("  /help  ", "tui");
    assert!(texts(&a)[1].starts_with("say[system] SYSTEM:\nAvailable local commands"));
    let a = s.dispatch("/mode", "tui");
    assert_eq!(texts(&a)[1], "say[system] SYSTEM:\nUsage: /mode <name>\nUse /modes to list all available modes.");
}
