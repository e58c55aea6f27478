//! The state of the terminal interface: the transcript it shows, the
//! prompt being typed, scrolling, and what the status bar says, with how
//! agent events, keys and the mouse change it. Drawing the widgets and
//! reading the terminal happen outside this library.
use vstd::prelude::*;
use crate::mode::{mode_of_name, AgentMode};
use crate::text::{chars_of, contains_char, push_all, push_str, split_lines, starts_with_str,
    string_of, trim_exec};

verus! {

/// `String::pop` removes and returns the last character, or returns
/// `None` and leaves the string alone when it is empty.
pub assume_specification[ String::pop ](s: &mut String) -> (r: Option<char>)
    ensures
        old(s)@.len() == 0 ==> r is None && final(s)@ == old(s)@,
        old(s)@.len() > 0 ==> r == Some(old(s)@.last()) && final(s)@ == old(s)@.drop_last(),
;

/// How a transcript line is styled.
#[derive(Clone, Copy, Debug, PartialEq, Eq, Structural)]
pub enum LineKind {
    User,
    Assistant,
    Thinking,
    ToolStart,
    ToolDone,
    System,
    Error,
}

/// What the interface is told of an agent's work.
#[derive(Debug, Clone)]
pub enum UiEvent {
    /// A prompt, or a `SYSTEM:` notice.
    UserMessage { text: String },
    StepStarted { step: usize, tokens_in: usize },
    Token { text: String },
    Thinking { text: String },
    /// `args` is the call's arguments as compact JSON text.
    ToolCallStarted { step: usize, tool: String, args: String },
    ToolCallFinished {
        step: usize,
        tool: String,
        duration_ms: u64,
        success: bool,
        result_preview: String,
    },
    Done { step: usize, total_tokens: usize, duration_ms: u64 },
    BudgetWarning { used: usize, max: usize },
    CommandFinished,
    Error { message: String },
    NetworkThreatDetected { severity: String, description: String },
}

/// The plain value of an event.
pub enum EventV {
    UserMessage(Seq<char>),
    StepStarted(int, int),
    Token(Seq<char>),
    Thinking(Seq<char>),
    ToolCallStarted(Seq<char>, Seq<char>),
    ToolCallFinished(Seq<char>, int, bool, Seq<char>),
    Done(int),
    BudgetWarning(int, int),
    CommandFinished,
    Error(Seq<char>),
    Threat(Seq<char>, Seq<char>),
}

impl View for UiEvent {
    type V = EventV;

    open spec fn view(&self) -> EventV {
        match self {
            UiEvent::UserMessage { text } => EventV::UserMessage(text@),
            UiEvent::StepStarted { step, tokens_in } => EventV::StepStarted(
                *step as int,
                *tokens_in as int,
            ),
            UiEvent::Token { text } => EventV::Token(text@),
            UiEvent::Thinking { text } => EventV::Thinking(text@),
            UiEvent::ToolCallStarted { tool, args, .. } => EventV::ToolCallStarted(tool@, args@),
            UiEvent::ToolCallFinished { tool, duration_ms, success, result_preview, .. } =>
                EventV::ToolCallFinished(tool@, *duration_ms as int, *success, result_preview@),
            UiEvent::Done { duration_ms, .. } => EventV::Done(*duration_ms as int),
            UiEvent::BudgetWarning { used, max } => EventV::BudgetWarning(*used as int, *max as int),
            UiEvent::CommandFinished => EventV::CommandFinished,
            UiEvent::Error { message } => EventV::Error(message@),
            UiEvent::NetworkThreatDetected { severity, description } => EventV::Threat(
                severity@,
                description@,
            ),
        }
    }
}

/// The interface state.
pub struct App {
    pub input: String,
    pub output: Vec<(LineKind, String)>,
    /// Lines scrolled back from the live tail.
    pub scroll: u16,
    pub busy: bool,
    pub thinking_buf: String,
    pub active_tools: Vec<String>,
    pub last_duration_ms: u64,
    pub step_count: usize,
    pub mode: AgentMode,
}

/// The plain value of the interface state.
pub struct AppView {
    pub input: Seq<char>,
    pub output: Seq<(LineKind, Seq<char>)>,
    pub scroll: int,
    pub busy: bool,
    pub thinking: Seq<char>,
    pub tools: Seq<Seq<char>>,
    pub last_ms: int,
    pub step: int,
    pub mode: AgentMode,
}

pub open spec fn lines_view(s: Seq<(LineKind, String)>) -> Seq<(LineKind, Seq<char>)> {
    s.map_values(|l: (LineKind, String)| (l.0, l.1@))
}

impl View for App {
    type V = AppView;

    open spec fn view(&self) -> AppView {
        AppView {
            input: self.input@,
            output: lines_view(self.output@),
            scroll: self.scroll as int,
            busy: self.busy,
            thinking: self.thinking_buf@,
            tools: self.active_tools@.map_values(|t: String| t@),
            last_ms: self.last_duration_ms as int,
            step: self.step_count as int,
            mode: self.mode,
        }
    }
}

// ---------------------------------------------------------------------------
// Events
// ---------------------------------------------------------------------------

/// `str::trim_start_matches`: `s` with every leading copy of `p` removed.
pub open spec fn strip_prefixes(s: Seq<char>, p: Seq<char>) -> Seq<char>
    decreases s.len(),
{
    if p.len() > 0 && crate::text::starts_with(s, p) {
        strip_prefixes(s.skip(p.len() as int), p)
    } else {
        s
    }
}

/// The transcript with `line` appended.
pub open spec fn push_line(o: Seq<(LineKind, Seq<char>)>, k: LineKind, line: Seq<char>) -> Seq<
    (LineKind, Seq<char>),
> {
    o.push((k, line))
}

/// Streamed text of kind `k` extends the last line when that line is of
/// kind `k`, and otherwise starts a line with `lead`.
pub open spec fn extend_line(o: Seq<(LineKind, Seq<char>)>, k: LineKind, lead: Seq<char>, text: Seq<
    char,
>) -> Seq<(LineKind, Seq<char>)> {
    if o.len() > 0 && o.last().0 == k {
        o.update(o.len() - 1, (k, o.last().1 + text))
    } else {
        o.push((k, lead + text))
    }
}

/// `ts` without any copy of `t`.
pub open spec fn without(ts: Seq<Seq<char>>, t: Seq<char>) -> Seq<Seq<char>>
    decreases ts.len(),
{
    if ts.len() == 0 {
        seq![]
    } else if ts.last() == t {
        without(ts.drop_last(), t)
    } else {
        without(ts.drop_last(), t).push(ts.last())
    }
}

/// The first line of `s`, or nothing.
pub open spec fn first_line(s: Seq<char>) -> Seq<char> {
    let ls = crate::text::lines(s);
    if ls.len() > 0 {
        ls[0]
    } else {
        seq![]
    }
}

/// `s` cut to `max` bytes followed by `...` when it is longer.
pub open spec fn truncated(s: Seq<char>, max: int) -> Seq<char> {
    crate::tools::clipped(s, max, seq![])
}

/// What handling an event needs: texts that are cut are cut between two
/// characters (the arguments at 60 bytes, the first line of a preview at
/// 80).
pub open spec fn event_ok(e: EventV) -> bool {
    match e {
        EventV::ToolCallStarted(_, args) => crate::tools::clip_ok(args, 60),
        EventV::ToolCallFinished(_, _, _, p) => crate::tools::clip_ok(first_line(p), 80),
        _ => true,
    }
}

/// The lines a `SYSTEM:` notice adds: each line of its trimmed text,
/// indented by two spaces.
pub open spec fn notice_lines(o: Seq<(LineKind, Seq<char>)>, ls: Seq<Seq<char>>) -> Seq<
    (LineKind, Seq<char>),
>
    decreases ls.len(),
{
    if ls.len() == 0 {
        o
    } else {
        notice_lines(o, ls.drop_last()).push((LineKind::System, "  "@ + ls.last()))
    }
}

/// The state after one event.
pub open spec fn apply_event(a: AppView, e: EventV) -> AppView {
    match e {
        EventV::UserMessage(text) => if crate::text::starts_with(text, "SYSTEM:"@) {
            let mode = if crate::text::starts_with(text, "SYSTEM: Mode changed to "@) {
                mode_of_name(
                    crate::text::ascii_lower(
                        crate::text::trim(strip_prefixes(text, "SYSTEM: Mode changed to "@)),
                    ),
                )
            } else {
                a.mode
            };
            let content = crate::text::trim(strip_prefixes(text, "SYSTEM:"@));
            AppView { mode, output: notice_lines(a.output, crate::text::lines(content)), ..a }
        } else {
            AppView { output: push_line(a.output, LineKind::User, "▶ "@ + text), ..a }
        },
        EventV::StepStarted(step, tokens) => AppView {
            step,
            output: push_line(
                a.output,
                LineKind::System,
                "  ── step "@ + crate::fmt::decimal(step as nat) + " ("@ + crate::fmt::decimal(
                    tokens as nat,
                ) + " tokens) ──"@,
            ),
            ..a
        },
        EventV::Token(text) => AppView {
            output: extend_line(a.output, LineKind::Assistant, "  "@, text),
            scroll: 0,
            ..a
        },
        EventV::Thinking(text) => AppView {
            thinking: a.thinking + text,
            output: extend_line(a.output, LineKind::Thinking, "  💭 "@, text),
            ..a
        },
        EventV::ToolCallStarted(tool, args) => AppView {
            tools: a.tools.push(tool),
            output: push_line(
                a.output,
                LineKind::ToolStart,
                "  🔧 "@ + tool + "("@ + truncated(args, 60) + ")"@,
            ),
            ..a
        },
        EventV::ToolCallFinished(tool, ms, success, preview) => {
            let done = push_line(
                a.output,
                LineKind::ToolDone,
                "  "@ + (if success {
                    "✓"@
                } else {
                    "✗"@
                }) + " "@ + tool + " ("@ + crate::fmt::decimal(ms as nat) + "ms)"@,
            );
            let p = first_line(preview);
            AppView {
                tools: without(a.tools, tool),
                output: if p.len() > 0 {
                    push_line(done, LineKind::System, "    → "@ + truncated(p, 80))
                } else {
                    done
                },
                ..a
            }
        },
        EventV::Done(ms) => AppView {
            last_ms: ms,
            busy: false,
            thinking: seq![],
            output: push_line(
                a.output,
                LineKind::System,
                "  ── done ("@ + crate::fmt::decimal(ms as nat) + "ms) ──"@,
            ),
            ..a
        },
        EventV::BudgetWarning(used, max) => AppView {
            output: push_line(
                a.output,
                LineKind::Error,
                "  ⚠ context budget: "@ + crate::fmt::decimal(used as nat) + "/"@ + crate::fmt::decimal(
                    max as nat,
                ) + " tokens"@,
            ),
            ..a
        },
        EventV::CommandFinished => AppView { busy: false, ..a },
        EventV::Error(message) => AppView {
            output: push_line(a.output, LineKind::Error, "❌ "@ + message),
            busy: false,
            ..a
        },
        EventV::Threat(severity, description) => AppView {
            output: push_line(
                a.output,
                LineKind::Error,
                "🚨 THREAT ["@ + severity + "]: "@ + description,
            ),
            ..a
        },
    }
}

fn strip_prefixes_exec(s: &Vec<char>, p: &str) -> (r: Vec<char>)
    ensures
        r@ == strip_prefixes(s@, p@),
{
    let pc = chars_of(p);
    if pc.len() == 0 {
        return s.clone();
    }
    let mut i: usize = 0;
    assert(s@.skip(0) =~= s@);
    while pc.len() <= s.len() - i && crate::text::has_at_exec(s, i, &pc)
        invariant
            0 <= i <= s.len(),
            pc@ == p@,
            pc.len() > 0,
            strip_prefixes(s@.skip(i as int), p@) == strip_prefixes(s@, p@),
        decreases s.len() - i,
    {
        assert(crate::text::starts_with(s@.skip(i as int), p@)) by {
            assert(s@.skip(i as int).subrange(0, p@.len() as int) =~= s@.subrange(
                i as int,
                i + p@.len(),
            ));
        }
        assert(s@.skip(i as int).skip(p@.len() as int) =~= s@.skip(i + pc.len()));
        i = i + pc.len();
    }
    assert(!crate::text::starts_with(s@.skip(i as int), p@)) by {
        if crate::text::starts_with(s@.skip(i as int), p@) {
            assert(s@.skip(i as int).subrange(0, p@.len() as int) =~= s@.subrange(
                i as int,
                i + p@.len(),
            ));
        }
    }
    crate::text::slice_chars(s, i, s.len())
}

fn decimal_text(out: &mut Vec<char>, n: u64)
    ensures
        final(out)@ == old(out)@ + crate::fmt::decimal(n as nat),
{
    crate::fmt::push_decimal(out, n);
}

impl App {
    /// Whether [`App::handle_event`] can take `event`.
    pub fn event_ok(event: &UiEvent) -> (r: bool)
        ensures
            r == event_ok(event@),
    {
        match event {
            UiEvent::ToolCallStarted { args, .. } => crate::tools::clip_ok_exec(args.as_str(), 60),
            UiEvent::ToolCallFinished { result_preview, .. } => {
                let ls = split_lines(&chars_of(result_preview.as_str()));
                let first = if ls.len() > 0 {
                    ls[0].clone()
                } else {
                    Vec::new()
                };
                assert(first@ == first_line(result_preview@));
                crate::tools::clip_ok_exec(string_of(&first).as_str(), 80)
            },
            _ => true,
        }
    }

    fn push_line(&mut self, kind: LineKind, line: Vec<char>)
        ensures
            final(self)@ == (AppView { output: old(self)@.output.push((kind, line@)), ..old(self)@ }),
    {
        let ghost before = self.output@;
        self.output.push((kind, string_of(&line)));
        assert(lines_view(self.output@) =~= lines_view(before).push((kind, line@)));
    }

    fn extend_line(&mut self, kind: LineKind, lead: &str, text: &String)
        ensures
            final(self)@ == (AppView {
                output: extend_line(old(self)@.output, kind, lead@, text@),
                ..old(self)@
            }),
    {
        let n = self.output.len();
        if n > 0 && self.output[n - 1].0 == kind {
            let ghost before = self.output@;
            let (k, last) = self.output.pop().unwrap();
            let mut joined = chars_of(last.as_str());
            push_str(&mut joined, text.as_str());
            self.output.push((k, string_of(&joined)));
            assert(lines_view(self.output@) =~= lines_view(before).update(
                n - 1,
                (kind, lines_view(before).last().1 + text@),
            ));
        } else {
            let mut line = chars_of(lead);
            push_str(&mut line, text.as_str());
            self.push_line(kind, line);
        }
    }

    /// Updates the state for one agent event: notices, prompts, steps,
    /// streamed text, tool calls and their results, and the end of a turn
    /// each add or extend transcript lines; the end of a turn or command,
    /// and errors, unlock the prompt; a `SYSTEM: Mode changed to` notice
    /// switches the mode shown.
    pub fn handle_event(&mut self, event: UiEvent)
        requires
            event_ok(event@),
        ensures
            final(self)@ == apply_event(old(self)@, event@),
    {
        match event {
            UiEvent::UserMessage { text } => {
                let t = chars_of(text.as_str());
                if starts_with_str(&t, "SYSTEM:") {
                    if starts_with_str(&t, "SYSTEM: Mode changed to ") {
                        let name = trim_exec(&strip_prefixes_exec(&t, "SYSTEM: Mode changed to "));
                        self.mode = AgentMode::from_str(string_of(&name).as_str());
                    }
                    let content = trim_exec(&strip_prefixes_exec(&t, "SYSTEM:"));
                    let ls = split_lines(&content);
                    let ghost lv = crate::text::views(ls@);
                    let ghost start = self@;
                    let mut i: usize = 0;
                    while i < ls.len()
                        invariant
                            0 <= i <= ls.len(),
                            lv == crate::text::views(ls@),
                            self@ == (AppView {
                                output: notice_lines(start.output, lv.take(i as int)),
                                ..start
                            }),
                        decreases ls.len() - i,
                    {
                        let mut line = chars_of("  ");
                        push_all(&mut line, &ls[i]);
                        self.push_line(LineKind::System, line);
                        assert(lv.take(i + 1).drop_last() =~= lv.take(i as int));
                        i = i + 1;
                    }
                    assert(lv.take(ls.len() as int) =~= lv);
                } else {
                    let mut line = chars_of("▶ ");
                    push_str(&mut line, text.as_str());
                    self.push_line(LineKind::User, line);
                }
            },
            UiEvent::StepStarted { step, tokens_in } => {
                self.step_count = step;
                let mut line = chars_of("  ── step ");
                decimal_text(&mut line, step as u64);
                push_str(&mut line, " (");
                decimal_text(&mut line, tokens_in as u64);
                push_str(&mut line, " tokens) ──");
                self.push_line(LineKind::System, line);
            },
            UiEvent::Token { text } => {
                self.extend_line(LineKind::Assistant, "  ", &text);
                self.scroll = 0;
            },
            UiEvent::Thinking { text } => {
                let mut buf = chars_of(self.thinking_buf.as_str());
                push_str(&mut buf, text.as_str());
                self.thinking_buf = string_of(&buf);
                self.extend_line(LineKind::Thinking, "  💭 ", &text);
            },
            UiEvent::ToolCallStarted { tool, args, .. } => {
                let mut line = chars_of("  🔧 ");
                push_str(&mut line, tool.as_str());
                push_str(&mut line, "(");
                proof {
                    reveal_strlit("");
                }
                push_all(&mut line, &crate::tools::clip(&chars_of(args.as_str()), 60, &Vec::new()));
                push_str(&mut line, ")");
                let ghost tools_before = self.active_tools@;
                self.active_tools.push(tool);
                assert(self.active_tools@.map_values(|t: String| t@) =~= tools_before.map_values(
                    |t: String| t@,
                ).push(tool@));
                self.push_line(LineKind::ToolStart, line);
            },
            UiEvent::ToolCallFinished { tool, duration_ms, success, result_preview, .. } => {
                self.remove_tool(&tool);
                let mut line = chars_of("  ");
                if success {
                    push_str(&mut line, "✓");
                } else {
                    push_str(&mut line, "✗");
                }
                push_str(&mut line, " ");
                push_str(&mut line, tool.as_str());
                push_str(&mut line, " (");
                decimal_text(&mut line, duration_ms);
                push_str(&mut line, "ms)");
                self.push_line(LineKind::ToolDone, line);
                let ls = split_lines(&chars_of(result_preview.as_str()));
                if ls.len() > 0 && ls[0].len() > 0 {
                    let mut more = chars_of("    → ");
                    proof {
                        reveal_strlit("");
                    }
                    push_all(&mut more, &crate::tools::clip(&ls[0], 80, &Vec::new()));
                    self.push_line(LineKind::System, more);
                }
            },
            UiEvent::Done { duration_ms, .. } => {
                self.last_duration_ms = duration_ms;
                self.busy = false;
                self.thinking_buf = String::new();
                let mut line = chars_of("  ── done (");
                decimal_text(&mut line, duration_ms);
                push_str(&mut line, "ms) ──");
                self.push_line(LineKind::System, line);
            },
            UiEvent::BudgetWarning { used, max } => {
                let mut line = chars_of("  ⚠ context budget: ");
                decimal_text(&mut line, used as u64);
                push_str(&mut line, "/");
                decimal_text(&mut line, max as u64);
                push_str(&mut line, " tokens");
                self.push_line(LineKind::Error, line);
            },
            UiEvent::CommandFinished => {
                self.busy = false;
            },
            UiEvent::Error { message } => {
                let mut line = chars_of("❌ ");
                push_str(&mut line, message.as_str());
                self.push_line(LineKind::Error, line);
                self.busy = false;
            },
            UiEvent::NetworkThreatDetected { severity, description } => {
                let mut line = chars_of("🚨 THREAT [");
                push_str(&mut line, severity.as_str());
                push_str(&mut line, "]: ");
                push_str(&mut line, description.as_str());
                self.push_line(LineKind::Error, line);
            },
        }
    }

    fn remove_tool(&mut self, tool: &String)
        ensures
            final(self)@ == (AppView { tools: without(old(self)@.tools, tool@), ..old(self)@ }),
    {
        let ghost tv = self.active_tools@.map_values(|t: String| t@);
        let mut kept: Vec<String> = Vec::new();
        let mut i: usize = 0;
        while i < self.active_tools.len()
            invariant
                0 <= i <= self.active_tools.len(),
                tv == self.active_tools@.map_values(|t: String| t@),
                kept@.map_values(|t: String| t@) == without(tv.take(i as int), tool@),
            decreases self.active_tools.len() - i,
        {
            let t = self.active_tools[i].clone();
            let ghost kb = kept@;
            assert(tv.take(i + 1).drop_last() =~= tv.take(i as int));
            if !crate::skills::equals_exec(&chars_of(t.as_str()), &chars_of(tool.as_str())) {
                kept.push(t);
                assert(kept@.map_values(|x: String| x@) =~= kb.map_values(|x: String| x@).push(
                    t@,
                ));
            }
            i = i + 1;
        }
        assert(tv.take(self.active_tools.len() as int) =~= tv);
        self.active_tools = kept;
    }
}

// ---------------------------------------------------------------------------
// Start, keys and the mouse
// ---------------------------------------------------------------------------

/// The banner that a new interface shows, with the port of its remote UI.
pub open spec fn banner(port: int) -> Seq<(LineKind, Seq<char>)> {
    seq![
        (LineKind::System, "   _  __      _"@),
        (LineKind::System, "  | |/ /___  | |_  __ _   🦎"@),
        (LineKind::System, "  | ' // _ \\ | __|/ _` |"@),
        (LineKind::System, "  | . \\ (_) || |_| (_| |"@),
        (LineKind::System, "  |_|\\_\\___/  \\__|\\__,_|"@),
        (LineKind::System, "  [  COMPUTING ASSIST  ]"@),
        (LineKind::System, ""@),
        (LineKind::System, " ── SYSTEM LOADED ──────────────────────────────────────────"@),
        (
            LineKind::System,
            "  • Port  : http://localhost:"@ + crate::fmt::decimal(port as nat) + " (Remote UI)"@,
        ),
        (LineKind::System, "  • Keys  : Ctrl+C (Quit) | Ctrl+R (Reset)"@),
        (LineKind::System, " ───────────────────────────────────────────────────────────"@),
        (LineKind::System, ""@),
    ]
}

/// Which modifier keys are held: none, exactly Control, or anything else.
#[derive(Clone, Copy, Debug, PartialEq, Eq, Structural)]
pub enum KeyMods {
    NoModifiers,
    ControlOnly,
    Other,
}

/// The keys the interface tells apart.
#[derive(Clone, Copy, Debug, PartialEq, Eq, Structural)]
pub enum Key {
    Char(char),
    PageUp,
    PageDown,
    Enter,
    Backspace,
    Other,
}

/// What a key press asks of the program.
#[derive(Debug)]
pub enum KeyOutcome {
    Continue,
    Quit,
    /// The prompt was submitted with this text.
    Submit(String),
    /// The conversation is to be reset: the agent goes back to its system
    /// prompt.
    Reset,
}

pub enum OutcomeV {
    Continue,
    Quit,
    Submit(Seq<char>),
    Reset,
}

pub open spec fn outcome_view(o: KeyOutcome) -> OutcomeV {
    match o {
        KeyOutcome::Continue => OutcomeV::Continue,
        KeyOutcome::Quit => OutcomeV::Quit,
        KeyOutcome::Submit(s) => OutcomeV::Submit(s@),
        KeyOutcome::Reset => OutcomeV::Reset,
    }
}

/// `u16::saturating_add`.
pub open spec fn sat_add(a: int, b: int) -> int {
    if a + b > 65535 {
        65535
    } else {
        a + b
    }
}

/// `u16::saturating_sub`.
pub open spec fn sat_sub(a: int, b: int) -> int {
    if a < b {
        0
    } else {
        a - b
    }
}

/// Scrolling back toward the tail by `step` lines; closer to the tail than
/// `step`, the view snaps to the tail.
pub open spec fn scroll_down(s: int, step: int) -> int {
    if sat_sub(s, step) < step {
        0
    } else {
        sat_sub(s, step)
    }
}

/// A key press: Ctrl+C quits; Ctrl+R clears the transcript and asks for
/// the conversation to be reset; PageUp and
/// PageDown scroll by five lines; `g` (no modifiers) returns to the live
/// tail; Enter submits a non-empty prompt when no turn is running;
/// Backspace deletes; other characters are typed when no turn is running.
pub open spec fn apply_key(a: AppView, m: KeyMods, k: Key) -> (AppView, OutcomeV) {
    if m == KeyMods::ControlOnly && k == Key::Char('c') {
        (a, OutcomeV::Quit)
    } else if m == KeyMods::ControlOnly && k == Key::Char('r') {
        (
            AppView { output: seq![(LineKind::System, "── conversation reset ──"@)], ..a },
            OutcomeV::Reset,
        )
    } else if k == Key::PageUp {
        (AppView { scroll: sat_add(a.scroll, 5), ..a }, OutcomeV::Continue)
    } else if k == Key::PageDown {
        (AppView { scroll: scroll_down(a.scroll, 5), ..a }, OutcomeV::Continue)
    } else if k == Key::Char('g') && m == KeyMods::NoModifiers {
        (AppView { scroll: 0, ..a }, OutcomeV::Continue)
    } else if k == Key::Enter && a.input.len() > 0 && !a.busy {
        (AppView { input: seq![], busy: true, thinking: seq![], ..a }, OutcomeV::Submit(a.input))
    } else if k == Key::Backspace {
        (
            AppView {
                input: if a.input.len() > 0 {
                    a.input.drop_last()
                } else {
                    a.input
                },
                ..a
            },
            OutcomeV::Continue,
        )
    } else {
        match k {
            Key::Char(c) => if !a.busy {
                (AppView { input: a.input.push(c), ..a }, OutcomeV::Continue)
            } else {
                (a, OutcomeV::Continue)
            },
            _ => (a, OutcomeV::Continue),
        }
    }
}

impl App {
    /// A new interface in `startup_mode`, showing the banner with the port
    /// of the remote UI.
    pub fn new(startup_mode: AgentMode, port: u16) -> (r: App)
        ensures
            r@ == (AppView {
                input: seq![],
                output: banner(port as int),
                scroll: 0,
                busy: false,
                thinking: seq![],
                tools: seq![],
                last_ms: 0,
                step: 0,
                mode: startup_mode,
            }),
    {
        let mut app = App {
            input: String::new(),
            output: Vec::new(),
            scroll: 0,
            busy: false,
            thinking_buf: String::new(),
            active_tools: Vec::new(),
            last_duration_ms: 0,
            step_count: 0,
            mode: startup_mode,
        };
        assert(app.active_tools@.map_values(|t: String| t@) =~= Seq::<Seq<char>>::empty());
        assert(lines_view(app.output@) =~= seq![]);
        app.push_line(LineKind::System, chars_of("   _  __      _"));
        app.push_line(LineKind::System, chars_of("  | |/ /___  | |_  __ _   🦎"));
        app.push_line(LineKind::System, chars_of("  | ' // _ \\ | __|/ _` |"));
        app.push_line(LineKind::System, chars_of("  | . \\ (_) || |_| (_| |"));
        app.push_line(LineKind::System, chars_of("  |_|\\_\\___/  \\__|\\__,_|"));
        app.push_line(LineKind::System, chars_of("  [  COMPUTING ASSIST  ]"));
        app.push_line(LineKind::System, chars_of(""));
        app.push_line(
            LineKind::System,
            chars_of(" ── SYSTEM LOADED ──────────────────────────────────────────"),
        );
        let mut port_line = chars_of("  • Port  : http://localhost:");
        decimal_text(&mut port_line, port as u64);
        push_str(&mut port_line, " (Remote UI)");
        app.push_line(LineKind::System, port_line);
        app.push_line(LineKind::System, chars_of("  • Keys  : Ctrl+C (Quit) | Ctrl+R (Reset)"));
        app.push_line(
            LineKind::System,
            chars_of(" ───────────────────────────────────────────────────────────"),
        );
        app.push_line(LineKind::System, chars_of(""));
        assert(app@.output =~= banner(port as int));
        app
    }

    /// Handles a key press (see [`apply_key`]).
    pub fn on_key(&mut self, mods: KeyMods, key: Key) -> (r: KeyOutcome)
        ensures
            (final(self)@, outcome_view(r)) == apply_key(old(self)@, mods, key),
    {
        if mods == KeyMods::ControlOnly && key == Key::Char('c') {
            return KeyOutcome::Quit;
        }
        if mods == KeyMods::ControlOnly && key == Key::Char('r') {
            self.output = Vec::new();
            assert(lines_view(self.output@) =~= seq![]);
            self.push_line(LineKind::System, chars_of("── conversation reset ──"));
            assert(self@.output =~= seq![(LineKind::System, "── conversation reset ──"@)]);
            return KeyOutcome::Reset;
        }
        match key {
            Key::PageUp => {
                self.scroll = self.scroll.saturating_add(5);
                KeyOutcome::Continue
            },
            Key::PageDown => {
                self.scroll = self.scroll.saturating_sub(5);
                if self.scroll < 5 {
                    self.scroll = 0;
                }
                KeyOutcome::Continue
            },
            Key::Char('g') if mods == KeyMods::NoModifiers => {
                self.scroll = 0;
                KeyOutcome::Continue
            },
            Key::Enter if self.input.as_str().unicode_len() > 0 && !self.busy => {
                let text = self.input.clone();
                self.input = String::new();
                self.busy = true;
                self.thinking_buf = String::new();
                KeyOutcome::Submit(text)
            },
            Key::Backspace => {
                self.input.pop();
                KeyOutcome::Continue
            },
            Key::Char(c) => {
                if !self.busy {
                    self.input.push(c);
                }
                KeyOutcome::Continue
            },
            _ => KeyOutcome::Continue,
        }
    }

    /// The mouse wheel scrolls by two lines: back (`up`) or toward the
    /// tail, snapping to the tail when closer than two lines.
    pub fn on_wheel(&mut self, up: bool)
        ensures
            final(self)@ == (AppView {
                scroll: if up {
                    sat_add(old(self)@.scroll, 2)
                } else {
                    scroll_down(old(self)@.scroll, 2)
                },
                ..old(self)@
            }),
    {
        if up {
            self.scroll = self.scroll.saturating_add(2);
        } else {
            self.scroll = self.scroll.saturating_sub(2);
            if self.scroll < 2 {
                self.scroll = 0;
            }
        }
    }
}

// ---------------------------------------------------------------------------
// Layout
// ---------------------------------------------------------------------------

/// The screen rows that one line of text takes at width `w`: its character
/// count as a `u16` (so modulo 65536) divided by `w` rounding up, plus one
/// when it holds a space (word wrapping may need it); an empty line takes
/// one.
pub open spec fn line_rows(l: Seq<char>, w: int) -> int {
    let n = l.len() as int % 65536;
    if n == 0 {
        1
    } else {
        (n + w - 1) / w + if l.contains(' ') {
            1int
        } else {
            0int
        }
    }
}

/// The rows of the lines `ls`.
pub open spec fn lines_rows(ls: Seq<Seq<char>>, w: int) -> int
    decreases ls.len(),
{
    if ls.len() == 0 {
        0
    } else {
        lines_rows(ls.drop_last(), w) + line_rows(ls.last(), w)
    }
}

/// The rows of one transcript entry: an empty entry takes one row,
/// otherwise each of its lines counts.
pub open spec fn entry_rows(t: Seq<char>, w: int) -> int {
    if t.len() == 0 {
        1
    } else {
        lines_rows(crate::text::lines(t), w)
    }
}

/// The rows of the transcript.
pub open spec fn output_rows(o: Seq<(LineKind, Seq<char>)>, w: int) -> int
    decreases o.len(),
{
    if o.len() == 0 {
        0
    } else {
        output_rows(o.drop_last(), w) + entry_rows(o.last().1, w)
    }
}

/// Whether the transcript holds more than the banner and notices.
pub open spec fn has_conversation(o: Seq<(LineKind, Seq<char>)>) -> bool {
    exists|i: int|
        0 <= i < o.len() && match (#[trigger] o[i]).0 {
            LineKind::User | LineKind::Assistant | LineKind::Error | LineKind::ToolStart
            | LineKind::ToolDone => true,
            _ => false,
        }
}

/// The width inside the transcript's border: two less, at least one.
pub open spec fn inner_width(width: int) -> int {
    if sat_sub(width, 2) < 1 {
        1
    } else {
        sat_sub(width, 2)
    }
}

/// The first row shown: the transcript is pinned to its tail, less the
/// lines scrolled back; before any conversation it stays at the top.
pub open spec fn scroll_row(a: AppView, width: int, height: int) -> int {
    let max = if has_conversation(a.output) {
        sat_sub(output_rows(a.output, inner_width(width)), sat_sub(height, 2))
    } else {
        0
    };
    sat_sub(max, a.scroll)
}

/// Lines never take a negative number of rows.
pub proof fn lemma_rows_nonneg(ls: Seq<Seq<char>>, w: int)
    requires
        w >= 1,
    ensures
        lines_rows(ls, w) >= 0,
    decreases ls.len(),
{
    if ls.len() > 0 {
        lemma_rows_nonneg(ls.drop_last(), w);
        assert(line_rows(ls.last(), w) >= 0) by (nonlinear_arith)
            requires
                w >= 1,
        {
        }
    }
}

/// The first lines of the transcript take no more rows than the whole transcript.
pub proof fn lemma_output_rows_mono(o: Seq<(LineKind, Seq<char>)>, w: int, n: int)
    requires
        w >= 1,
        0 <= n <= o.len(),
    ensures
        0 <= output_rows(o.take(n), w) <= output_rows(o, w),
    decreases o.len() - n,
{
    lemma_output_rows_nonneg(o.take(n), w);
    if n < o.len() {
        lemma_output_rows_mono(o, w, n + 1);
        assert(o.take(n + 1).drop_last() =~= o.take(n));
        assert(o.take(n + 1).last() == o[n]);
        let t = o[n].1;
        if t.len() > 0 {
            lemma_rows_nonneg(crate::text::lines(t), w);
        }
    } else {
        assert(o.take(n) =~= o);
    }
}

/// The transcript never takes a negative number of rows.
pub proof fn lemma_output_rows_nonneg(o: Seq<(LineKind, Seq<char>)>, w: int)
    requires
        w >= 1,
    ensures
        output_rows(o, w) >= 0,
    decreases o.len(),
{
    if o.len() > 0 {
        lemma_output_rows_nonneg(o.drop_last(), w);
        if o.last().1.len() > 0 {
            lemma_rows_nonneg(crate::text::lines(o.last().1), w);
        }
    }
}

fn line_rows_exec(l: &Vec<char>, w: u16) -> (r: u64)
    requires
        w >= 1,
    ensures
        r == line_rows(l@, w as int),
        r <= 65536,
{
    let n: u64 = (l.len() % 65536) as u64;
    if n == 0 {
        1
    } else {
        let q: u64 = (n + w as u64 - 1) / w as u64;
        assert(q <= 65535) by (nonlinear_arith)
            requires
                q == (n + w - 1) / (w as int),
                n <= 65535,
                w >= 1,
        {
        }
        if contains_char(l, ' ') {
            q + 1
        } else {
            q
        }
    }
}

/// The width inside the transcript's border for an area `width` wide.
pub fn inner_width_of(width: u16) -> (r: u16)
    ensures
        r == inner_width(width as int),
        r >= 1,
{
    let w = width.saturating_sub(2);
    if w < 1 {
        1
    } else {
        w
    }
}

impl App {
    /// The screen rows the transcript takes at inner width `width`, or
    /// `None` when they are more than a `u16` counts (drawing such a
    /// transcript overflows).
    pub fn output_rows(&self, width: u16) -> (r: Option<u16>)
        requires
            width >= 1,
        ensures
            match r {
                Some(n) => n == output_rows(self@.output, width as int),
                None => output_rows(self@.output, width as int) > 65535,
            },
    {
        let ghost o = self@.output;
        let mut total: u64 = 0;
        let mut i: usize = 0;
        while i < self.output.len()
            invariant
                0 <= i <= self.output.len(),
                width >= 1,
                o == self@.output,
                total == output_rows(o.take(i as int), width as int),
                total <= 65535,
            decreases self.output.len() - i,
        {
            proof {
                assert(o.take(i + 1).drop_last() =~= o.take(i as int));
                assert(o[i as int].1 == self.output@[i as int].1@);
            }
            let text = chars_of(self.output[i].1.as_str());
            if text.len() == 0 {
                total = total + 1;
            } else {
                let ls = split_lines(&text);
                let ghost lv = crate::text::views(ls@);
                assert(lv == crate::text::lines(o[i as int].1));
                let mut j: usize = 0;
                let ghost base = total;
                assert(lv.take(0) =~= seq![]);
                while j < ls.len()
                    invariant
                        0 <= j <= ls.len(),
                        width >= 1,
                        i < self.output.len(),
                        o == self@.output,
                        lv == crate::text::views(ls@),
                        lv == crate::text::lines(o[i as int].1),
                        o[i as int].1.len() > 0,
                        base == output_rows(o.take(i as int), width as int),
                        total == base + lines_rows(lv.take(j as int), width as int),
                        total <= 65535,
                        base >= 0,
                    decreases ls.len() - j,
                {
                    assert(lv.take(j + 1).drop_last() =~= lv.take(j as int));
                    let add = line_rows_exec(&ls[j], width);
                    if total + add > 65535 {
                        proof {
                            lemma_rows_nonneg(lv.skip(j + 1), width as int);
                            lemma_lines_rows_split(lv, j + 1, width as int);
                            lemma_output_rows_mono(o, width as int, i + 1);
                            assert(o.take(i + 1).drop_last() =~= o.take(i as int));
                            assert(o.take(i + 1).last() == o[i as int]);
                        }
                        return None;
                    }
                    total = total + add;
                    j = j + 1;
                }
                assert(lv.take(ls.len() as int) =~= lv);
            }
            if total > 65535 {
                proof {
                    lemma_output_rows_mono(o, width as int, i + 1);
                }
                return None;
            }
            i = i + 1;
        }
        assert(o.take(self.output.len() as int) =~= o);
        Some(total as u16)
    }

    /// The first transcript row to show in an area of `width` by `height`
    /// (borders included).
    pub fn scroll_offset(&self, width: u16, height: u16) -> (r: u16)
        requires
            output_rows(self@.output, inner_width(width as int)) <= 65535,
        ensures
            r == scroll_row(self@, width as int, height as int),
    {
        let mut w = width.saturating_sub(2);
        if w < 1 {
            w = 1;
        }
        let h = height.saturating_sub(2);
        let rows = match self.output_rows(w) {
            Some(n) => n,
            None => 0,
        };
        let mut conversation = false;
        let mut i: usize = 0;
        while i < self.output.len()
            invariant
                0 <= i <= self.output.len(),
                conversation == exists|k: int|
                    0 <= k < i && match (#[trigger] self@.output[k]).0 {
                        LineKind::User | LineKind::Assistant | LineKind::Error
                        | LineKind::ToolStart | LineKind::ToolDone => true,
                        _ => false,
                    },
            decreases self.output.len() - i,
        {
            assert(self@.output[i as int].0 == self.output@[i as int].0);
            match self.output[i].0 {
                LineKind::User | LineKind::Assistant | LineKind::Error | LineKind::ToolStart
                | LineKind::ToolDone => {
                    conversation = true;
                },
                _ => {},
            }
            i = i + 1;
        }
        let max = if conversation {
            rows.saturating_sub(h)
        } else {
            0
        };
        max.saturating_sub(self.scroll)
    }

    /// The title of the prompt box.
    pub fn input_title(&self) -> (r: &'static str)
        ensures
            r@ == (if self.busy {
                " working... "@
            } else {
                " prompt "@
            }),
    {
        if self.busy {
            " working... "
        } else {
            " prompt "
        }
    }
}

/// The rows of lines are the rows of a prefix plus the rows of the rest.
pub proof fn lemma_lines_rows_split(ls: Seq<Seq<char>>, n: int, w: int)
    requires
        0 <= n <= ls.len(),
        w >= 1,
    ensures
        lines_rows(ls, w) == lines_rows(ls.take(n), w) + lines_rows(ls.skip(n), w),
    decreases ls.len(),
{
    if ls.len() == n {
        assert(ls.take(n) =~= ls);
        assert(ls.skip(n) =~= seq![]);
    } else {
        lemma_lines_rows_split(ls.drop_last(), n, w);
        assert(ls.drop_last().take(n) =~= ls.take(n));
        assert(ls.skip(n).drop_last() =~= ls.drop_last().skip(n));
        assert(ls.skip(n).last() == ls.last());
    }
}

// ---------------------------------------------------------------------------
// Status bar
// ---------------------------------------------------------------------------

/// A mode's name in capitals.
pub open spec fn mode_label(m: AgentMode) -> Seq<char> {
    match m {
        AgentMode::Coder => "CODER"@,
        AgentMode::Cpe => "CPE"@,
        AgentMode::Eval => "EVAL"@,
        AgentMode::Research => "RESEARCH"@,
        AgentMode::Architect => "ARCHITECT"@,
        AgentMode::Librarian => "LIBRARIAN"@,
    }
}

/// A mode's name in capitals.
pub fn mode_label_exec(m: AgentMode) -> (r: &'static str)
    ensures
        r@ == mode_label(m),
{
    match m {
        AgentMode::Coder => "CODER",
        AgentMode::Cpe => "CPE",
        AgentMode::Eval => "EVAL",
        AgentMode::Research => "RESEARCH",
        AgentMode::Architect => "ARCHITECT",
        AgentMode::Librarian => "LIBRARIAN",
    }
}

/// The status bar, with the transfer rates as printed.
pub open spec fn status_text(a: AppView, tx: Seq<char>, rx: Seq<char>) -> Seq<char> {
    " mode: "@ + mode_label(a.mode) + " | step "@ + crate::fmt::decimal(a.step as nat)
        + " | last: "@ + crate::fmt::decimal(a.last_ms as nat) + "ms | tx: "@ + tx + "kbps | rx: "@
        + rx + "kbps"@ + (if a.tools.len() == 0 {
        seq![]
    } else {
        " | 🔧 "@ + crate::text::join(a.tools, ", "@)
    }) + (if a.scroll > 0 {
        " | ↑ scrolled (PgDn/g to tail)"@
    } else {
        seq![]
    }) + " | Ctrl+C quit"@
}

impl App {
    /// The status bar: mode, step, the last turn's duration, the transfer
    /// rates `tx` and `rx` as already printed, the tools running, and
    /// whether the view is scrolled back.
    pub fn status_line(&self, tx: &str, rx: &str) -> (r: String)
        ensures
            r@ == status_text(self@, tx@, rx@),
    {
        let mut s = chars_of(" mode: ");
        push_str(&mut s, mode_label_exec(self.mode));
        push_str(&mut s, " | step ");
        decimal_text(&mut s, self.step_count as u64);
        push_str(&mut s, " | last: ");
        decimal_text(&mut s, self.last_duration_ms);
        push_str(&mut s, "ms | tx: ");
        push_str(&mut s, tx);
        push_str(&mut s, "kbps | rx: ");
        push_str(&mut s, rx);
        push_str(&mut s, "kbps");
        let ghost before_tools = s@;
        if self.active_tools.len() > 0 {
            push_str(&mut s, " | 🔧 ");
            let mut parts: Vec<Vec<char>> = Vec::new();
            let mut i: usize = 0;
            while i < self.active_tools.len()
                invariant
                    0 <= i <= self.active_tools.len(),
                    crate::text::views(parts@) == self@.tools.take(i as int),
                decreases self.active_tools.len() - i,
            {
                let ghost pb = parts@;
                let t = chars_of(self.active_tools[i].as_str());
                parts.push(t);
                proof {
                    crate::text::lemma_views_push(pb, t);
                    assert(self@.tools.take(i + 1) =~= self@.tools.take(i as int).push(
                        self@.tools[i as int],
                    ));
                }
                i = i + 1;
            }
            assert(self@.tools.take(self.active_tools.len() as int) =~= self@.tools);
            push_all(&mut s, &crate::text::join_exec(&parts, &chars_of(", ")));
        }
        if self.scroll > 0 {
            push_str(&mut s, " | ↑ scrolled (PgDn/g to tail)");
        }
        push_str(&mut s, " | Ctrl+C quit");
        proof {
            reveal_strlit("");
        }
        assert(s@ =~= status_text(self@, tx@, rx@));
        string_of(&s)
    }
}

// ---------------------------------------------------------------------------
// Laws
// ---------------------------------------------------------------------------

proof fn lemma_notice_lines_prefix(o: Seq<(LineKind, Seq<char>)>, ls: Seq<Seq<char>>)
    ensures
        notice_lines(o, ls).len() == o.len() + ls.len(),
        notice_lines(o, ls).take(o.len() as int) == o,
    decreases ls.len(),
{
    if ls.len() > 0 {
        lemma_notice_lines_prefix(o, ls.drop_last());
        let p = notice_lines(o, ls.drop_last());
        assert(p.push((LineKind::System, "  "@ + ls.last())).take(o.len() as int) =~= p.take(
            o.len() as int,
        ));
    } else {
        assert(o.take(o.len() as int) =~= o);
    }
}

/// The transcript only grows: an event keeps every line, except that
/// streamed text may extend the last line, which keeps its kind and its
/// text as a prefix.
pub proof fn lemma_transcript_grows(a: AppView, e: EventV)
    ensures
        apply_event(a, e).output.len() >= a.output.len(),
        forall|i: int|
            0 <= i < a.output.len() - 1 ==> #[trigger] apply_event(a, e).output[i] == a.output[i],
        a.output.len() > 0 ==> apply_event(a, e).output[a.output.len() - 1].0 == a.output.last().0
            && a.output.last().1.is_prefix_of(apply_event(a, e).output[a.output.len() - 1].1),
{
    let o = a.output;
    let n = o.len();
    let r = apply_event(a, e).output;
    match e {
        EventV::UserMessage(text) => {
            if crate::text::starts_with(text, "SYSTEM:"@) {
                let content = crate::text::trim(strip_prefixes(text, "SYSTEM:"@));
                lemma_notice_lines_prefix(o, crate::text::lines(content));
                assert forall|i: int| 0 <= i < n implies #[trigger] r[i] == o[i] by {
                    assert(r.take(n as int)[i] == r[i]);
                }
            }
        },
        EventV::ToolCallFinished(tool, ms, success, preview) => {},
        _ => {},
    }
    if n > 0 {
        assert(o.last().1.is_prefix_of(r[n - 1].1)) by {
            assert(r[n - 1].1.subrange(0, o.last().1.len() as int) =~= o.last().1);
        }
    }
}

/// Enter with a typed prompt and no turn running submits exactly what was
/// typed, empties the prompt and locks it until the turn ends.
pub proof fn lemma_enter_submits(a: AppView, m: KeyMods)
    requires
        a.input.len() > 0,
        !a.busy,
    ensures
        apply_key(a, m, Key::Enter) == (
            AppView { input: seq![], busy: true, thinking: seq![], ..a },
            OutcomeV::Submit(a.input),
        ),
{
}

/// Ctrl+C quits and changes nothing.
pub proof fn lemma_ctrl_c_quits(a: AppView)
    ensures
        apply_key(a, KeyMods::ControlOnly, Key::Char('c')) == (a, OutcomeV::Quit),
{
}

/// Ctrl+R resets the conversation: it asks for the agent to be reset and
/// clears the transcript down to the one reset notice; the prompt, the
/// scroll position and the rest of the state stay as they were.
pub proof fn lemma_ctrl_r_resets(a: AppView)
    ensures
        apply_key(a, KeyMods::ControlOnly, Key::Char('r')).0.output == seq![
            (LineKind::System, "── conversation reset ──"@),
        ],
        apply_key(a, KeyMods::ControlOnly, Key::Char('r')).0.input == a.input,
        apply_key(a, KeyMods::ControlOnly, Key::Char('r')).0.scroll == a.scroll,
        apply_key(a, KeyMods::ControlOnly, Key::Char('r')).1 == OutcomeV::Reset,
{
}

/// PageDown undoes PageUp, whatever the modifiers: from the tail (scroll 0),
/// or from five or more lines back as long as PageUp did not saturate.
pub proof fn lemma_page_down_undoes_page_up(a: AppView, m1: KeyMods, m2: KeyMods)
    requires
        a.scroll == 0 || 5 <= a.scroll,
        a.scroll + 5 <= 65535,
    ensures
        apply_key(apply_key(a, m1, Key::PageUp).0, m2, Key::PageDown).0 == a,
{
}

} // verus!
