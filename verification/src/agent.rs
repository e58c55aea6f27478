//! The agent's conversation: the decisions of the agent loop, taken one
//! event at a time. The loop itself (calling the model, running tools,
//! saving to the episodic store) runs outside this library and hands each
//! outcome to the methods here.
use vstd::prelude::*;
use crate::llm::{Message, ToolCallFunction, ToolCallResponse};
use crate::mode::AgentMode;
use crate::skills::SkillLibrary;
use crate::text::{
    chars_of, find_char_exec, is_ws_char, push_all, push_str, slice_chars, string_of, utf8_len_gt,
};

verus! {

/// The plain value of a message.
pub struct MessageView {
    pub role: Seq<char>,
    pub content: Option<Seq<char>>,
    pub tool_calls: Option<Seq<(Seq<char>, Seq<char>, Seq<char>)>>,
    pub tool_call_id: Option<Seq<char>>,
}

pub open spec fn opt_view(o: Option<String>) -> Option<Seq<char>> {
    match o {
        Some(s) => Some(s@),
        None => None,
    }
}

pub open spec fn call_view(c: ToolCallResponse) -> (Seq<char>, Seq<char>, Seq<char>) {
    (c.id@, c.function.name@, c.function.arguments@)
}

impl View for Message {
    type V = MessageView;

    open spec fn view(&self) -> MessageView {
        MessageView {
            role: self.role@,
            content: opt_view(self.content),
            tool_calls: match self.tool_calls {
                Some(v) => Some(v@.map_values(|c: ToolCallResponse| call_view(c))),
                None => None,
            },
            tool_call_id: opt_view(self.tool_call_id),
        }
    }
}

/// The views of a sequence of messages.
pub open spec fn msgs_view(s: Seq<Message>) -> Seq<MessageView> {
    s.map_values(|m: Message| m@)
}

proof fn lemma_msgs_push(s: Seq<Message>, m: Message)
    ensures
        msgs_view(s.push(m)) == msgs_view(s).push(m@),
{
    assert(msgs_view(s.push(m)) =~= msgs_view(s).push(m@));
}

/// A message with a role and a text, and no tool calls.
pub open spec fn text_message(role: Seq<char>, text: Seq<char>) -> MessageView {
    MessageView { role, content: Some(text), tool_calls: None, tool_call_id: None }
}

pub(crate) fn make_text_message(role: &str, text: String) -> (r: Message)
    ensures
        r@ == text_message(role@, text@),
{
    Message { role: String::from_str(role), content: Some(text), tool_calls: None, tool_call_id: None }
}

// ---------------------------------------------------------------------------
// Keywords for episodic recall
// ---------------------------------------------------------------------------

/// The first whitespace character at or after `i`, or the end.
pub open spec fn word_end(s: Seq<char>, i: int) -> int
    decreases s.len() - i,
{
    if i < 0 || i >= s.len() {
        s.len() as int
    } else if crate::text::is_ws(s[i]) {
        i
    } else {
        word_end(s, i + 1)
    }
}

/// The first non-whitespace character at or after `i`, or the end.
pub open spec fn word_start(s: Seq<char>, i: int) -> int
    decreases s.len() - i,
{
    if i < 0 || i >= s.len() {
        s.len() as int
    } else if !crate::text::is_ws(s[i]) {
        i
    } else {
        word_start(s, i + 1)
    }
}

/// Word scanning stays within the text, and a word that starts before the end is not empty.
pub proof fn lemma_word_bounds(s: Seq<char>, i: int)
    requires
        0 <= i <= s.len(),
    ensures
        i <= word_start(s, i) <= s.len(),
        i <= word_end(s, i) <= s.len(),
        word_start(s, i) < s.len() ==> word_end(s, word_start(s, i)) > word_start(s, i),
    decreases s.len() - i,
{
    if i < s.len() {
        lemma_word_bounds(s, i + 1);
    }
    let j = word_start(s, i);
    if j < s.len() {
        assert(!crate::text::is_ws(s[j])) by {
            lemma_word_start_props(s, i);
        }
    }
}

/// A word starts at the first non-whitespace character from `i` on.
pub proof fn lemma_word_start_props(s: Seq<char>, i: int)
    requires
        0 <= i <= s.len(),
    ensures
        word_start(s, i) < s.len() ==> !crate::text::is_ws(s[word_start(s, i)]),
        forall|k: int| i <= k < word_start(s, i) ==> crate::text::is_ws(s[k]),
    decreases s.len() - i,
{
    if i < s.len() && crate::text::is_ws(s[i]) {
        lemma_word_start_props(s, i + 1);
    }
}

/// `str::split_whitespace` of the suffix that starts at `i`.
pub open spec fn words_from(s: Seq<char>, i: int) -> Seq<Seq<char>>
    decreases s.len() - i,
{
    if i < 0 || i >= s.len() {
        seq![]
    } else if word_start(s, i) >= s.len() {
        seq![]
    } else {
        proof {
            lemma_word_bounds(s, i);
            lemma_word_bounds(s, word_start(s, i));
            assert(word_end(s, word_start(s, i)) > i);
            assert(word_end(s, word_start(s, i)) <= s.len());
        }
        seq![s.subrange(word_start(s, i), word_end(s, word_start(s, i)))] + words_from(
            s,
            word_end(s, word_start(s, i)),
        )
    }
}

/// `str::split_whitespace`.
pub open spec fn words(s: Seq<char>) -> Seq<Seq<char>> {
    words_from(s, 0)
}

/// The longest of `ws` in bytes; of equally long ones the last, as
/// `Iterator::max_by_key` picks; the empty text when there are none.
pub open spec fn longest(ws: Seq<Seq<char>>) -> Seq<char>
    decreases ws.len(),
{
    if ws.len() == 0 {
        seq![]
    } else {
        let b = longest(ws.drop_last());
        if crate::text::utf8_len(ws.last()) >= crate::text::utf8_len(b) {
            ws.last()
        } else {
            b
        }
    }
}

/// The longest word of `input`, the keyword that episodic recall searches
/// for.
pub fn salient_keyword(input: &str) -> (r: String)
    requires
        crate::text::utf8_len(input@) <= usize::MAX,
    ensures
        r@ == longest(words(input@)),
{
    let s = chars_of(input);
    let ghost all = words(s@);
    let mut best: Vec<char> = Vec::new();
    let mut best_len: usize = 0;
    let mut i: usize = 0;
    let ghost mut seen: Seq<Seq<char>> = seq![];
    while i < s.len()
        invariant
            0 <= i <= s.len(),
            s@ == input@,
            crate::text::utf8_len(s@) <= usize::MAX,
            all == words(s@),
            seen + words_from(s@, i as int) == all,
            best@ == longest(seen),
            best_len == crate::text::utf8_len(best@),
        decreases s.len() - i,
    {
        let mut j = i;
        while j < s.len() && is_ws_char(s[j])
            invariant
                i <= j <= s.len(),
                word_start(s@, i as int) == word_start(s@, j as int),
            decreases s.len() - j,
        {
            j = j + 1;
        }
        if j >= s.len() {
            proof {
                assert(words_from(s@, i as int) =~= seq![]);
                assert(seen + words_from(s@, j as int) =~= seen + words_from(s@, i as int));
            }
            i = s.len();
        } else {
            let mut e = j;
            while e < s.len() && !is_ws_char(s[e])
                invariant
                    j <= e <= s.len(),
                    word_end(s@, j as int) == word_end(s@, e as int),
                decreases s.len() - e,
            {
                e = e + 1;
            }
            proof {
                lemma_word_bounds(s@, i as int);
                crate::text::lemma_utf8_len_subrange(s@, j as int, e as int);
            }
            let w = slice_chars(&s, j, e);
            let wl = crate::text::utf8_len_exec(&w);
            let ghost old_seen = seen;
            proof {
                seen = seen.push(w@);
                assert(seen.drop_last() =~= old_seen);
                assert(words_from(s@, i as int) == seq![w@] + words_from(s@, e as int));
                assert(seen + words_from(s@, e as int) =~= old_seen + words_from(s@, i as int));
            }
            if wl >= best_len {
                best = w;
                best_len = wl;
            }
            i = e;
        }
    }
    proof {
        assert(words_from(s@, i as int) =~= seq![]);
        assert(seen =~= all);
    }
    string_of(&best)
}


/// Whether the longest word is long enough (more than four bytes) to search
/// the episodic store for.
pub open spec fn recall_keyword(input: Seq<char>) -> Option<Seq<char>> {
    let k = longest(words(input));
    if crate::text::utf8_len(k) > 4 {
        Some(k)
    } else {
        None
    }
}

/// The keyword to recall past context for, if the input has a word longer
/// than four bytes.
pub fn episodic_keyword(input: &str) -> (r: Option<String>)
    requires
        crate::text::utf8_len(input@) <= usize::MAX,
    ensures
        opt_view(r) == recall_keyword(input@),
{
    let k = salient_keyword(input);
    if utf8_len_gt(&chars_of(k.as_str()), 4) {
        Some(k)
    } else {
        None
    }
}

/// The system message that carries recalled memories.
pub open spec fn recall_text(keyword: Seq<char>, memories: Seq<Seq<char>>) -> Seq<char> {
    "EPISODIC MEMORY RECALL (Past context regarding '"@ + keyword + "'):\n"@ + crate::text::join(
        memories,
        "\n---\n"@,
    )
}

/// Byte length of a message's content, divided by four (none counts zero).
pub open spec fn content_tokens(m: MessageView) -> int {
    match m.content {
        Some(c) => (crate::text::utf8_len(c) / 4) as int,
        None => 0,
    }
}

/// The rough token count of a conversation: four bytes of content per token.
pub open spec fn token_estimate(ms: Seq<MessageView>) -> int
    decreases ms.len(),
{
    if ms.len() == 0 {
        0
    } else {
        token_estimate(ms.drop_last()) + content_tokens(ms.last())
    }
}

/// The estimate of a conversation's first messages is at most that of the whole conversation.
pub proof fn lemma_token_estimate_mono(ms: Seq<MessageView>, i: int)
    requires
        0 <= i <= ms.len(),
    ensures
        token_estimate(ms.take(i)) <= token_estimate(ms),
        0 <= token_estimate(ms.take(i)),
    decreases ms.len() - i,
{
    if i < ms.len() {
        lemma_token_estimate_mono(ms, i + 1);
        assert(ms.take(i + 1).drop_last() =~= ms.take(i));
    } else {
        assert(ms.take(i) =~= ms);
    }
    lemma_token_estimate_nonneg(ms.take(i));
}

/// A token estimate is never negative.
pub proof fn lemma_token_estimate_nonneg(ms: Seq<MessageView>)
    ensures
        0 <= token_estimate(ms),
    decreases ms.len(),
{
    if ms.len() > 0 {
        lemma_token_estimate_nonneg(ms.drop_last());
    }
}

/// `utf8_len(v) / 4`, computed without forming the byte length.
fn quarter_bytes(v: &Vec<char>, bound: usize) -> (r: Option<usize>)
    ensures
        match r {
            Some(q) => q == crate::text::utf8_len(v@) / 4 && q <= bound,
            None => crate::text::utf8_len(v@) / 4 > bound,
        },
{
    let mut q: usize = 0;
    let mut rem: usize = 0;
    let mut i: usize = 0;
    while i < v.len()
        invariant
            0 <= i <= v.len(),
            rem < 4,
            q <= bound,
            q * 4 + rem == crate::text::utf8_len(v@.take(i as int)),
        decreases v.len() - i,
    {
        proof {
            assert(v@.take(i + 1).drop_last() =~= v@.take(i as int));
        }
        rem = rem + crate::text::utf8_width_exec(v[i]);
        i = i + 1;
        if rem >= 4 {
            if q == bound {
                proof {
                    crate::text::lemma_utf8_len_prefix_le(v@, i as int);
                }
                return None;
            }
            q = q + 1;
            rem = rem - 4;
        }
    }
    assert(v@.take(v.len() as int) =~= v@);
    Some(q)
}

/// How a tool call is served.
#[derive(Debug, Clone, Copy, PartialEq, Eq, Structural)]
pub enum ToolRoute {
    /// A sub-agent runs the task.
    Delegate,
    /// A tool of a connected MCP server.
    Mcp,
    /// One of the built-in tools.
    Builtin,
}

/// `delegate_task` goes to a sub-agent; a tool that an MCP server offers goes
/// to that server; anything else is a built-in tool.
pub fn tool_route(name: &str, offered_by_mcp: bool) -> (r: ToolRoute)
    ensures
        r == if name@ == "delegate_task"@ {
            ToolRoute::Delegate
        } else if offered_by_mcp {
            ToolRoute::Mcp
        } else {
            ToolRoute::Builtin
        },
{
    if crate::text::equals_str(&chars_of(name), "delegate_task") {
        ToolRoute::Delegate
    } else if offered_by_mcp {
        ToolRoute::Mcp
    } else {
        ToolRoute::Builtin
    }
}

/// A task handed to a sub-agent: its description and the name of its mode.
#[derive(Debug)]
pub struct DelegateRequest {
    pub task: String,
    pub mode: String,
}

/// The request of a `delegate_task` call from what its arguments hold for
/// `task` (the parser's error when they are not JSON) and for `mode`: the
/// task, empty when absent, and the mode, `coder` when absent; or the
/// message for arguments that are not JSON.
pub open spec fn delegate_of(task: Result<Option<Seq<char>>, Seq<char>>, mode: Option<Seq<char>>) -> Result<
    (Seq<char>, Seq<char>),
    Seq<char>,
> {
    match task {
        Err(e) => Err("Failed to parse delegate_task arguments: "@ + e),
        Ok(t) => Ok((crate::tools::or_default(t, ""@), crate::tools::or_default(mode, "coder"@))),
    }
}

/// The plain value of a delegation result.
pub open spec fn delegate_view(r: Result<DelegateRequest, String>) -> Result<
    (Seq<char>, Seq<char>),
    Seq<char>,
> {
    match r {
        Ok(d) => Ok((d.task@, d.mode@)),
        Err(e) => Err(e@),
    }
}

/// Builds the request of a `delegate_task` call from what its arguments
/// hold for `task` and `mode` (see [`delegate_of`]).
pub fn delegate_from(task: Result<Option<String>, String>, mode: Option<String>) -> (r: Result<
    DelegateRequest,
    String,
>)
    ensures
        delegate_view(r) == delegate_of(crate::json::member_view(task), opt_view(mode)),
{
    let ghost tv = crate::json::member_view(task);
    let ghost mv = opt_view(mode);
    match task {
        Err(e) => {
            let mut m = chars_of("Failed to parse delegate_task arguments: ");
            push_str(&mut m, e.as_str());
            assert(tv == Err::<Option<Seq<char>>, Seq<char>>(e@));
            let msg = string_of(&m);
            assert(msg@ =~= "Failed to parse delegate_task arguments: "@ + e@);
            assert(delegate_of(tv, mv) == Err::<(Seq<char>, Seq<char>), Seq<char>>(msg@));
            Err(msg)
        },
        Ok(t) => {
            let ghost tt = opt_view(t);
            assert(tv == Ok::<Option<Seq<char>>, Seq<char>>(tt));
            let task = match t {
                Some(s) => s,
                None => {
                    proof {
                        reveal_strlit("");
                    }
                    String::new()
                },
            };
            let mode = match mode {
                Some(s) => s,
                None => String::from_str("coder"),
            };
            assert(task@ =~= crate::tools::or_default(tt, ""@));
            assert(mode@ =~= crate::tools::or_default(mv, "coder"@));
            Ok(DelegateRequest { task, mode })
        },
    }
}

/// The task and mode of a `delegate_task` call (empty and `coder` when the
/// arguments lack them), or the message of arguments that are not JSON.
pub fn delegate_request(args: &str) -> (r: Result<DelegateRequest, String>)
    ensures
        delegate_view(r) == delegate_of(
            crate::json::json_string_member(args@, "task"@),
            crate::tools::member_string(crate::json::json_string_member(args@, "mode"@)),
        ),
{
    let task = crate::json::read_string_member(args, "task");
    let mode = match crate::json::read_string_member(args, "mode") {
        Ok(Some(s)) => Some(s),
        _ => None,
    };
    delegate_from(task, mode)
}

/// The record of an assistant message that requests tools, as kept in the
/// episodic memory: the serialised calls, after the message's text and a
/// `Tool Calls:` line when the text is not empty.
pub fn assistant_record(content: &str, calls_json: &str) -> (r: String)
    ensures
        r@ == if content@.len() == 0 {
            calls_json@
        } else {
            content@ + "\nTool Calls: "@ + calls_json@
        },
{
    let c = chars_of(content);
    if c.len() == 0 {
        string_of(&chars_of(calls_json))
    } else {
        let mut out = c;
        push_str(&mut out, "\nTool Calls: ");
        push_str(&mut out, calls_json);
        string_of(&out)
    }
}

/// The preview of a tool's output shown while the agent works: the output
/// cut to 200 bytes, with `...` when it was longer.
pub fn tool_preview(output: &str) -> (r: String)
    requires
        crate::tools::clip_ok(output@, 200),
    ensures
        r@ == crate::tools::clipped(output@, 200, seq![]),
{
    let o = chars_of(output);
    let c = crate::tools::clip(&o, 200, &Vec::new());
    string_of(&c)
}

/// What a step of the agent loop starts with.
#[derive(Debug)]
pub struct StepStart {
    pub step: usize,
    pub tokens_in: usize,
    /// The estimate passed three quarters of the budget.
    pub over_budget: bool,
}

/// What the end of a model response leads to.
#[derive(Debug, PartialEq, Eq, Structural)]
pub enum StepOutcome {
    /// The model asked for tools; their results go back to it.
    ToolsRequested,
    /// The model answered; the turn is over.
    Finished,
}

/// The conversation state of an agent.
pub struct Agent {
    pub messages: Vec<Message>,
    pub max_tokens: usize,
    pub workdir: String,
    pub step: usize,
    pub mode: AgentMode,
    pub session_id: String,
}

/// The assistant message that carries tool calls.
pub open spec fn tool_call_message(
    content: Seq<char>,
    calls: Seq<(Seq<char>, Seq<char>, Seq<char>)>,
) -> MessageView {
    MessageView {
        role: "assistant"@,
        content: if content.len() == 0 {
            None
        } else {
            Some(content)
        },
        tool_calls: Some(calls),
        tool_call_id: None,
    }
}

pub open spec fn triples_view(v: Seq<(String, String, String)>) -> Seq<
    (Seq<char>, Seq<char>, Seq<char>),
> {
    v.map_values(|t: (String, String, String)| (t.0@, t.1@, t.2@))
}

/// Every tool call recorded in `m` has the type `function`.
pub open spec fn calls_typed(m: Message) -> bool {
    match m.tool_calls {
        Some(v) => forall|j: int| 0 <= j < v@.len() ==> (#[trigger] v@[j]).call_type@ == "function"@,
        None => true,
    }
}

/// The history after a turn opens: the recalled memories, if any, as a
/// system message, then the user's input.
pub open spec fn after_opening(
    h: Seq<MessageView>,
    keyword: Seq<char>,
    memories: Seq<Seq<char>>,
    user: Seq<char>,
) -> Seq<MessageView> {
    (if memories.len() > 0 {
        h.push(text_message("system"@, recall_text(keyword, memories)))
    } else {
        h
    }).push(text_message("user"@, user))
}

/// A tool's result as a message.
pub open spec fn tool_message(id: Seq<char>, output: Seq<char>) -> MessageView {
    MessageView { role: "tool"@, content: Some(output), tool_calls: None, tool_call_id: Some(id) }
}

/// The history after a model response: the assistant message carrying the
/// calls, or the non-empty answer.
pub open spec fn after_stream(
    h: Seq<MessageView>,
    content: Seq<char>,
    calls: Seq<(Seq<char>, Seq<char>, Seq<char>)>,
) -> Seq<MessageView> {
    if calls.len() > 0 {
        h.push(tool_call_message(content, calls))
    } else if content.len() > 0 {
        h.push(text_message("assistant"@, content))
    } else {
        h
    }
}

/// The history after the results of `calls` are recorded, one per call in
/// order, `outputs[i]` for the `i`-th.
pub open spec fn after_results(
    h: Seq<MessageView>,
    calls: Seq<(Seq<char>, Seq<char>, Seq<char>)>,
    outputs: Seq<Seq<char>>,
) -> Seq<MessageView>
    decreases calls.len(),
{
    if calls.len() == 0 {
        h
    } else {
        after_results(h, calls.drop_last(), outputs).push(
            tool_message(calls.last().0, outputs[calls.len() - 1]),
        )
    }
}

/// One step of a turn: the model's text, its tool calls, and their outputs.
pub type Step = (Seq<char>, Seq<(Seq<char>, Seq<char>, Seq<char>)>, Seq<Seq<char>>);

/// The history after the steps of a turn, in order.
pub open spec fn after_steps(h: Seq<MessageView>, steps: Seq<Step>) -> Seq<MessageView>
    decreases steps.len(),
{
    if steps.len() == 0 {
        h
    } else {
        let s = steps.last();
        after_results(after_stream(after_steps(h, steps.drop_last()), s.0, s.1), s.1, s.2)
    }
}

/// The messages that opening a turn adds.
pub open spec fn opening_messages(keyword: Seq<char>, memories: Seq<Seq<char>>, user: Seq<char>) -> Seq<
    MessageView,
> {
    after_opening(seq![], keyword, memories, user)
}

/// The messages that one step adds: the assistant message carrying the
/// calls followed by one tool message per call, or the non-empty answer.
pub open spec fn step_messages(s: Step) -> Seq<MessageView> {
    after_results(after_stream(seq![], s.0, s.1), s.1, s.2)
}

/// The messages that the steps add, in order.
pub open spec fn steps_messages(steps: Seq<Step>) -> Seq<MessageView>
    decreases steps.len(),
{
    if steps.len() == 0 {
        seq![]
    } else {
        steps_messages(steps.drop_last()) + step_messages(steps.last())
    }
}

proof fn lemma_results_append(h: Seq<MessageView>, calls: Seq<(Seq<char>, Seq<char>, Seq<char>)>, outputs: Seq<Seq<char>>)
    ensures
        after_results(h, calls, outputs) == h + after_results(seq![], calls, outputs),
    decreases calls.len(),
{
    if calls.len() == 0 {
        assert(h + Seq::<MessageView>::empty() =~= h);
    } else {
        lemma_results_append(h, calls.drop_last(), outputs);
        let t = tool_message(calls.last().0, outputs[calls.len() - 1]);
        assert(h + after_results(seq![], calls.drop_last(), outputs).push(t) =~= (h + after_results(
            seq![],
            calls.drop_last(),
            outputs,
        )).push(t));
    }
}

proof fn lemma_step_append(h: Seq<MessageView>, s: Step)
    ensures
        after_results(after_stream(h, s.0, s.1), s.1, s.2) == h + step_messages(s),
{
    lemma_results_append(after_stream(h, s.0, s.1), s.1, s.2);
    lemma_results_append(after_stream(seq![], s.0, s.1), s.1, s.2);
    if s.1.len() > 0 {
        assert(h.push(tool_call_message(s.0, s.1)) =~= h + seq![tool_call_message(s.0, s.1)]);
    } else if s.0.len() > 0 {
        assert(h.push(text_message("assistant"@, s.0)) =~= h + seq![text_message("assistant"@, s.0)]);
    } else {
        assert(h =~= h + Seq::<MessageView>::empty());
    }
    assert(h + after_stream(seq![], s.0, s.1) + after_results(seq![], s.1, s.2) =~= h + (after_stream(
        seq![],
        s.0,
        s.1,
    ) + after_results(seq![], s.1, s.2)));
}

/// A turn only appends to the conversation: after the opening (recalled
/// memories if any, then the user's input) and any steps, the history is
/// the old history, then the opening's messages, then each step's messages
/// in order: the assistant message with its tool calls and one result per
/// call in order, or the final non-empty answer.
pub proof fn lemma_turn_appends(
    h: Seq<MessageView>,
    keyword: Seq<char>,
    memories: Seq<Seq<char>>,
    user: Seq<char>,
    steps: Seq<Step>,
)
    ensures
        after_steps(after_opening(h, keyword, memories, user), steps) == h + opening_messages(
            keyword,
            memories,
            user,
        ) + steps_messages(steps),
    decreases steps.len(),
{
    if steps.len() == 0 {
        assert(after_opening(h, keyword, memories, user) =~= h + opening_messages(keyword, memories, user));
        assert(h + opening_messages(keyword, memories, user) + Seq::<MessageView>::empty() =~= h
            + opening_messages(keyword, memories, user));
    } else {
        lemma_turn_appends(h, keyword, memories, user, steps.drop_last());
        let prev = after_steps(after_opening(h, keyword, memories, user), steps.drop_last());
        lemma_step_append(prev, steps.last());
        assert(h + opening_messages(keyword, memories, user) + steps_messages(steps.drop_last())
            + step_messages(steps.last()) =~= h + opening_messages(keyword, memories, user)
            + steps_messages(steps));
    }
}

impl Agent {
    /// The conversation holds its system prompt first, every tool call in it
    /// has the type `function`, and the budget arithmetic cannot overflow.
    pub open spec fn wf(&self) -> bool {
        &&& self.messages.len() >= 1
        &&& self.messages@[0].role@ == "system"@
        &&& forall|i: int| 0 <= i < self.messages@.len() ==> calls_typed(#[trigger] self.messages@[i])
        &&& self.max_tokens * 3 <= usize::MAX
    }

    /// The messages as plain values.
    pub open spec fn history(&self) -> Seq<MessageView> {
        msgs_view(self.messages@)
    }

    /// A new conversation in `mode`, holding only its system prompt, under
    /// a fresh random session id.
    pub fn new(max_tokens: usize, workdir: &str, mode: AgentMode, library: &SkillLibrary) -> (r:
        Agent)
        requires
            max_tokens * 3 <= usize::MAX,
        ensures
            r.wf(),
            r.history() == seq![
                text_message(
                    "system"@,
                    crate::skills::composed_prompt(library@, crate::mode::mode_weights(mode)),
                ),
            ],
            r.max_tokens == max_tokens,
            r.workdir@ == workdir@,
            r.step == 0,
            r.mode == mode,
            crate::ids::is_uuid_text(r.session_id@),
    {
        let prompt = mode.system_prompt(library);
        let m = make_text_message("system", prompt);
        let mut messages: Vec<Message> = Vec::new();
        messages.push(m);
        proof {
            lemma_msgs_push(seq![], m);
            assert(seq![m] =~= seq![].push(m));
        }
        Agent {
            messages,
            max_tokens,
            workdir: String::from_str(workdir),
            step: 0,
            mode,
            session_id: crate::ids::new_uuid(),
        }
    }

    /// Switches to `mode` and replaces the system prompt with that mode's.
    pub fn set_mode(&mut self, mode: AgentMode, library: &SkillLibrary)
        requires
            old(self).wf(),
        ensures
            final(self).wf(),
            final(self).mode == mode,
            final(self).history() == old(self).history().update(
                0,
                MessageView {
                    content: Some(
                        crate::skills::composed_prompt(library@, crate::mode::mode_weights(mode)),
                    ),
                    ..old(self).history()[0]
                },
            ),
            final(self).step == old(self).step,
            final(self).max_tokens == old(self).max_tokens,
            final(self).session_id@ == old(self).session_id@,
            final(self).workdir@ == old(self).workdir@,
    {
        self.mode = mode;
        let prompt = mode.system_prompt(library);
        let ghost old_msgs = self.messages@;
        let mut first = self.messages.remove(0);
        first.content = Some(prompt);
        self.messages.insert(0, first);
        proof {
            assert(self.messages@ =~= old_msgs.update(0, first));
            assert(self.history() =~= msgs_view(old_msgs).update(0, first@));
        }
    }

    /// Clears the conversation back to its system prompt.
    pub fn reset(&mut self)
        requires
            old(self).wf(),
        ensures
            final(self).wf(),
            final(self).history() == old(self).history().take(1),
            final(self).step == 0,
            final(self).mode == old(self).mode,
            final(self).max_tokens == old(self).max_tokens,
            final(self).session_id@ == old(self).session_id@,
            final(self).workdir@ == old(self).workdir@,
    {
        self.messages.truncate(1);
        self.step = 0;
        assert(self.history() =~= msgs_view(old(self).messages@).take(1));
    }

    /// Starts a turn: the recalled memories, if any, as a system message,
    /// then the user's input.
    pub fn begin_turn(&mut self, user_input: &str, keyword: &str, memories: &Vec<String>)
        requires
            old(self).wf(),
        ensures
            final(self).wf(),
            final(self).history() == after_opening(
                old(self).history(),
                keyword@,
                memories@.map_values(|m: String| m@),
                user_input@,
            ),
            final(self).step == old(self).step,
            final(self).max_tokens == old(self).max_tokens,
            final(self).session_id@ == old(self).session_id@,
            final(self).workdir@ == old(self).workdir@,
            final(self).mode == old(self).mode,
    {
        if memories.len() > 0 {
            let mut parts: Vec<Vec<char>> = Vec::new();
            let mut i: usize = 0;
            while i < memories.len()
                invariant
                    0 <= i <= memories.len(),
                    crate::text::views(parts@) == memories@.take(i as int).map_values(
                        |m: String| m@,
                    ),
                decreases memories.len() - i,
            {
                let c = chars_of(memories[i].as_str());
                let ghost old_parts = parts@;
                parts.push(c);
                proof {
                    crate::text::lemma_views_push(old_parts, c);
                    assert(memories@.take(i + 1).map_values(|m: String| m@) =~= memories@.take(
                        i as int,
                    ).map_values(|m: String| m@).push(c@));
                }
                i = i + 1;
            }
            assert(memories@.take(memories.len() as int) =~= memories@);
            let mut t = chars_of("EPISODIC MEMORY RECALL (Past context regarding '");
            push_str(&mut t, keyword);
            push_str(&mut t, "'):\n");
            push_all(&mut t, &crate::text::join_exec(&parts, &chars_of("\n---\n")));
            let m = make_text_message("system", string_of(&t));
            let ghost o = self.messages@;
            self.messages.push(m);
            proof {
                lemma_msgs_push(o, m);
            }
        }
        let u = make_text_message("user", String::from_str(user_input));
        let ghost o2 = self.messages@;
        self.messages.push(u);
        proof {
            lemma_msgs_push(o2, u);
        }
    }

    /// The rough token count of the conversation, or `None` when it does not
    /// fit in a `usize`.
    pub fn token_estimate(&self) -> (r: Option<usize>)
        ensures
            match r {
                Some(t) => t == token_estimate(self.history()),
                None => token_estimate(self.history()) > usize::MAX,
            },
    {
        let mut total: usize = 0;
        let mut i: usize = 0;
        while i < self.messages.len()
            invariant
                0 <= i <= self.messages.len(),
                total == token_estimate(self.history().take(i as int)),
            decreases self.messages.len() - i,
        {
            proof {
                assert(self.history().take(i + 1).drop_last() =~= self.history().take(i as int));
                lemma_token_estimate_mono(self.history(), i + 1);
            }
            match &self.messages[i].content {
                Some(c) => {
                    let cv = chars_of(c.as_str());
                    match quarter_bytes(&cv, usize::MAX - total) {
                        Some(q) => {
                            total = total + q;
                        },
                        None => {
                            return None;
                        },
                    }
                },
                None => {},
            }
            i = i + 1;
        }
        assert(self.history().take(self.messages.len() as int) =~= self.history());
        Some(total)
    }

    /// Starts a step of the loop: counts it, estimates the context, and says
    /// whether the estimate passed three quarters of the budget.
    pub fn begin_step(&mut self) -> (r: StepStart)
        requires
            old(self).wf(),
            old(self).step < usize::MAX,
            token_estimate(old(self).history()) <= usize::MAX,
        ensures
            final(self).wf(),
            final(self).history() == old(self).history(),
            final(self).step == old(self).step + 1,
            final(self).mode == old(self).mode,
            final(self).max_tokens == old(self).max_tokens,
            final(self).session_id@ == old(self).session_id@,
            final(self).workdir@ == old(self).workdir@,
            r.step == final(self).step,
            r.tokens_in == token_estimate(old(self).history()),
            r.over_budget == (r.tokens_in > old(self).max_tokens * 3 / 4),
    {
        self.step = self.step + 1;
        let t = match self.token_estimate() {
            Some(t) => t,
            None => 0,
        };
        StepStart { step: self.step, tokens_in: t, over_budget: t > self.max_tokens * 3 / 4 }
    }

    /// Ends a model response. With tool calls, the assistant message that
    /// carries them is added and the tools are to run; without, a non-empty
    /// answer is added and the turn is over.
    pub fn finish_stream(&mut self, content: String, calls: Vec<(String, String, String)>) -> (r:
        StepOutcome)
        requires
            old(self).wf(),
        ensures
            final(self).wf(),
            final(self).step == old(self).step,
            final(self).mode == old(self).mode,
            final(self).max_tokens == old(self).max_tokens,
            final(self).session_id@ == old(self).session_id@,
            final(self).workdir@ == old(self).workdir@,
            calls.len() > 0 ==> r == StepOutcome::ToolsRequested && final(self).history()
                == old(self).history().push(tool_call_message(content@, triples_view(calls@))),
            calls.len() > 0 ==> calls_typed(final(self).messages@.last()),
            final(self).history() == after_stream(old(self).history(), content@, triples_view(calls@)),
            calls.len() == 0 ==> r == StepOutcome::Finished && final(self).history() == if content@.len()
                > 0 {
                old(self).history().push(text_message("assistant"@, content@))
            } else {
                old(self).history()
            },
    {
        if calls.len() > 0 {
            let mut responses: Vec<ToolCallResponse> = Vec::new();
            let mut i: usize = 0;
            while i < calls.len()
                invariant
                    0 <= i <= calls.len(),
                    responses@.map_values(|c: ToolCallResponse| call_view(c)) == triples_view(
                        calls@.take(i as int),
                    ),
                    forall|j: int|
                        0 <= j < responses@.len() ==> (#[trigger] responses@[j]).call_type@
                            == "function"@,
                decreases calls.len() - i,
            {
                let t = &calls[i];
                let resp = ToolCallResponse {
                    id: t.0.clone(),
                    call_type: String::from_str("function"),
                    function: ToolCallFunction { name: t.1.clone(), arguments: t.2.clone() },
                };
                let ghost old_resp = responses@;
                responses.push(resp);
                proof {
                    assert(responses@.map_values(|c: ToolCallResponse| call_view(c)) =~= old_resp.map_values(
                        |c: ToolCallResponse| call_view(c),
                    ).push(call_view(resp)));
                    assert(triples_view(calls@.take(i + 1)) =~= triples_view(calls@.take(i as int)).push(
                        call_view(resp),
                    ));
                }
                i = i + 1;
            }
            assert(calls@.take(calls.len() as int) =~= calls@);
            let is_empty = content.as_str().unicode_len() == 0;
            let m = Message {
                role: String::from_str("assistant"),
                content: if is_empty {
                    None
                } else {
                    Some(content)
                },
                tool_calls: Some(responses),
                tool_call_id: None,
            };
            assert(calls_typed(m));
            let ghost o = self.messages@;
            self.messages.push(m);
            proof {
                lemma_msgs_push(o, m);
                assert(forall|k: int| 0 <= k < o.len() ==> self.messages@[k] == o[k]);
            }
            StepOutcome::ToolsRequested
        } else {
            if content.as_str().unicode_len() > 0 {
                let m = make_text_message("assistant", content);
                let ghost o = self.messages@;
                self.messages.push(m);
                proof {
                    lemma_msgs_push(o, m);
                    assert(forall|k: int| 0 <= k < o.len() ==> self.messages@[k] == o[k]);
                }
            }
            StepOutcome::Finished
        }
    }
}


/// The content of the last assistant message that has one, or a note that
/// there is none.
pub open spec fn last_reply(ms: Seq<MessageView>) -> Seq<char>
    decreases ms.len(),
{
    if ms.len() == 0 {
        "Subagent finished with no response."@
    } else if ms.last().role == "assistant"@ && ms.last().content is Some {
        ms.last().content->0
    } else {
        last_reply(ms.drop_last())
    }
}

impl Agent {
    /// Adds the result of the tool call `call_id`.
    pub fn record_tool_result(&mut self, call_id: &str, output: String)
        requires
            old(self).wf(),
        ensures
            final(self).wf(),
            final(self).history() == old(self).history().push(tool_message(call_id@, output@)),
            final(self).step == old(self).step,
            final(self).mode == old(self).mode,
            final(self).max_tokens == old(self).max_tokens,
            final(self).session_id@ == old(self).session_id@,
            final(self).workdir@ == old(self).workdir@,
    {
        let m = Message {
            role: String::from_str("tool"),
            content: Some(output),
            tool_calls: None,
            tool_call_id: Some(String::from_str(call_id)),
        };
        let ghost o = self.messages@;
        self.messages.push(m);
        proof {
            lemma_msgs_push(o, m);
        }
    }

    /// The last answer of the conversation, as a sub-agent reports it back.
    pub fn last_reply(&self) -> (r: String)
        ensures
            r@ == last_reply(self.history()),
    {
        let mut i: usize = self.messages.len();
        assert(self.history().take(i as int) =~= self.history());
        while i > 0
            invariant
                0 <= i <= self.messages.len(),
                last_reply(self.history()) == last_reply(self.history().take(i as int)),
            decreases i,
        {
            let m = &self.messages[i - 1];
            proof {
                assert(self.history().take(i as int).last() == m@);
                assert(self.history().take(i as int).drop_last() =~= self.history().take(i - 1));
            }
            if crate::text::equals_str(&chars_of(m.role.as_str()), "assistant") {
                match &m.content {
                    Some(c) => {
                        return c.clone();
                    },
                    None => {},
                }
            }
            i = i - 1;
        }
        assert(self.history().take(0) =~= seq![]);
        String::from_str("Subagent finished with no response.")
    }
}

} // verus!
