//! Chat messages, tool definitions, and the decoding of a streamed chat
//! completion: server-sent-event lines in, content and tool-call events out.
use vstd::prelude::*;
use crate::text::{chars_of, find_char_exec, push_all, slice_chars, starts_with_str, string_of, trim_exec};

verus! {

/// One message of a conversation.
#[derive(Debug, Clone)]
pub struct Message {
    pub role: String,
    pub content: Option<String>,
    pub tool_calls: Option<Vec<ToolCallResponse>>,
    pub tool_call_id: Option<String>,
}

/// A tool call that the model made, as echoed back in the conversation.
#[derive(Debug, Clone)]
pub struct ToolCallResponse {
    pub id: String,
    pub call_type: String,
    pub function: ToolCallFunction,
}

/// The function part of a tool call: its name and JSON arguments.
#[derive(Debug, Clone)]
pub struct ToolCallFunction {
    pub name: String,
    pub arguments: String,
}

/// One string parameter of a tool.
#[derive(Debug, Clone)]
pub struct ParamProperty {
    pub name: String,
    /// The JSON type of the value: `string`.
    pub value_type: String,
    pub description: String,
}

/// The JSON schema of a tool's arguments: an object of string properties.
#[derive(Debug, Clone)]
pub struct ParamSchema {
    /// The JSON type of the arguments: `object`.
    pub schema_type: String,
    pub properties: Vec<ParamProperty>,
    pub required: Vec<String>,
}

/// A function that a tool offers the model.
#[derive(Debug, Clone)]
pub struct ToolFunction {
    pub name: String,
    pub description: String,
    pub parameters: ParamSchema,
}

/// A tool offered to the model.
#[derive(Debug, Clone)]
pub struct ToolDef {
    pub tool_type: String,
    pub function: ToolFunction,
}

/// One chunk of a streamed completion.
#[derive(Debug)]
pub struct StreamChunk {
    pub choices: Vec<StreamChoice>,
}

#[derive(Debug)]
pub struct StreamChoice {
    pub delta: StreamDelta,
    pub finish_reason: Option<String>,
}

#[derive(Debug)]
pub struct StreamDelta {
    pub content: Option<String>,
    pub tool_calls: Option<Vec<StreamToolCall>>,
    /// Some models (Qwen, DeepSeek) emit reasoning in a separate field.
    pub reasoning_content: Option<String>,
}

#[derive(Debug)]
pub struct StreamToolCall {
    pub index: Option<usize>,
    pub id: Option<String>,
    pub call_type: Option<String>,
    pub function: Option<StreamToolCallFunction>,
}

#[derive(Debug)]
pub struct StreamToolCallFunction {
    pub name: Option<String>,
    pub arguments: Option<String>,
}

/// What a streamed completion yields.
#[derive(Debug)]
pub enum StreamEvent {
    /// A regular content token.
    Content(String),
    /// A reasoning token.
    Thinking(String),
    /// A complete tool call, accumulated from chunks.
    ToolCall { id: String, name: String, arguments: String },
    /// The stream finished.
    Done,
}

/// The plain value of a stream event.
pub enum EventView {
    Content(Seq<char>),
    Thinking(Seq<char>),
    ToolCall(Seq<char>, Seq<char>, Seq<char>),
    Done,
}

impl View for StreamEvent {
    type V = EventView;

    open spec fn view(&self) -> EventView {
        match self {
            StreamEvent::Content(t) => EventView::Content(t@),
            StreamEvent::Thinking(t) => EventView::Thinking(t@),
            StreamEvent::ToolCall { id, name, arguments } => EventView::ToolCall(
                id@,
                name@,
                arguments@,
            ),
            StreamEvent::Done => EventView::Done,
        }
    }
}

/// The views of a sequence of events.
pub open spec fn events_view(s: Seq<StreamEvent>) -> Seq<EventView> {
    s.map_values(|e: StreamEvent| e@)
}

proof fn lemma_events_push(s: Seq<StreamEvent>, e: StreamEvent)
    ensures
        events_view(s.push(e)) == events_view(s).push(e@),
{
    assert(events_view(s.push(e)) =~= events_view(s).push(e@));
}

// ---------------------------------------------------------------------------
// Server-sent events
// ---------------------------------------------------------------------------

/// The next `data: ` payload in a buffer of received text, and the buffer
/// that remains: complete lines are taken off the front and trimmed; those
/// that are empty or do not start with `data: ` are dropped; an unfinished
/// last line stays in the buffer.
pub open spec fn next_data(buf: Seq<char>) -> (Option<Seq<char>>, Seq<char>)
    decreases buf.len(),
{
    match crate::text::find_char_from(buf, '\n', 0) {
        None => (None, buf),
        Some(j) => {
            proof {
                crate::text::lemma_find_char_from_props(buf, '\n', 0);
            }
            let line = crate::text::trim(buf.take(j));
            let rest = buf.skip(j + 1);
            if crate::text::starts_with(line, "data: "@) {
                (Some(line.skip(6)), rest)
            } else {
                next_data(rest)
            }
        },
    }
}

/// Taking a payload off a buffer shortens it.
pub proof fn lemma_next_data_shrinks(buf: Seq<char>)
    ensures
        next_data(buf).1.len() <= buf.len(),
        next_data(buf).0 is Some ==> next_data(buf).1.len() < buf.len(),
    decreases buf.len(),
{
    crate::text::lemma_find_char_from_props(buf, '\n', 0);
    match crate::text::find_char_from(buf, '\n', 0) {
        None => {},
        Some(j) => {
            let line = crate::text::trim(buf.take(j));
            if !crate::text::starts_with(line, "data: "@) {
                lemma_next_data_shrinks(buf.skip(j + 1));
            }
        },
    }
}

/// Every payload that can be taken off a buffer, in order, and the text
/// left over once no complete `data: ` line remains.
pub open spec fn drain(buf: Seq<char>) -> (Seq<Seq<char>>, Seq<char>)
    decreases buf.len(),
{
    match next_data(buf) {
        (Some(p), rest) => {
            proof {
                lemma_next_data_shrinks(buf);
            }
            let (ps, r) = drain(rest);
            (seq![p] + ps, r)
        },
        (None, rest) => (seq![], rest),
    }
}

/// Text that arrives later never changes what the buffer already holds: a
/// complete `data: ` line that is waiting is still the next payload, and the
/// remainder grows by the new text; with none waiting, the lines already
/// passed over stay passed over.
pub proof fn lemma_next_data_append(x: Seq<char>, b: Seq<char>)
    ensures
        next_data(x).0 is Some ==> next_data(x + b) == (next_data(x).0, next_data(x).1 + b),
        next_data(x).0 is None ==> next_data(x + b) == next_data(next_data(x).1 + b),
    decreases x.len(),
{
    crate::text::lemma_find_char_from_props(x, '\n', 0);
    match crate::text::find_char_from(x, '\n', 0) {
        None => {},
        Some(j) => {
            crate::text::lemma_find_char_from_unique(x + b, '\n', 0, j);
            assert((x + b)[j] == '\n');
            assert(crate::text::find_char_from(x + b, '\n', j) == Some(j));
            assert((x + b).take(j) =~= x.take(j));
            assert((x + b).skip(j + 1) =~= x.skip(j + 1) + b);
            lemma_next_data_append(x.skip(j + 1), b);
        },
    }
}

/// However the received text is split into pushes, the payloads come out
/// the same: draining `x`, then pushing `b` onto what is left and draining
/// again, gives the payloads and the remainder of draining `x + b` at once.
pub proof fn lemma_drain_split(x: Seq<char>, b: Seq<char>)
    ensures
        drain(x + b) == (drain(x).0 + drain(drain(x).1 + b).0, drain(drain(x).1 + b).1),
    decreases x.len(),
{
    lemma_next_data_append(x, b);
    lemma_next_data_shrinks(x);
    match next_data(x) {
        (Some(p), r) => {
            lemma_drain_split(r, b);
            assert(drain(x + b).0 =~= seq![p] + drain(r + b).0);
            assert(drain(x).0 + drain(drain(x).1 + b).0 =~= seq![p] + (drain(r).0 + drain(
                drain(r).1 + b,
            ).0));
        },
        (None, r) => {
            assert(drain(x).0 + drain(drain(x).1 + b).0 =~= drain(r + b).0);
        },
    }
}

/// The text received so far that has not been read as lines yet.
pub struct SseBuffer {
    pub buffer: Vec<char>,
}

impl SseBuffer {
    pub fn new() -> (r: SseBuffer)
        ensures
            r.buffer@ == Seq::<char>::empty(),
    {
        SseBuffer { buffer: Vec::new() }
    }

    /// Appends received text.
    pub fn push_text(&mut self, text: &str)
        ensures
            final(self).buffer@ == old(self).buffer@ + text@,
    {
        let t = chars_of(text);
        push_all(&mut self.buffer, &t);
    }

    /// Takes the next `data: ` payload off the buffer, if a complete line
    /// holds one.
    pub fn next_payload(&mut self) -> (r: Option<String>)
        ensures
            (match r {
                Some(s) => Some(s@),
                None => None,
            }) == next_data(old(self).buffer@).0,
            final(self).buffer@ == next_data(old(self).buffer@).1,
    {
        loop
            invariant
                next_data(self.buffer@) == next_data(old(self).buffer@),
            decreases self.buffer@.len(),
        {
            let ghost b = self.buffer@;
            proof {
                crate::text::lemma_find_char_from_props(b, '\n', 0);
            }
            match find_char_exec(&self.buffer, '\n', 0) {
                None => {
                    return None;
                },
                Some(j) => {
                    let raw = slice_chars(&self.buffer, 0, j);
                    let line = trim_exec(&raw);
                    let rest = slice_chars(&self.buffer, j + 1, self.buffer.len());
                    assert(raw@ =~= b.take(j as int));
                    assert(rest@ =~= b.skip(j + 1));
                    self.buffer = rest;
                    if starts_with_str(&line, "data: ") {
                        proof {
                            reveal_strlit("data: ");
                        }
                        let payload = slice_chars(&line, 6, line.len());
                        assert(payload@ =~= line@.skip(6));
                        return Some(string_of(&payload));
                    }
                },
            }
        }
    }
}

/// Whether a payload is the end-of-stream marker `[DONE]`.
pub fn is_done_marker(data: &str) -> (r: bool)
    ensures
        r == (data@ == "[DONE]"@),
{
    crate::text::equals_str(&chars_of(data), "[DONE]")
}

// ---------------------------------------------------------------------------
// Tool-call accumulation
// ---------------------------------------------------------------------------

/// The tool call being assembled from stream chunks.
pub struct StreamAccumulator {
    pub tool_id: String,
    pub tool_name: String,
    pub tool_args: String,
    pub in_tool_call: bool,
}

/// The plain value of an accumulator: id, name, arguments, and whether a
/// call is open.
pub struct AccView {
    pub id: Seq<char>,
    pub name: Seq<char>,
    pub args: Seq<char>,
    pub open: bool,
}

impl View for StreamAccumulator {
    type V = AccView;

    open spec fn view(&self) -> AccView {
        AccView {
            id: self.tool_id@,
            name: self.tool_name@,
            args: self.tool_args@,
            open: self.in_tool_call,
        }
    }
}

/// The events that closing the open call emits: the call itself when one is
/// open and has a name, nothing otherwise.
pub open spec fn flush_events(a: AccView) -> Seq<EventView> {
    if a.open && a.name.len() > 0 {
        seq![EventView::ToolCall(a.id, a.name, a.args)]
    } else {
        seq![]
    }
}

/// A tool-call delta: a new id closes the open call and starts another; a
/// name or arguments fragment is appended to the current one.
pub open spec fn delta_step(
    a: AccView,
    id: Option<Seq<char>>,
    name: Option<Seq<char>>,
    args: Option<Seq<char>>,
) -> (AccView, Seq<EventView>) {
    let (a1, ev) = match id {
        Some(i) => (AccView { id: i, name: seq![], args: seq![], open: true }, flush_events(a)),
        None => (a, seq![]),
    };
    let a2 = AccView {
        name: match name {
            Some(n) => a1.name + n,
            None => a1.name,
        },
        args: match args {
            Some(x) => a1.args + x,
            None => a1.args,
        },
        ..a1
    };
    (a2, ev)
}

/// A `finish_reason` of `tool_calls` closes the open call and clears the
/// accumulator.
pub open spec fn finish_step(a: AccView, reason: Option<Seq<char>>) -> (AccView, Seq<EventView>) {
    if reason == Some("tool_calls"@) && a.open && a.name.len() > 0 {
        (AccView { id: seq![], name: seq![], args: seq![], open: false }, flush_events(a))
    } else {
        (a, seq![])
    }
}

/// The plain fields of a tool-call delta.
pub open spec fn delta_id(tc: StreamToolCall) -> Option<Seq<char>> {
    match tc.id {
        Some(s) => Some(s@),
        None => None,
    }
}

pub open spec fn delta_name(tc: StreamToolCall) -> Option<Seq<char>> {
    match tc.function {
        Some(f) => match f.name {
            Some(s) => Some(s@),
            None => None,
        },
        None => None,
    }
}

pub open spec fn delta_args(tc: StreamToolCall) -> Option<Seq<char>> {
    match tc.function {
        Some(f) => match f.arguments {
            Some(s) => Some(s@),
            None => None,
        },
        None => None,
    }
}

/// Runs the tool-call deltas `tcs[i..]` through the accumulator.
pub open spec fn deltas_step(a: AccView, tcs: Seq<StreamToolCall>) -> (AccView, Seq<EventView>)
    decreases tcs.len(),
{
    if tcs.len() == 0 {
        (a, seq![])
    } else {
        let (a1, e1) = deltas_step(a, tcs.drop_last());
        let tc = tcs.last();
        let (a2, e2) = delta_step(a1, delta_id(tc), delta_name(tc), delta_args(tc));
        (a2, e1 + e2)
    }
}

/// The non-empty text of an optional field, as an event.
pub open spec fn text_event(t: Option<String>, thinking: bool) -> Seq<EventView> {
    match t {
        Some(s) => if s@.len() > 0 {
            if thinking {
                seq![EventView::Thinking(s@)]
            } else {
                seq![EventView::Content(s@)]
            }
        } else {
            seq![]
        },
        None => seq![],
    }
}

/// One choice of a chunk: its content, its reasoning, its tool-call deltas,
/// then its finish reason.
pub open spec fn choice_step(a: AccView, c: StreamChoice) -> (AccView, Seq<EventView>) {
    let e1 = text_event(c.delta.content, false);
    let e2 = text_event(c.delta.reasoning_content, true);
    let (a3, e3) = match c.delta.tool_calls {
        Some(tcs) => deltas_step(a, tcs@),
        None => (a, seq![]),
    };
    let reason = match c.finish_reason {
        Some(r) => Some(r@),
        None => None,
    };
    let (a4, e4) = finish_step(a3, reason);
    (a4, e1 + e2 + e3 + e4)
}

/// The choices of a chunk, in order.
pub open spec fn choices_step(a: AccView, cs: Seq<StreamChoice>) -> (AccView, Seq<EventView>)
    decreases cs.len(),
{
    if cs.len() == 0 {
        (a, seq![])
    } else {
        let (a1, e1) = choices_step(a, cs.drop_last());
        let (a2, e2) = choice_step(a1, cs.last());
        (a2, e1 + e2)
    }
}

/// Decoding choices split over two chunks is decoding them in one: the
/// accumulator carries over, and the events follow one another.
pub proof fn lemma_choices_split(a: AccView, c1: Seq<StreamChoice>, c2: Seq<StreamChoice>)
    ensures
        choices_step(a, c1 + c2) == (
            choices_step(choices_step(a, c1).0, c2).0,
            choices_step(a, c1).1 + choices_step(choices_step(a, c1).0, c2).1,
        ),
    decreases c2.len(),
{
    if c2.len() == 0 {
        assert(c1 + c2 =~= c1);
        assert(choices_step(a, c1).1 + seq![] =~= choices_step(a, c1).1);
    } else {
        assert((c1 + c2).drop_last() =~= c1 + c2.drop_last());
        assert((c1 + c2).last() == c2.last());
        lemma_choices_split(a, c1, c2.drop_last());
        let m = choices_step(choices_step(a, c1).0, c2.drop_last());
        let l = choice_step(m.0, c2.last());
        assert(choices_step(a, c1).1 + m.1 + l.1 =~= choices_step(a, c1).1 + (m.1 + l.1));
    }
}

/// The argument fragments of tool-call deltas, in order.
pub open spec fn arg_fragments(tcs: Seq<StreamToolCall>) -> Seq<char>
    decreases tcs.len(),
{
    if tcs.len() == 0 {
        seq![]
    } else {
        arg_fragments(tcs.drop_last()) + match delta_args(tcs.last()) {
            Some(x) => x,
            None => seq![],
        }
    }
}

/// While no delta starts a new call or renames it, a call's arguments are
/// its fragments in the order they came, and nothing is emitted.
pub proof fn lemma_args_concatenate(a: AccView, tcs: Seq<StreamToolCall>)
    requires
        forall|i: int|
            0 <= i < tcs.len() ==> delta_id(#[trigger] tcs[i]) is None && delta_name(tcs[i]) is None,
    ensures
        deltas_step(a, tcs).0 == (AccView { args: a.args + arg_fragments(tcs), ..a }),
        deltas_step(a, tcs).1 == Seq::<EventView>::empty(),
    decreases tcs.len(),
{
    if tcs.len() == 0 {
        assert(a.args + seq![] =~= a.args);
    } else {
        let init = tcs.drop_last();
        assert forall|i: int| 0 <= i < init.len() implies delta_id(#[trigger] init[i]) is None
            && delta_name(init[i]) is None by {
            assert(init[i] == tcs[i]);
        }
        lemma_args_concatenate(a, init);
        assert(delta_id(tcs[tcs.len() - 1]) is None);
        let x = match delta_args(tcs.last()) {
            Some(x) => x,
            None => seq![],
        };
        assert(a.args + arg_fragments(init) + x =~= a.args + (arg_fragments(init) + x));
        assert(Seq::<EventView>::empty() + Seq::<EventView>::empty() =~= Seq::<EventView>::empty());
    }
}

/// No event that the accumulator emits is a tool call without a name.
pub open spec fn calls_named(evs: Seq<EventView>) -> bool {
    forall|i: int|
        0 <= i < evs.len() ==> match #[trigger] evs[i] {
            EventView::ToolCall(_, n, _) => n.len() > 0,
            _ => true,
        }
}

/// Tool calls that the stream decoding emits always carry a name.
pub proof fn lemma_calls_named(a: AccView, cs: Seq<StreamChoice>)
    ensures
        calls_named(choices_step(a, cs).1),
        calls_named(flush_events(a)),
    decreases cs.len(),
{
    if cs.len() > 0 {
        lemma_calls_named(a, cs.drop_last());
        let (a1, e1) = choices_step(a, cs.drop_last());
        let c = cs.last();
        let (a3, e3) = match c.delta.tool_calls {
            Some(tcs) => deltas_step(a1, tcs@),
            None => (a1, seq![]),
        };
        match c.delta.tool_calls {
            Some(tcs) => lemma_deltas_named(a1, tcs@),
            None => {},
        }
        lemma_calls_named(a3, seq![]);
        let (a2, e2) = choice_step(a1, c);
        assert(calls_named(e2));
        assert(calls_named(e1 + e2)) by {
            assert forall|i: int| 0 <= i < (e1 + e2).len() implies match #[trigger] (e1 + e2)[i] {
                EventView::ToolCall(_, n, _) => n.len() > 0,
                _ => true,
            } by {
                if i < e1.len() {
                    assert((e1 + e2)[i] == e1[i]);
                } else {
                    assert((e1 + e2)[i] == e2[i - e1.len()]);
                }
            }
        }
    }
}

proof fn lemma_deltas_named(a: AccView, tcs: Seq<StreamToolCall>)
    ensures
        calls_named(deltas_step(a, tcs).1),
    decreases tcs.len(),
{
    if tcs.len() > 0 {
        lemma_deltas_named(a, tcs.drop_last());
        let (a1, e1) = deltas_step(a, tcs.drop_last());
        let tc = tcs.last();
        let (a2, e2) = delta_step(a1, delta_id(tc), delta_name(tc), delta_args(tc));
        assert(calls_named(e1 + e2)) by {
            assert forall|i: int| 0 <= i < (e1 + e2).len() implies match #[trigger] (e1 + e2)[i] {
                EventView::ToolCall(_, n, _) => n.len() > 0,
                _ => true,
            } by {
                if i < e1.len() {
                    assert((e1 + e2)[i] == e1[i]);
                } else {
                    assert((e1 + e2)[i] == e2[i - e1.len()]);
                }
            }
        }
    }
}

impl StreamAccumulator {
    pub fn new() -> (r: StreamAccumulator)
        ensures
            r@ == (AccView { id: seq![], name: seq![], args: seq![], open: false }),
    {
        StreamAccumulator {
            tool_id: String::new(),
            tool_name: String::new(),
            tool_args: String::new(),
            in_tool_call: false,
        }
    }

    fn flush(&self, out: &mut Vec<StreamEvent>)
        ensures
            events_view(final(out)@) == events_view(old(out)@) + flush_events(self@),
    {
        if self.in_tool_call && self.tool_name.as_str().unicode_len() > 0 {
            let ghost o = out@;
            out.push(
                StreamEvent::ToolCall {
                    id: self.tool_id.clone(),
                    name: self.tool_name.clone(),
                    arguments: self.tool_args.clone(),
                },
            );
            proof {
                lemma_events_push(o, out@.last());
            }
        } else {
            assert(events_view(out@) =~= events_view(out@) + seq![]);
        }
    }

    fn on_delta(&mut self, tc: &StreamToolCall, out: &mut Vec<StreamEvent>)
        ensures
            final(self)@ == delta_step(old(self)@, delta_id(*tc), delta_name(*tc), delta_args(*tc)).0,
            events_view(final(out)@) == events_view(old(out)@) + delta_step(
                old(self)@,
                delta_id(*tc),
                delta_name(*tc),
                delta_args(*tc),
            ).1,
    {
        match &tc.id {
            Some(id) => {
                self.flush(out);
                self.tool_id = id.clone();
                self.tool_name = String::new();
                self.tool_args = String::new();
                self.in_tool_call = true;
            },
            None => {
                assert(events_view(out@) =~= events_view(out@) + seq![]);
            },
        }
        match &tc.function {
            Some(f) => {
                match &f.name {
                    Some(n) => {
                        let mut cur = chars_of(self.tool_name.as_str());
                        push_all(&mut cur, &chars_of(n.as_str()));
                        self.tool_name = string_of(&cur);
                    },
                    None => {},
                }
                match &f.arguments {
                    Some(x) => {
                        let mut cur = chars_of(self.tool_args.as_str());
                        push_all(&mut cur, &chars_of(x.as_str()));
                        self.tool_args = string_of(&cur);
                    },
                    None => {},
                }
            },
            None => {},
        }
    }

    fn on_text(t: &Option<String>, thinking: bool, out: &mut Vec<StreamEvent>)
        ensures
            events_view(final(out)@) == events_view(old(out)@) + text_event(*t, thinking),
    {
        match t {
            Some(s) => {
                if s.as_str().unicode_len() > 0 {
                    let ghost o = out@;
                    if thinking {
                        out.push(StreamEvent::Thinking(s.clone()));
                    } else {
                        out.push(StreamEvent::Content(s.clone()));
                    }
                    proof {
                        lemma_events_push(o, out@.last());
                    }
                    return ;
                }
            },
            None => {},
        }
        assert(events_view(out@) =~= events_view(out@) + seq![]);
    }

    fn on_choice(&mut self, c: &StreamChoice, out: &mut Vec<StreamEvent>)
        ensures
            final(self)@ == choice_step(old(self)@, *c).0,
            events_view(final(out)@) == events_view(old(out)@) + choice_step(old(self)@, *c).1,
    {
        let ghost o0 = events_view(out@);
        Self::on_text(&c.delta.content, false, out);
        Self::on_text(&c.delta.reasoning_content, true, out);
        let ghost o2 = events_view(out@);
        match &c.delta.tool_calls {
            Some(tcs) => {
                let mut i: usize = 0;
                while i < tcs.len()
                    invariant
                        0 <= i <= tcs.len(),
                        (self@, events_view(out@)) == ({
                            let (a, e) = deltas_step(old(self)@, tcs@.take(i as int));
                            (a, o2 + e)
                        }),
                    decreases tcs.len() - i,
                {
                    proof {
                        assert(tcs@.take(i + 1).drop_last() =~= tcs@.take(i as int));
                    }
                    self.on_delta(&tcs[i], out);
                    i = i + 1;
                    proof {
                        let (a, e) = deltas_step(old(self)@, tcs@.take(i - 1));
                        assert(o2 + e + delta_step(
                            a,
                            delta_id(tcs@[i - 1]),
                            delta_name(tcs@[i - 1]),
                            delta_args(tcs@[i - 1]),
                        ).1 =~= o2 + (e + delta_step(
                            a,
                            delta_id(tcs@[i - 1]),
                            delta_name(tcs@[i - 1]),
                            delta_args(tcs@[i - 1]),
                        ).1));
                    }
                }
                assert(tcs@.take(tcs.len() as int) =~= tcs@);
            },
            None => {
                assert(o2 =~= o2 + seq![]);
            },
        }
        let ghost o3 = events_view(out@);
        let is_tool_calls = match &c.finish_reason {
            Some(r) => crate::text::equals_str(&chars_of(r.as_str()), "tool_calls"),
            None => false,
        };
        if is_tool_calls && self.in_tool_call && self.tool_name.as_str().unicode_len() > 0 {
            self.flush(out);
            self.tool_id = String::new();
            self.tool_name = String::new();
            self.tool_args = String::new();
            self.in_tool_call = false;
        } else {
            assert(events_view(out@) =~= events_view(out@) + seq![]);
        }
        assert(events_view(out@) =~= o0 + choice_step(old(self)@, *c).1);
    }

    /// Runs one chunk through the accumulator and returns the events it
    /// yields.
    pub fn on_chunk(&mut self, chunk: &StreamChunk) -> (r: Vec<StreamEvent>)
        ensures
            final(self)@ == choices_step(old(self)@, chunk.choices@).0,
            events_view(r@) == choices_step(old(self)@, chunk.choices@).1,
    {
        let mut out: Vec<StreamEvent> = Vec::new();
        let mut i: usize = 0;
        while i < chunk.choices.len()
            invariant
                0 <= i <= chunk.choices.len(),
                (self@, events_view(out@)) == choices_step(old(self)@, chunk.choices@.take(i as int)),
            decreases chunk.choices.len() - i,
        {
            proof {
                assert(chunk.choices@.take(i + 1).drop_last() =~= chunk.choices@.take(i as int));
            }
            self.on_choice(&chunk.choices[i], &mut out);
            i = i + 1;
        }
        assert(chunk.choices@.take(chunk.choices.len() as int) =~= chunk.choices@);
        out
    }

    /// The events at the end of the stream: the open call, if it has a name,
    /// then `Done`.
    pub fn on_done(&self) -> (r: Vec<StreamEvent>)
        ensures
            events_view(r@) == flush_events(self@).push(EventView::Done),
    {
        let mut out: Vec<StreamEvent> = Vec::new();
        assert(events_view(out@) =~= seq![]);
        self.flush(&mut out);
        let ghost o = out@;
        out.push(StreamEvent::Done);
        proof {
            lemma_events_push(o, StreamEvent::Done);
            assert(seq![] + flush_events(self@) =~= flush_events(self@));
        }
        out
    }
}

} // verus!
