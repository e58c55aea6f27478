//! The Gemini (Vertex AI) dialect of a chat: how a conversation becomes
//! Gemini `contents`, and how the parts of a streamed Gemini response
//! become stream events. Building the request JSON and reading the
//! response JSON happen outside this library.
use vstd::prelude::*;
use crate::agent::{MessageView, msgs_view};
use crate::llm::{events_view, EventView, Message, StreamEvent};
use crate::text::{chars_of, equals_str, starts_with_str, string_of};

verus! {

/// One part of a Gemini content.
#[derive(Debug, Clone)]
pub enum GeminiPart {
    /// `{"text": ...}`
    Text(String),
    /// `{"functionCall": {"name": ..., "args": ...}}`; `args` is the JSON
    /// text of the arguments as the conversation holds it.
    FunctionCall { name: String, args: String },
    /// `{"functionResponse": {"name": ..., "response": {"name": ..., "content": ...}}}`
    FunctionResponse { name: String, content: String },
}

/// One Gemini content: a role and its parts.
#[derive(Debug, Clone)]
pub struct GeminiContent {
    pub role: String,
    pub parts: Vec<GeminiPart>,
}

/// The plain value of a part.
pub enum PartView {
    Text(Seq<char>),
    FunctionCall(Seq<char>, Seq<char>),
    FunctionResponse(Seq<char>, Seq<char>),
}

impl View for GeminiPart {
    type V = PartView;

    open spec fn view(&self) -> PartView {
        match self {
            GeminiPart::Text(t) => PartView::Text(t@),
            GeminiPart::FunctionCall { name, args } => PartView::FunctionCall(name@, args@),
            GeminiPart::FunctionResponse { name, content } => PartView::FunctionResponse(
                name@,
                content@,
            ),
        }
    }
}

pub open spec fn parts_view(s: Seq<GeminiPart>) -> Seq<PartView> {
    s.map_values(|p: GeminiPart| p@)
}

pub open spec fn content_view(c: GeminiContent) -> (Seq<char>, Seq<PartView>) {
    (c.role@, parts_view(c.parts@))
}

pub open spec fn contents_view(s: Seq<GeminiContent>) -> Seq<(Seq<char>, Seq<PartView>)> {
    s.map_values(|c: GeminiContent| content_view(c))
}

/// The Gemini role of a chat role: the system prompt and the user speak
/// as `user`, the assistant as `model`, tool results as `function`.
pub open spec fn gemini_role(role: Seq<char>) -> Seq<char> {
    if role == "system"@ {
        "user"@
    } else if role == "assistant"@ {
        "model"@
    } else if role == "tool"@ {
        "function"@
    } else {
        "user"@
    }
}

/// The parts of one message: a tool result becomes a function response
/// named by its call id (`unknown` without one); tool calls become
/// function calls; otherwise the text, if any.
pub open spec fn message_parts(m: MessageView) -> Seq<PartView> {
    if gemini_role(m.role) == "function"@ {
        seq![
            PartView::FunctionResponse(
                match m.tool_call_id {
                    Some(id) => id,
                    None => "unknown"@,
                },
                match m.content {
                    Some(c) => c,
                    None => seq![],
                },
            ),
        ]
    } else {
        match m.tool_calls {
            Some(calls) => calls.map_values(
                |c: (Seq<char>, Seq<char>, Seq<char>)| PartView::FunctionCall(c.1, c.2),
            ),
            None => match m.content {
                Some(t) => seq![PartView::Text(t)],
                None => seq![],
            },
        }
    }
}

/// The contents of a conversation, message by message.
pub open spec fn gemini_contents(ms: Seq<MessageView>) -> Seq<(Seq<char>, Seq<PartView>)> {
    ms.map_values(|m: MessageView| (gemini_role(m.role), message_parts(m)))
}

/// Whether the first content is a system instruction: a `user` content
/// whose first part is a text starting with `You are Antigravity`.
pub open spec fn leads_with_instruction(cs: Seq<(Seq<char>, Seq<PartView>)>) -> bool {
    cs.len() > 0 && cs[0].0 == "user"@ && cs[0].1.len() > 0 && match cs[0].1[0] {
        PartView::Text(t) => crate::text::starts_with(t, "You are Antigravity"@),
        _ => false,
    }
}

/// A Gemini request as the library builds it: the contents, and the
/// system instruction taken off their front.
pub struct GeminiRequest {
    pub contents: Vec<GeminiContent>,
    pub system_instruction: Option<GeminiPart>,
}

fn gemini_role_exec(role: &String) -> (r: &'static str)
    ensures
        r@ == gemini_role(role@),
{
    let c = chars_of(role.as_str());
    if equals_str(&c, "system") {
        "user"
    } else if equals_str(&c, "assistant") {
        "model"
    } else if equals_str(&c, "tool") {
        "function"
    } else {
        "user"
    }
}

fn message_parts_exec(m: &Message) -> (r: Vec<GeminiPart>)
    ensures
        parts_view(r@) == message_parts(m@),
{
    let role = gemini_role_exec(&m.role);
    if equals_str(&chars_of(role), "function") {
        let name = match &m.tool_call_id {
            Some(id) => id.clone(),
            None => String::from_str("unknown"),
        };
        let content = match &m.content {
            Some(c) => c.clone(),
            None => String::new(),
        };
        let r = vec![GeminiPart::FunctionResponse { name, content }];
        assert(parts_view(r@) =~= message_parts(m@));
        r
    } else {
        match &m.tool_calls {
            Some(calls) => {
                let mut r: Vec<GeminiPart> = Vec::new();
                let mut i: usize = 0;
                while i < calls.len()
                    invariant
                        0 <= i <= calls.len(),
                        m.tool_calls == Some(*calls),
                        parts_view(r@) == calls@.take(i as int).map_values(
                            |c: crate::llm::ToolCallResponse|
                                PartView::FunctionCall(c.function.name@, c.function.arguments@),
                        ),
                    decreases calls.len() - i,
                {
                    let c = &calls[i];
                    let ghost before = r@;
                    r.push(
                        GeminiPart::FunctionCall {
                            name: c.function.name.clone(),
                            args: c.function.arguments.clone(),
                        },
                    );
                    assert(calls@.take(i + 1) =~= calls@.take(i as int).push(*c));
                    assert(parts_view(r@) =~= parts_view(before).push(
                        PartView::FunctionCall(c.function.name@, c.function.arguments@),
                    ));
                    i = i + 1;
                }
                assert(calls@.take(calls.len() as int) =~= calls@);
                assert(parts_view(r@) =~= message_parts(m@));
                r
            },
            None => match &m.content {
                Some(t) => {
                    let r = vec![GeminiPart::Text(t.clone())];
                    assert(parts_view(r@) =~= message_parts(m@));
                    r
                },
                None => {
                    let r: Vec<GeminiPart> = Vec::new();
                    assert(parts_view(r@) =~= message_parts(m@));
                    r
                },
            },
        }
    }
}

/// The Gemini contents of a conversation; when the first of them is a
/// `user` text starting with `You are Antigravity`, it is taken off and
/// its first part becomes the system instruction.
pub fn gemini_request(messages: &Vec<Message>) -> (r: GeminiRequest)
    ensures
        ({
            let cs = gemini_contents(msgs_view(messages@));
            if leads_with_instruction(cs) {
                &&& contents_view(r.contents@) == cs.skip(1)
                &&& r.system_instruction matches Some(p) && p@ == cs[0].1[0]
            } else {
                &&& contents_view(r.contents@) == cs
                &&& r.system_instruction is None
            }
        }),
{
    let ghost cs = gemini_contents(msgs_view(messages@));
    let mut contents: Vec<GeminiContent> = Vec::new();
    let mut i: usize = 0;
    while i < messages.len()
        invariant
            0 <= i <= messages.len(),
            cs == gemini_contents(msgs_view(messages@)),
            contents_view(contents@) == cs.take(i as int),
        decreases messages.len() - i,
    {
        let m = &messages[i];
        let role = gemini_role_exec(&m.role);
        let parts = message_parts_exec(m);
        let c = GeminiContent { role: String::from_str(role), parts };
        let ghost before = contents@;
        contents.push(c);
        assert(contents_view(contents@) =~= contents_view(before).push(content_view(c)));
        assert(cs.take(i + 1) =~= cs.take(i as int).push(cs[i as int]));
        i = i + 1;
    }
    assert(cs.take(messages.len() as int) =~= cs);
    let lead = contents.len() > 0 && equals_str(&chars_of(contents[0].role.as_str()), "user")
        && contents[0].parts.len() > 0 && match &contents[0].parts[0] {
        GeminiPart::Text(t) => starts_with_str(&chars_of(t.as_str()), "You are Antigravity"),
        _ => false,
    };
    assert(lead == leads_with_instruction(cs)) by {
        if contents.len() > 0 {
            assert(contents_view(contents@)[0] == content_view(contents@[0]));
            if contents[0].parts.len() > 0 {
                assert(parts_view(contents@[0].parts@)[0] == contents@[0].parts@[0]@);
            }
        }
    }
    if lead {
        let ghost before = contents@;
        let mut first = contents.remove(0);
        assert(contents_view(contents@) =~= cs.skip(1));
        assert(contents_view(before)[0] == content_view(first));
        let ghost fp = first.parts@;
        assert(parts_view(fp)[0] == fp[0]@);
        let part = first.parts.remove(0);
        GeminiRequest { contents, system_instruction: Some(part) }
    } else {
        GeminiRequest { contents, system_instruction: None }
    }
}

// ---------------------------------------------------------------------------
// Streamed responses
// ---------------------------------------------------------------------------

/// A function call in a streamed part: its name, when the part gives a
/// string name, and the JSON text of its `args`.
#[derive(Debug, Clone)]
pub struct StreamedCall {
    pub name: Option<String>,
    pub args: String,
}

/// One part of the first candidate of a streamed chunk: its text, when it
/// has a string `text`, and its `functionCall`, when it has one.
#[derive(Debug, Clone)]
pub struct StreamedPart {
    pub text: Option<String>,
    pub call: Option<StreamedCall>,
}

pub type StreamedPartView = (Option<Seq<char>>, Option<(Option<Seq<char>>, Seq<char>)>);

pub open spec fn streamed_part_view(p: StreamedPart) -> StreamedPartView {
    (
        crate::agent::opt_view(p.text),
        match p.call {
            Some(c) => Some((crate::agent::opt_view(c.name), c.args@)),
            None => None,
        },
    )
}

pub open spec fn streamed_parts_view(s: Seq<StreamedPart>) -> Seq<StreamedPartView> {
    s.map_values(|p: StreamedPart| streamed_part_view(p))
}

/// Whether a part makes a tool call.
pub open spec fn makes_call(p: StreamedPartView) -> bool {
    p.1 matches Some((Some(_), _))
}

/// The number of tool calls that the parts make.
pub open spec fn call_count(ps: Seq<StreamedPartView>) -> nat
    decreases ps.len(),
{
    if ps.len() == 0 {
        0
    } else {
        call_count(ps.drop_last()) + if makes_call(ps.last()) {
            1nat
        } else {
            0nat
        }
    }
}

/// The events of one part, the call (if any) given the id `id`: its
/// non-empty text, then its call.
pub open spec fn part_events(p: StreamedPartView, id: Seq<char>) -> Seq<EventView> {
    let t: Seq<EventView> = match p.0 {
        Some(x) => if x.len() > 0 {
            seq![EventView::Content(x)]
        } else {
            seq![]
        },
        None => seq![],
    };
    let c: Seq<EventView> = match p.1 {
        Some((Some(name), args)) => seq![EventView::ToolCall(id, name, args)],
        _ => seq![],
    };
    t + c
}

/// The events of the parts, the calls taking the ids `ids` in turn.
pub open spec fn parts_events(ps: Seq<StreamedPartView>, ids: Seq<Seq<char>>) -> Seq<EventView>
    decreases ps.len(),
{
    if ps.len() == 0 {
        seq![]
    } else {
        let n = call_count(ps.drop_last());
        parts_events(ps.drop_last(), ids) + part_events(
            ps.last(),
            if makes_call(ps.last()) && n < ids.len() {
                ids[n as int]
            } else {
                seq![]
            },
        )
    }
}

/// The events of the parts of one streamed chunk, the tool calls taking
/// the ids `ids` in turn: each part's non-empty text as content, then its
/// call when the call is named.
pub fn chunk_events_with_ids(parts: &Vec<StreamedPart>, ids: &Vec<String>) -> (r: Vec<StreamEvent>)
    requires
        call_count(streamed_parts_view(parts@)) <= ids.len(),
    ensures
        events_view(r@) == parts_events(
            streamed_parts_view(parts@),
            ids@.map_values(|s: String| s@),
        ),
{
    let ghost pv = streamed_parts_view(parts@);
    let ghost iv = ids@.map_values(|s: String| s@);
    let mut out: Vec<StreamEvent> = Vec::new();
    let mut used: usize = 0;
    let mut i: usize = 0;
    while i < parts.len()
        invariant
            0 <= i <= parts.len(),
            pv == streamed_parts_view(parts@),
            iv == ids@.map_values(|s: String| s@),
            call_count(pv) <= ids.len(),
            used == call_count(pv.take(i as int)),
            events_view(out@) == parts_events(pv.take(i as int), iv),
        decreases parts.len() - i,
    {
        let p = &parts[i];
        proof {
            assert(pv.take(i + 1).drop_last() =~= pv.take(i as int));
            assert(pv.take(i + 1).last() == streamed_part_view(*p));
            lemma_call_count_prefix(pv, i + 1);
        }
        let ghost before = events_view(out@);
        let ghost pi = streamed_part_view(*p);
        let ghost id = if makes_call(pi) && used < iv.len() {
            iv[used as int]
        } else {
            seq![]
        };
        let ghost tpart: Seq<EventView> = match pi.0 {
            Some(x) => if x.len() > 0 {
                seq![EventView::Content(x)]
            } else {
                seq![]
            },
            None => seq![],
        };
        match &p.text {
            Some(t) => {
                if t.as_str().unicode_len() > 0 {
                    let e = StreamEvent::Content(t.clone());
                    out.push(e);
                    assert(events_view(out@) =~= before.push(e@));
                }
            },
            None => {},
        }
        assert(events_view(out@) =~= before + tpart);
        let ghost mid = events_view(out@);
        match &p.call {
            Some(c) => match &c.name {
                Some(name) => {
                    assert(makes_call(pi));
                    assert(used < ids.len());
                    let e = StreamEvent::ToolCall {
                        id: ids[used].clone(),
                        name: name.clone(),
                        arguments: c.args.clone(),
                    };
                    out.push(e);
                    assert(events_view(out@) =~= mid.push(e@));
                    used = used + 1;
                },
                None => {},
            },
            None => {},
        }
        assert(events_view(out@) =~= before + part_events(pi, id));
        i = i + 1;
    }
    assert(pv.take(parts.len() as int) =~= pv);
    out
}

/// A prefix of the parts names no more function calls than all of them.
pub proof fn lemma_call_count_prefix(ps: Seq<StreamedPartView>, n: int)
    requires
        0 <= n <= ps.len(),
    ensures
        call_count(ps.take(n)) <= call_count(ps),
    decreases ps.len() - n,
{
    if n < ps.len() {
        lemma_call_count_prefix(ps, n + 1);
        assert(ps.take(n + 1).drop_last() =~= ps.take(n));
    } else {
        assert(ps.take(n) =~= ps);
    }
}

/// The events of one streamed chunk, each tool call under a fresh random
/// id (the model gives calls none).
pub fn chunk_events(parts: &Vec<StreamedPart>) -> (r: Vec<StreamEvent>)
    ensures
        exists|ids: Seq<Seq<char>>|
            #![trigger parts_events(streamed_parts_view(parts@), ids)]
            ids.len() == call_count(streamed_parts_view(parts@)) && (forall|i: int|
                0 <= i < ids.len() ==> crate::ids::is_uuid_text(#[trigger] ids[i]))
                && events_view(r@) == parts_events(streamed_parts_view(parts@), ids),
{
    let ghost pv = streamed_parts_view(parts@);
    let mut ids: Vec<String> = Vec::new();
    let mut i: usize = 0;
    while i < parts.len()
        invariant
            0 <= i <= parts.len(),
            pv == streamed_parts_view(parts@),
            ids.len() == call_count(pv.take(i as int)),
            forall|k: int| 0 <= k < ids.len() ==> crate::ids::is_uuid_text(#[trigger] ids@[k]@),
        decreases parts.len() - i,
    {
        proof {
            assert(pv.take(i + 1).drop_last() =~= pv.take(i as int));
            assert(pv.take(i + 1).last() == streamed_part_view(parts@[i as int]));
        }
        let named = match &parts[i].call {
            Some(c) => c.name.is_some(),
            None => false,
        };
        if named {
            ids.push(crate::ids::new_uuid());
        }
        i = i + 1;
    }
    assert(pv.take(parts.len() as int) =~= pv);
    let r = chunk_events_with_ids(parts, &ids);
    proof {
        let iv = ids@.map_values(|s: String| s@);
        assert(iv.len() == call_count(pv));
        assert(forall|k: int| 0 <= k < iv.len() ==> crate::ids::is_uuid_text(#[trigger] iv[k]));
    }
    r
}

/// The number of tool calls among events.
pub open spec fn event_calls(es: Seq<EventView>) -> nat
    decreases es.len(),
{
    if es.len() == 0 {
        0
    } else {
        event_calls(es.drop_last()) + if es.last() is ToolCall {
            1nat
        } else {
            0nat
        }
    }
}

proof fn lemma_event_calls_concat(a: Seq<EventView>, b: Seq<EventView>)
    ensures
        event_calls(a + b) == event_calls(a) + event_calls(b),
    decreases b.len(),
{
    if b.len() == 0 {
        assert(a + b =~= a);
    } else {
        lemma_event_calls_concat(a, b.drop_last());
        assert((a + b).drop_last() =~= a + b.drop_last());
    }
}

/// A chunk yields one tool-call event for each part that names a function
/// call, whatever ids the calls get.
pub proof fn lemma_one_event_per_call(ps: Seq<StreamedPartView>, ids: Seq<Seq<char>>)
    ensures
        event_calls(parts_events(ps, ids)) == call_count(ps),
    decreases ps.len(),
{
    if ps.len() > 0 {
        lemma_one_event_per_call(ps.drop_last(), ids);
        let n = call_count(ps.drop_last());
        let id = if makes_call(ps.last()) && n < ids.len() {
            ids[n as int]
        } else {
            seq![]
        };
        let pe = part_events(ps.last(), id);
        lemma_event_calls_concat(parts_events(ps.drop_last(), ids), pe);
        let p = ps.last();
        let t: Seq<EventView> = match p.0 {
            Some(x) => if x.len() > 0 {
                seq![EventView::Content(x)]
            } else {
                seq![]
            },
            None => seq![],
        };
        let c: Seq<EventView> = match p.1 {
            Some((Some(name), args)) => seq![EventView::ToolCall(id, name, args)],
            _ => seq![],
        };
        lemma_event_calls_concat(t, c);
        assert(event_calls(t) == 0) by {
            if t.len() > 0 {
                assert(t.drop_last() =~= seq![]);
                assert(event_calls(t.drop_last()) == 0);
                assert(!(t.last() is ToolCall));
            }
        }
        assert(event_calls(c) == if makes_call(p) {
            1nat
        } else {
            0nat
        }) by {
            if c.len() > 0 {
                assert(c.drop_last() =~= seq![]);
            }
        }
    }
}

} // verus!
