//! The local slash commands of an interactive session (`/help`, `/mode`,
//! `/eco`, ...): what each input does to the session's settings and what
//! the program is to do about it. Anything that is not a command is a
//! prompt for the agent.
use vstd::prelude::*;
use crate::mode::{mode_of_name, mode_name, AgentMode};
use crate::text::{chars_of, equals_str, push_str, starts_with_str, string_of, trim_exec};
use crate::ui::{mode_label, mode_label_exec, strip_prefixes};

verus! {

/// Lower-casing by `str::to_lowercase` (Unicode case mapping).
pub uninterp spec fn unicode_lower(s: Seq<char>) -> Seq<char>;

/// Calls `str::to_lowercase`. The Unicode case tables are not restated;
/// the contract only ties the answer to [`unicode_lower`].
#[verifier::external_body]
pub(crate) fn to_lowercase(s: &str) -> (r: String)
    ensures
        r@ == unicode_lower(s@),
{
    s.to_lowercase()
}

/// The settings of an interactive session.
pub struct Session {
    pub mode: AgentMode,
    pub model: String,
    pub api_url: String,
    pub original_model: String,
    pub original_api_url: String,
    pub workdir: String,
    pub max_tokens: usize,
}

pub struct SessionView {
    pub mode: AgentMode,
    pub model: Seq<char>,
    pub api_url: Seq<char>,
    pub original_model: Seq<char>,
    pub original_api_url: Seq<char>,
    pub workdir: Seq<char>,
    pub max_tokens: int,
}

impl View for Session {
    type V = SessionView;

    open spec fn view(&self) -> SessionView {
        SessionView {
            mode: self.mode,
            model: self.model@,
            api_url: self.api_url@,
            original_model: self.original_model@,
            original_api_url: self.original_api_url@,
            workdir: self.workdir@,
            max_tokens: self.max_tokens as int,
        }
    }
}

/// What the program is to do, in order.
#[derive(Debug)]
pub enum Action {
    /// Show a message: the echoed input (from its source), or a notice
    /// (from `system`).
    Say { text: String, source: String },
    StartArt { mode: String },
    PowerConfig { enabled: bool },
    /// The command is done; the prompt unlocks.
    Finished,
    SetMode(AgentMode),
    /// Talk to an OpenAI-compatible endpoint.
    UseEndpoint { api_url: String, model: String },
    /// Talk to Vertex AI.
    UseVertex { model: String },
    /// Hand the input to the agent.
    Process(String),
}

pub enum ActionV {
    Say(Seq<char>, Seq<char>),
    StartArt(Seq<char>),
    PowerConfig(bool),
    Finished,
    SetMode(AgentMode),
    UseEndpoint(Seq<char>, Seq<char>),
    UseVertex(Seq<char>),
    Process(Seq<char>),
}

impl View for Action {
    type V = ActionV;

    open spec fn view(&self) -> ActionV {
        match self {
            Action::Say { text, source } => ActionV::Say(text@, source@),
            Action::StartArt { mode } => ActionV::StartArt(mode@),
            Action::PowerConfig { enabled } => ActionV::PowerConfig(*enabled),
            Action::Finished => ActionV::Finished,
            Action::SetMode(m) => ActionV::SetMode(*m),
            Action::UseEndpoint { api_url, model } => ActionV::UseEndpoint(api_url@, model@),
            Action::UseVertex { model } => ActionV::UseVertex(model@),
            Action::Process(t) => ActionV::Process(t@),
        }
    }
}

pub open spec fn actions_view(s: Seq<Action>) -> Seq<ActionV> {
    s.map_values(|a: Action| a@)
}

pub open spec fn help_text() -> Seq<char> {
    "Available local commands (do not consume tokens or write to history):\n  /help         - Display this help message\n  /modes        - List all available agent modes and descriptions\n  /status       - Display current agent configuration & session status\n  /mode <name>  - Switch the agent to a different mode\n  /power <on|off> - Toggle hardware power monitoring (macpow)\n  /eco <on|off>   - Toggle lightweight Eco LLM (llama3.2:1b)\n  /cloud <on|off> - Toggle cloud inference API offloading (Groq)\n  /gcp <on|off>   - Toggle GCP Vertex AI inference (Gemini 1.5 Pro)\n  /art <type>   - Render an interactive ASCII animation (cat, clouds, plasma, lizard)"@
}

pub open spec fn art_help_text() -> Seq<char> {
    "Available art animations:\n  /art cat      - Lounging beach cat with animated waves\n  /art clouds   - Parallax scrolling ASCII clouds\n  /art plasma   - Abstract mathematical wave generator\n  /art lizard   - Centered wiggling ASCII lizard\nPress any key to exit the animation once started."@
}

pub open spec fn modes_text() -> Seq<char> {
    "Available agent modes (composed of weighted skill vectors):\n  coder     - Software Engineering & Testing (1.0 coder, 0.2 eval)\n  cpe       - Client Platform Engineering (1.0 cpe, 0.4 architect)\n  eval      - Safety and Red-teaming Evaluation (1.0 eval)\n  research  - Literature Review & Scientific Synthesis (1.0 research, 0.3 coder)\n  architect - Systems Design & Infrastructure (1.0 architect, 0.5 cpe)\n  librarian - LLM Wiki Maintenance & Knowledge Compiling (1.0 librarian, 0.4 research)"@
}

/// A notice from the system, shown as a block.
pub open spec fn notice(t: Seq<char>) -> ActionV {
    ActionV::Say("SYSTEM:\n"@ + t, "system"@)
}

/// A one-line notice from the system.
pub open spec fn note(t: Seq<char>) -> ActionV {
    ActionV::Say("SYSTEM: "@ + t, "system"@)
}

pub open spec fn status_text(s: SessionView) -> Seq<char> {
    "Agent Status:\n  Active Mode: "@ + mode_label(s.mode) + "\n  Model: "@ + s.model + "\n  Endpoint: "@
        + s.api_url + "\n  Workdir: "@ + s.workdir + "\n  Token Budget: "@ + crate::fmt::decimal(
        s.max_tokens as nat,
    )
}

/// The argument of a command: the input with every leading copy of the
/// command's word removed, trimmed.
pub open spec fn argument(input: Seq<char>, word: Seq<char>) -> Seq<char> {
    crate::text::trim(strip_prefixes(input, word))
}

pub open spec fn is_art(t: Seq<char>) -> bool {
    t == "cat"@ || t == "clouds"@ || t == "plasma"@ || t == "lizard"@
}

/// What an input does: the session afterwards and the actions, in order.
/// Commands are recognised on the trimmed input (`/help`, `/art`,
/// `/art help`, `/modes`, `/status`, `/mode`) or by the untrimmed input's
/// start (`/art `, `/mode `, `/power `, `/eco `, `/cloud `, `/gcp `); each
/// echoes the input, answers with a notice and finishes. Anything else is
/// echoed and handed to the agent.
pub open spec fn dispatch(s: SessionView, input: Seq<char>, source: Seq<char>) -> (SessionView, Seq<
    ActionV,
>) {
    let t = crate::text::trim(input);
    let echo = ActionV::Say(input, source);
    if t == "/help"@ {
        (s, seq![echo, notice(help_text()), ActionV::Finished])
    } else if t == "/art"@ || t == "/art help"@ {
        (s, seq![echo, notice(art_help_text()), ActionV::Finished])
    } else if crate::text::starts_with(input, "/art "@) {
        let art = unicode_lower(argument(input, "/art "@));
        if is_art(art) {
            (s, seq![echo, ActionV::StartArt(art), ActionV::Finished])
        } else {
            (
                s,
                seq![
                    echo,
                    notice("Unknown art mode '"@ + art + "'. Try: cat, clouds, plasma, lizard."@),
                    ActionV::Finished,
                ],
            )
        }
    } else if t == "/modes"@ {
        (s, seq![echo, notice(modes_text()), ActionV::Finished])
    } else if t == "/status"@ {
        (s, seq![echo, notice(status_text(s)), ActionV::Finished])
    } else if t == "/mode"@ {
        (
            s,
            seq![
                echo,
                notice("Usage: /mode <name>\nUse /modes to list all available modes."@),
                ActionV::Finished,
            ],
        )
    } else if crate::text::starts_with(input, "/mode "@) {
        let m = mode_of_name(crate::text::ascii_lower(argument(input, "/mode "@)));
        (
            SessionView { mode: m, ..s },
            seq![
                echo,
                ActionV::SetMode(m),
                note("Mode changed to "@ + mode_label(m)),
                ActionV::Finished,
            ],
        )
    } else if crate::text::starts_with(input, "/power "@) {
        let on = argument(input, "/power "@) == "on"@;
        (
            s,
            seq![
                echo,
                ActionV::PowerConfig(on),
                note(
                    "Power monitoring "@ + if on {
                        "enabled"@
                    } else {
                        "disabled"@
                    },
                ),
                ActionV::Finished,
            ],
        )
    } else if crate::text::starts_with(input, "/eco "@) {
        let val = argument(input, "/eco "@);
        let model = if val == "on"@ {
            "llama3.2:1b"@
        } else {
            s.original_model
        };
        (
            SessionView { model, ..s },
            seq![
                echo,
                ActionV::UseEndpoint(s.api_url, model),
                note("Eco mode "@ + val + ". Model is now "@ + model),
                ActionV::Finished,
            ],
        )
    } else if crate::text::starts_with(input, "/cloud "@) {
        let val = argument(input, "/cloud "@);
        let (api, model) = if val == "on"@ {
            ("https://api.groq.com/openai/v1"@, "llama3-8b-8192"@)
        } else {
            (s.original_api_url, s.original_model)
        };
        (
            SessionView { model, api_url: api, ..s },
            seq![
                echo,
                ActionV::UseEndpoint(api, model),
                note("Cloud mode "@ + val + ". Using "@ + model + " via "@ + api),
                ActionV::Finished,
            ],
        )
    } else if crate::text::starts_with(input, "/gcp "@) {
        let val = argument(input, "/gcp "@);
        let (api, model) = if val == "on"@ {
            ("Vertex AI"@, "gemini-1.5-pro-002"@)
        } else {
            (s.original_api_url, s.original_model)
        };
        (
            SessionView { model, api_url: api, ..s },
            seq![
                echo,
                if val == "on"@ {
                    ActionV::UseVertex(model)
                } else {
                    ActionV::UseEndpoint(api, model)
                },
                note("GCP mode "@ + val + ". Using "@ + model + " via "@ + api),
                ActionV::Finished,
            ],
        )
    } else {
        (s, seq![echo, ActionV::Process(input)])
    }
}

fn say(text: Vec<char>, source: &str) -> (r: Action)
    ensures
        r@ == ActionV::Say(text@, source@),
{
    Action::Say { text: string_of(&text), source: String::from_str(source) }
}

fn notice_exec(t: &str) -> (r: Action)
    ensures
        r@ == notice(t@),
{
    let mut x = chars_of("SYSTEM:\n");
    push_str(&mut x, t);
    say(x, "system")
}

fn argument_exec(input: &Vec<char>, word: &str) -> (r: Vec<char>)
    ensures
        r@ == argument(input@, word@),
{
    let pc = chars_of(word);
    if pc.len() == 0 {
        return trim_exec(input);
    }
    let mut i: usize = 0;
    assert(input@.skip(0) =~= input@);
    while pc.len() <= input.len() - i && crate::text::has_at_exec(input, i, &pc)
        invariant
            0 <= i <= input.len(),
            pc@ == word@,
            pc.len() > 0,
            strip_prefixes(input@.skip(i as int), word@) == strip_prefixes(input@, word@),
        decreases input.len() - i,
    {
        assert(crate::text::starts_with(input@.skip(i as int), word@)) by {
            assert(input@.skip(i as int).subrange(0, word@.len() as int) =~= input@.subrange(
                i as int,
                i + word@.len(),
            ));
        }
        assert(input@.skip(i as int).skip(word@.len() as int) =~= input@.skip(i + pc.len()));
        i = i + pc.len();
    }
    assert(!crate::text::starts_with(input@.skip(i as int), word@)) by {
        if crate::text::starts_with(input@.skip(i as int), word@) {
            assert(input@.skip(i as int).subrange(0, word@.len() as int) =~= input@.subrange(
                i as int,
                i + word@.len(),
            ));
        }
    }
    trim_exec(&crate::text::slice_chars(input, i, input.len()))
}

impl Session {
    /// A session in `mode` talking to `model` at `api_url`; these first
    /// endpoint settings are what `/eco off`, `/cloud off` and `/gcp off`
    /// return to.
    pub fn new(mode: AgentMode, model: &str, api_url: &str, workdir: &str, max_tokens: usize) -> (r:
        Session)
        ensures
            r@ == (SessionView {
                mode,
                model: model@,
                api_url: api_url@,
                original_model: model@,
                original_api_url: api_url@,
                workdir: workdir@,
                max_tokens: max_tokens as int,
            }),
    {
        Session {
            mode,
            model: String::from_str(model),
            api_url: String::from_str(api_url),
            original_model: String::from_str(model),
            original_api_url: String::from_str(api_url),
            workdir: String::from_str(workdir),
            max_tokens,
        }
    }

    /// Handles one input from `source` (see [`dispatch`]).
    pub fn dispatch(&mut self, input: &str, source: &str) -> (r: Vec<Action>)
        ensures
            (final(self)@, actions_view(r@)) == dispatch(old(self)@, input@, source@),
    {
        proof {
            reveal_strlit("/art ");
            reveal_strlit("/mode ");
            reveal_strlit("/cloud ");
            reveal_strlit("/gcp ");
        }
        let inp = chars_of(input);
        let t = trim_exec(&inp);
        let echo = say(inp.clone(), source);
        let mut r: Vec<Action> = Vec::new();
        r.push(echo);
        if equals_str(&t, "/help") {
            r.push(notice_exec("Available local commands (do not consume tokens or write to history):\n  /help         - Display this help message\n  /modes        - List all available agent modes and descriptions\n  /status       - Display current agent configuration & session status\n  /mode <name>  - Switch the agent to a different mode\n  /power <on|off> - Toggle hardware power monitoring (macpow)\n  /eco <on|off>   - Toggle lightweight Eco LLM (llama3.2:1b)\n  /cloud <on|off> - Toggle cloud inference API offloading (Groq)\n  /gcp <on|off>   - Toggle GCP Vertex AI inference (Gemini 1.5 Pro)\n  /art <type>   - Render an interactive ASCII animation (cat, clouds, plasma, lizard)"));
            r.push(Action::Finished);
            assert(actions_view(r@) =~~= dispatch(old(self)@, input@, source@).1);
        } else if equals_str(&t, "/art") || equals_str(&t, "/art help") {
            r.push(notice_exec("Available art animations:\n  /art cat      - Lounging beach cat with animated waves\n  /art clouds   - Parallax scrolling ASCII clouds\n  /art plasma   - Abstract mathematical wave generator\n  /art lizard   - Centered wiggling ASCII lizard\nPress any key to exit the animation once started."));
            r.push(Action::Finished);
            assert(actions_view(r@) =~~= dispatch(old(self)@, input@, source@).1);
        } else if starts_with_str(&inp, "/art ") {
            let art = to_lowercase(string_of(&argument_exec(&inp, "/art ")).as_str());
            let a = chars_of(art.as_str());
            if equals_str(&a, "cat") || equals_str(&a, "clouds") || equals_str(&a, "plasma")
                || equals_str(&a, "lizard") {
                r.push(Action::StartArt { mode: art });
            } else {
                let mut m = chars_of("SYSTEM:\n");
                push_str(&mut m, "Unknown art mode '");
                push_str(&mut m, art.as_str());
                push_str(&mut m, "'. Try: cat, clouds, plasma, lizard.");
                assert(m@ =~= "SYSTEM:\n"@ + ("Unknown art mode '"@ + art@
                    + "'. Try: cat, clouds, plasma, lizard."@));
                r.push(say(m, "system"));
            }
            r.push(Action::Finished);
            assert(actions_view(r@) =~~= dispatch(old(self)@, input@, source@).1);
        } else if equals_str(&t, "/modes") {
            r.push(notice_exec("Available agent modes (composed of weighted skill vectors):\n  coder     - Software Engineering & Testing (1.0 coder, 0.2 eval)\n  cpe       - Client Platform Engineering (1.0 cpe, 0.4 architect)\n  eval      - Safety and Red-teaming Evaluation (1.0 eval)\n  research  - Literature Review & Scientific Synthesis (1.0 research, 0.3 coder)\n  architect - Systems Design & Infrastructure (1.0 architect, 0.5 cpe)\n  librarian - LLM Wiki Maintenance & Knowledge Compiling (1.0 librarian, 0.4 research)"));
            r.push(Action::Finished);
            assert(actions_view(r@) =~~= dispatch(old(self)@, input@, source@).1);
        } else if equals_str(&t, "/status") {
            let mut m = chars_of("SYSTEM:\n");
            push_str(&mut m, "Agent Status:\n  Active Mode: ");
            push_str(&mut m, mode_label_exec(self.mode));
            push_str(&mut m, "\n  Model: ");
            push_str(&mut m, self.model.as_str());
            push_str(&mut m, "\n  Endpoint: ");
            push_str(&mut m, self.api_url.as_str());
            push_str(&mut m, "\n  Workdir: ");
            push_str(&mut m, self.workdir.as_str());
            push_str(&mut m, "\n  Token Budget: ");
            crate::fmt::push_decimal(&mut m, self.max_tokens as u64);
            assert(m@ =~= "SYSTEM:\n"@ + status_text(self@));
            let a = say(m, "system");
            assert(a@ == notice(status_text(self@)));
            r.push(a);
            r.push(Action::Finished);
            assert(actions_view(r@) =~~= dispatch(old(self)@, input@, source@).1);
        } else if equals_str(&t, "/mode") {
            r.push(notice_exec("Usage: /mode <name>\nUse /modes to list all available modes."));
            r.push(Action::Finished);
            assert(actions_view(r@) =~~= dispatch(old(self)@, input@, source@).1);
        } else if starts_with_str(&inp, "/mode ") {
            let name = argument_exec(&inp, "/mode ");
            let m = AgentMode::from_str(string_of(&name).as_str());
            self.mode = m;
            r.push(Action::SetMode(m));
            let mut x = chars_of("SYSTEM: ");
            push_str(&mut x, "Mode changed to ");
            push_str(&mut x, mode_label_exec(m));
            assert(x@ =~= "SYSTEM: "@ + ("Mode changed to "@ + mode_label(m)));
            r.push(say(x, "system"));
            r.push(Action::Finished);
            assert(actions_view(r@) =~~= dispatch(old(self)@, input@, source@).1);
        } else if starts_with_str(&inp, "/power ") {
            let on = equals_str(&argument_exec(&inp, "/power "), "on");
            r.push(Action::PowerConfig { enabled: on });
            let mut x = chars_of("SYSTEM: ");
            push_str(&mut x, "Power monitoring ");
            if on {
                push_str(&mut x, "enabled");
            } else {
                push_str(&mut x, "disabled");
            }
            assert(x@ =~= "SYSTEM: "@ + ("Power monitoring "@ + if on {
                "enabled"@
            } else {
                "disabled"@
            }));
            r.push(say(x, "system"));
            r.push(Action::Finished);
            assert(actions_view(r@) =~~= dispatch(old(self)@, input@, source@).1);
        } else if starts_with_str(&inp, "/eco ") {
            let val = argument_exec(&inp, "/eco ");
            if equals_str(&val, "on") {
                self.model = String::from_str("llama3.2:1b");
            } else {
                self.model = self.original_model.clone();
            }
            r.push(Action::UseEndpoint { api_url: self.api_url.clone(), model: self.model.clone() });
            let mut x = chars_of("SYSTEM: ");
            push_str(&mut x, "Eco mode ");
            crate::text::push_all(&mut x, &val);
            push_str(&mut x, ". Model is now ");
            push_str(&mut x, self.model.as_str());
            assert(x@ =~= "SYSTEM: "@ + ("Eco mode "@ + val@ + ". Model is now "@ + self.model@));
            r.push(say(x, "system"));
            r.push(Action::Finished);
            assert(actions_view(r@) =~~= dispatch(old(self)@, input@, source@).1);
        } else if starts_with_str(&inp, "/cloud ") || starts_with_str(&inp, "/gcp ") {
            let cloud = starts_with_str(&inp, "/cloud ");
            let val = if cloud {
                argument_exec(&inp, "/cloud ")
            } else {
                argument_exec(&inp, "/gcp ")
            };
            let on = equals_str(&val, "on");
            if on && cloud {
                self.api_url = String::from_str("https://api.groq.com/openai/v1");
                self.model = String::from_str("llama3-8b-8192");
            } else if on {
                self.api_url = String::from_str("Vertex AI");
                self.model = String::from_str("gemini-1.5-pro-002");
            } else {
                self.api_url = self.original_api_url.clone();
                self.model = self.original_model.clone();
            }
            if on && !cloud {
                r.push(Action::UseVertex { model: self.model.clone() });
            } else {
                r.push(
                    Action::UseEndpoint { api_url: self.api_url.clone(), model: self.model.clone() },
                );
            }
            let mut x = chars_of("SYSTEM: ");
            if cloud {
                push_str(&mut x, "Cloud mode ");
            } else {
                push_str(&mut x, "GCP mode ");
            }
            crate::text::push_all(&mut x, &val);
            push_str(&mut x, ". Using ");
            push_str(&mut x, self.model.as_str());
            push_str(&mut x, " via ");
            push_str(&mut x, self.api_url.as_str());
            assert(x@ =~= "SYSTEM: "@ + ((if cloud {
                "Cloud mode "@
            } else {
                "GCP mode "@
            }) + val@ + ". Using "@ + self.model@ + " via "@ + self.api_url@));
            r.push(say(x, "system"));
            r.push(Action::Finished);
            assert(actions_view(r@) =~~= dispatch(old(self)@, input@, source@).1);
        } else {
            r.push(Action::Process(String::from_str(input)));
            assert(actions_view(r@) =~~= dispatch(old(self)@, input@, source@).1);
        }
        r
    }
}

/// No command changes the endpoint settings that `/eco`, `/cloud` and
/// `/gcp` return to, the working directory, or the token budget.
pub proof fn lemma_dispatch_keeps_originals(s: SessionView, input: Seq<char>, source: Seq<char>)
    ensures
        dispatch(s, input, source).0.original_model == s.original_model,
        dispatch(s, input, source).0.original_api_url == s.original_api_url,
        dispatch(s, input, source).0.workdir == s.workdir,
        dispatch(s, input, source).0.max_tokens == s.max_tokens,
{
}

/// An input that does not start with `/`, trimmed or not, is a prompt: it
/// is echoed and handed to the agent, and the session is unchanged.
pub proof fn lemma_prompt_goes_to_agent(s: SessionView, input: Seq<char>, source: Seq<char>)
    requires
        !crate::text::starts_with(input, "/"@),
        !crate::text::starts_with(crate::text::trim(input), "/"@),
    ensures
        dispatch(s, input, source) == (s, seq![ActionV::Say(input, source), ActionV::Process(input)]),
{
    reveal_strlit("/");
    reveal_strlit("/help");
    reveal_strlit("/art");
    reveal_strlit("/art help");
    reveal_strlit("/art ");
    reveal_strlit("/modes");
    reveal_strlit("/status");
    reveal_strlit("/mode");
    reveal_strlit("/mode ");
    reveal_strlit("/power ");
    reveal_strlit("/eco ");
    reveal_strlit("/cloud ");
    reveal_strlit("/gcp ");
    let t = crate::text::trim(input);
    assert(!crate::text::starts_with(input, "/art "@)) by {
        if crate::text::starts_with(input, "/art "@) {
            assert(input.subrange(0, 1) =~= "/"@);
        }
    }
    assert(!crate::text::starts_with(input, "/mode "@)) by {
        if crate::text::starts_with(input, "/mode "@) {
            assert(input.subrange(0, 1) =~= "/"@);
        }
    }
    assert(!crate::text::starts_with(input, "/power "@)) by {
        if crate::text::starts_with(input, "/power "@) {
            assert(input.subrange(0, 1) =~= "/"@);
        }
    }
    assert(!crate::text::starts_with(input, "/eco "@)) by {
        if crate::text::starts_with(input, "/eco "@) {
            assert(input.subrange(0, 1) =~= "/"@);
        }
    }
    assert(!crate::text::starts_with(input, "/cloud "@)) by {
        if crate::text::starts_with(input, "/cloud "@) {
            assert(input.subrange(0, 1) =~= "/"@);
        }
    }
    assert(!crate::text::starts_with(input, "/gcp "@)) by {
        if crate::text::starts_with(input, "/gcp "@) {
            assert(input.subrange(0, 1) =~= "/"@);
        }
    }
    assert(t.len() == 0 || t[0] != '/') by {
        if t.len() > 0 && t[0] == '/' {
            assert(t.subrange(0, 1) =~= "/"@);
        }
    }
}

} // verus!
