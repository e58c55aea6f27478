//! Agent modes: their names and the skill mix each one composes its system
//! prompt from.
use vstd::prelude::*;
use crate::skills::{SkillComposer, SkillLibrary, SkillWeight};
use crate::text::{ascii_lower_exec, chars_of, equals_str};

verus! {

#[derive(Clone, Copy, Debug, PartialEq, Eq, Structural)]
pub enum AgentMode {
    Coder,
    /// Client Platform Engineering
    Cpe,
    /// Safety evaluation
    Eval,
    /// Literature review and writing
    Research,
    /// System design and infrastructure
    Architect,
    /// LLM wiki maintenance and knowledge compiling
    Librarian,
}

/// The mode that a (lower-cased) name selects; unknown names select `Coder`.
pub open spec fn mode_of_name(lower: Seq<char>) -> AgentMode {
    if lower == "cpe"@ {
        AgentMode::Cpe
    } else if lower == "eval"@ {
        AgentMode::Eval
    } else if lower == "research"@ {
        AgentMode::Research
    } else if lower == "architect"@ {
        AgentMode::Architect
    } else if lower == "librarian"@ {
        AgentMode::Librarian
    } else {
        AgentMode::Coder
    }
}

/// The name of a mode.
pub open spec fn mode_name(m: AgentMode) -> Seq<char> {
    match m {
        AgentMode::Coder => "coder"@,
        AgentMode::Cpe => "cpe"@,
        AgentMode::Eval => "eval"@,
        AgentMode::Research => "research"@,
        AgentMode::Architect => "architect"@,
        AgentMode::Librarian => "librarian"@,
    }
}

/// The skills a mode mixes, with their weights in hundredths.
pub open spec fn mode_weights(m: AgentMode) -> Seq<(Seq<char>, int)> {
    match m {
        AgentMode::Coder => seq![("coder"@, 100int), ("eval"@, 20int)],
        AgentMode::Cpe => seq![("cpe"@, 100int), ("architect"@, 40int)],
        AgentMode::Eval => seq![("eval"@, 100int)],
        AgentMode::Research => seq![("research"@, 100int), ("coder"@, 30int)],
        AgentMode::Architect => seq![("architect"@, 100int), ("cpe"@, 50int)],
        AgentMode::Librarian => seq![("librarian"@, 100int), ("research"@, 40int)],
    }
}

fn weight(name: &str, w: i32) -> (r: SkillWeight)
    ensures
        r@ == (name@, w as int),
{
    SkillWeight { name: String::from_str(name), weight: w }
}

/// The directory the skill files are read from.
pub fn default_skills_dir() -> (r: &'static str)
    ensures
        r@ == ".kota_skills"@,
{
    ".kota_skills"
}

impl AgentMode {
    /// The mode named by `s`, compared without regard to case; any other
    /// name selects `Coder`. Lower-casing is ASCII: the names are ASCII
    /// words without `k`, and no character outside ASCII lower-cases to an
    /// ASCII letter other than `k` (KELVIN SIGN) or to `i` followed by a
    /// combining dot, so Unicode lower-casing selects the same modes.
    pub fn from_str(s: &str) -> (m: AgentMode)
        ensures
            m == mode_of_name(crate::text::ascii_lower(s@)),
    {
        let lower = ascii_lower_exec(&chars_of(s));
        if equals_str(&lower, "cpe") {
            AgentMode::Cpe
        } else if equals_str(&lower, "eval") {
            AgentMode::Eval
        } else if equals_str(&lower, "research") {
            AgentMode::Research
        } else if equals_str(&lower, "architect") {
            AgentMode::Architect
        } else if equals_str(&lower, "librarian") {
            AgentMode::Librarian
        } else {
            AgentMode::Coder
        }
    }

    /// The name of this mode.
    pub fn to_str(self) -> (r: &'static str)
        ensures
            r@ == mode_name(self),
    {
        match self {
            AgentMode::Coder => "coder",
            AgentMode::Cpe => "cpe",
            AgentMode::Eval => "eval",
            AgentMode::Research => "research",
            AgentMode::Architect => "architect",
            AgentMode::Librarian => "librarian",
        }
    }

    /// The weighted skills this mode composes its prompt from.
    pub fn skill_weights(self) -> (r: Vec<SkillWeight>)
        ensures
            crate::skills::weights_view(r@) == mode_weights(self),
    {
        let mut v: Vec<SkillWeight> = Vec::new();
        match self {
            AgentMode::Coder => {
                v.push(weight("coder", 100));
                v.push(weight("eval", 20));
            },
            AgentMode::Cpe => {
                v.push(weight("cpe", 100));
                v.push(weight("architect", 40));
            },
            AgentMode::Eval => {
                v.push(weight("eval", 100));
            },
            AgentMode::Research => {
                v.push(weight("research", 100));
                v.push(weight("coder", 30));
            },
            AgentMode::Architect => {
                v.push(weight("architect", 100));
                v.push(weight("cpe", 50));
            },
            AgentMode::Librarian => {
                v.push(weight("librarian", 100));
                v.push(weight("research", 40));
            },
        }
        assert(crate::skills::weights_view(v@) =~= mode_weights(self));
        v
    }

    /// The system prompt of this mode, composed from the skill texts in
    /// `library` (read from [`default_skills_dir`]).
    pub fn system_prompt(self, library: &SkillLibrary) -> (r: String)
        ensures
            r@ == crate::skills::composed_prompt(library@, mode_weights(self)),
    {
        let composer = SkillComposer::new(default_skills_dir());
        composer.compose(&self.skill_weights(), library)
    }
}

/// A mode's name selects that mode again: `from_str(m.to_str()) == m`.
pub proof fn lemma_mode_name_round_trip(m: AgentMode)
    ensures
        mode_of_name(crate::text::ascii_lower(mode_name(m))) == m,
{
    reveal_strlit("coder");
    reveal_strlit("cpe");
    reveal_strlit("eval");
    reveal_strlit("research");
    reveal_strlit("architect");
    reveal_strlit("librarian");
    let n = mode_name(m);
    assert(crate::text::ascii_lower(n) =~= n);
    assert("cpe"@.len() == 3 && "eval"@.len() == 4 && "coder"@.len() == 5);
    assert("research"@.len() == 8 && "architect"@.len() == 9 && "librarian"@.len() == 9);
    assert("architect"@[0] != "librarian"@[0]);
    assert("research"@[0] != "coder"@[0]);
    match m {
        AgentMode::Coder => {
            assert(n != "cpe"@ && n != "eval"@ && n != "research"@);
            assert(n != "architect"@ && n != "librarian"@);
        },
        AgentMode::Cpe => {},
        AgentMode::Eval => {
            assert(n != "cpe"@);
        },
        AgentMode::Research => {
            assert(n != "cpe"@ && n != "eval"@);
        },
        AgentMode::Architect => {
            assert(n != "cpe"@ && n != "eval"@ && n != "research"@);
        },
        AgentMode::Librarian => {
            assert(n != "cpe"@ && n != "eval"@ && n != "research"@ && n != "architect"@);
        },
    }
}

/// Names are read without regard to ASCII case: a name and its
/// lower-cased form select the same mode.
pub proof fn lemma_mode_case_insensitive(s: Seq<char>)
    ensures
        mode_of_name(crate::text::ascii_lower(crate::text::ascii_lower(s))) == mode_of_name(
            crate::text::ascii_lower(s),
        ),
{
    assert(crate::text::ascii_lower(crate::text::ascii_lower(s)) =~= crate::text::ascii_lower(s));
}

/// Whether `n` is the name of a mode.
pub open spec fn is_mode_name(n: Seq<char>) -> bool {
    n == "coder"@ || n == "cpe"@ || n == "eval"@ || n == "research"@ || n == "architect"@ || n
        == "librarian"@
}

proof fn lemma_names_distinct()
    ensures
        forall|m1: AgentMode, m2: AgentMode| m1 != m2 ==> #[trigger] mode_name(m1) != #[trigger] mode_name(m2),
{
    reveal_strlit("coder");
    reveal_strlit("cpe");
    reveal_strlit("eval");
    reveal_strlit("research");
    reveal_strlit("architect");
    reveal_strlit("librarian");
    assert("cpe"@.len() == 3 && "eval"@.len() == 4 && "coder"@.len() == 5);
    assert("research"@.len() == 8 && "architect"@.len() == 9 && "librarian"@.len() == 9);
    assert("architect"@[0] != "librarian"@[0]);
}

/// Reading a name and printing the mode it selects gives the name back,
/// lower-cased, exactly when the lower-cased name is a mode's name; and
/// different modes have different names.
pub proof fn lemma_name_of_parsed(s: Seq<char>)
    ensures
        mode_name(mode_of_name(crate::text::ascii_lower(s))) == crate::text::ascii_lower(s)
            <==> is_mode_name(crate::text::ascii_lower(s)),
        forall|m1: AgentMode, m2: AgentMode| m1 != m2 ==> #[trigger] mode_name(m1) != #[trigger] mode_name(m2),
{
    lemma_names_distinct();
    let l = crate::text::ascii_lower(s);
    let m = mode_of_name(l);
    if is_mode_name(l) {
        if l == "coder"@ {
            assert(mode_name(AgentMode::Coder) == l);
            assert(l != mode_name(AgentMode::Cpe));
            assert(l != mode_name(AgentMode::Eval));
            assert(l != mode_name(AgentMode::Research));
            assert(l != mode_name(AgentMode::Architect));
            assert(l != mode_name(AgentMode::Librarian));
        }
    } else {
        assert(mode_name(m) != l);
    }
}

} // verus!
