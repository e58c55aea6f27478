//! Skill composition: a system prompt is a base text followed by weighted
//! skill sections, heaviest first.
//!
//! Weights are held in hundredths (`100` is a weight of `1.00`). The skill
//! texts are handed in as a [`SkillLibrary`], read beforehand from the files
//! that [`SkillComposer::skill_file`] names.
use vstd::prelude::*;
use crate::fmt::push_hundredths;
use crate::text::{chars_of, has_at_exec, join_path_exec, push_all, push_str, string_of};

verus! {

/// Reads skill texts from a directory of `<name>.md` files.
pub struct SkillComposer {
    pub skills_dir: String,
}

/// One skill and its weight, in hundredths.
pub struct SkillWeight {
    pub name: String,
    pub weight: i32,
}

/// The text of one skill file; an unreadable file has the empty text.
pub struct SkillText {
    pub name: String,
    pub text: String,
}

/// The skill texts available to a composer.
pub struct SkillLibrary {
    pub entries: Vec<SkillText>,
}

impl View for SkillWeight {
    type V = (Seq<char>, int);

    open spec fn view(&self) -> (Seq<char>, int) {
        (self.name@, self.weight as int)
    }
}

impl View for SkillText {
    type V = (Seq<char>, Seq<char>);

    open spec fn view(&self) -> (Seq<char>, Seq<char>) {
        (self.name@, self.text@)
    }
}

impl View for SkillLibrary {
    type V = Seq<(Seq<char>, Seq<char>)>;

    open spec fn view(&self) -> Seq<(Seq<char>, Seq<char>)> {
        self.entries@.map_values(|e: SkillText| e@)
    }
}

/// The views of a sequence of weights.
pub open spec fn weights_view(ws: Seq<SkillWeight>) -> Seq<(Seq<char>, int)> {
    ws.map_values(|w: SkillWeight| w@)
}

/// The text of the skill `name` in `lib` from position `i` on: the first
/// entry with that name, or the empty text when there is none.
pub open spec fn skill_text_from(lib: Seq<(Seq<char>, Seq<char>)>, name: Seq<char>, i: int) -> Seq<
    char,
>
    decreases lib.len() - i,
{
    if i < 0 || i >= lib.len() {
        seq![]
    } else if lib[i].0 == name {
        lib[i].1
    } else {
        skill_text_from(lib, name, i + 1)
    }
}

/// The text of the skill `name` in `lib`.
pub open spec fn skill_text(lib: Seq<(Seq<char>, Seq<char>)>, name: Seq<char>) -> Seq<char> {
    skill_text_from(lib, name, 0)
}

/// The first position at or after `i` whose weight is below `w`.
pub open spec fn first_lighter(s: Seq<(Seq<char>, int)>, w: int, i: int) -> int
    decreases s.len() - i,
{
    if i < 0 || i >= s.len() {
        s.len() as int
    } else if s[i].1 < w {
        i
    } else {
        first_lighter(s, w, i + 1)
    }
}

/// Stable sort by descending weight: each weight goes after every earlier
/// one that is at least as heavy.
pub open spec fn sort_desc(ws: Seq<(Seq<char>, int)>) -> Seq<(Seq<char>, int)>
    decreases ws.len(),
{
    if ws.len() == 0 {
        ws
    } else {
        let s = sort_desc(ws.drop_last());
        s.insert(first_lighter(s, ws.last().1, 0), ws.last())
    }
}

/// The section that one skill contributes to a prompt.
pub open spec fn skill_section(name: Seq<char>, weight: int, text: Seq<char>) -> Seq<char> {
    "\n--- SKILL: "@ + name + " (Weight: "@ + crate::fmt::hundredths(weight as nat) + ") ---\n"@ + text
        + "\n"@
}

/// The sections of the skills in `ws`, in order; a skill whose weight is not
/// positive or whose text is empty contributes nothing.
pub open spec fn skill_sections(ws: Seq<(Seq<char>, int)>, lib: Seq<(Seq<char>, Seq<char>)>) -> Seq<
    char,
>
    decreases ws.len(),
{
    if ws.len() == 0 {
        seq![]
    } else {
        let w = ws.last();
        let text = skill_text(lib, w.0);
        skill_sections(ws.drop_last(), lib) + if w.1 > 0 && text.len() > 0 {
            skill_section(w.0, w.1, text)
        } else {
            seq![]
        }
    }
}

/// The prompt composed from the `base` skill and the weighted skills.
pub open spec fn composed_prompt(
    lib: Seq<(Seq<char>, Seq<char>)>,
    ws: Seq<(Seq<char>, int)>,
) -> Seq<char> {
    let base = skill_text(lib, "base"@);
    if base.len() == 0 {
        "You are Kota."@
    } else {
        base + "\n\n=== SYNTHESIZED SKILLS ===\n"@ + skill_sections(sort_desc(ws), lib)
    }
}

/// A sequence ordered by descending weight.
pub open spec fn is_desc(s: Seq<(Seq<char>, int)>) -> bool {
    forall|i: int, j: int| 0 <= i < j < s.len() ==> s[i].1 >= s[j].1
}

proof fn lemma_first_lighter(s: Seq<(Seq<char>, int)>, w: int, i: int)
    requires
        0 <= i <= s.len(),
    ensures
        i <= first_lighter(s, w, i) <= s.len(),
        forall|k: int| i <= k < first_lighter(s, w, i) ==> s[k].1 >= w,
        first_lighter(s, w, i) < s.len() ==> s[first_lighter(s, w, i)].1 < w,
    decreases s.len() - i,
{
    if i < s.len() && s[i].1 >= w {
        lemma_first_lighter(s, w, i + 1);
    }
}

/// Sorting yields a descending sequence with the same weights.
pub proof fn lemma_sort_desc(ws: Seq<(Seq<char>, int)>)
    ensures
        is_desc(sort_desc(ws)),
        sort_desc(ws).len() == ws.len(),
        sort_desc(ws).to_multiset() == ws.to_multiset(),
    decreases ws.len(),
{
    broadcast use vstd::seq_lib::group_to_multiset_ensures;

    if ws.len() > 0 {
        let s = sort_desc(ws.drop_last());
        lemma_sort_desc(ws.drop_last());
        let x = ws.last();
        let p = first_lighter(s, x.1, 0);
        lemma_first_lighter(s, x.1, 0);
        let t = s.insert(p, x);
        assert forall|i: int, j: int| 0 <= i < j < t.len() implies t[i].1 >= t[j].1 by {
            if j < p {
            } else if j == p {
            } else if i < p {
                assert(t[j] == s[j - 1]);
                if p < s.len() {
                    assert(s[p].1 < x.1);
                }
            } else if i == p {
                assert(t[j] == s[j - 1]);
                assert(s[p].1 < x.1);
                if p < j - 1 {
                    assert(s[p].1 >= s[j - 1].1);
                }
            } else {
                assert(t[i] == s[i - 1]);
                assert(t[j] == s[j - 1]);
            }
        }
        s.insert_ensures(p, x);
        assert(ws =~= ws.drop_last().push(x));
    }
}

impl SkillWeight {
    /// A copy of this weight.
    pub fn copied(&self) -> (r: SkillWeight)
        ensures
            r@ == self@,
    {
        SkillWeight { name: self.name.clone(), weight: self.weight }
    }
}

impl SkillLibrary {
    /// The text of the skill `name`, or the empty text.
    pub fn text_of(&self, name: &Vec<char>) -> (r: Vec<char>)
        ensures
            r@ == skill_text(self@, name@),
    {
        let mut i: usize = 0;
        while i < self.entries.len()
            invariant
                0 <= i <= self.entries.len(),
                skill_text(self@, name@) == skill_text_from(self@, name@, i as int),
            decreases self.entries.len() - i,
        {
            let e = &self.entries[i];
            let en = chars_of(e.name.as_str());
            if equals_exec(&en, name) {
                return chars_of(e.text.as_str());
            }
            i = i + 1;
        }
        Vec::new()
    }
}

/// Whether two character vectors are equal.
pub fn equals_exec(a: &Vec<char>, b: &Vec<char>) -> (r: bool)
    ensures
        r == (a@ == b@),
{
    if a.len() != b.len() {
        return false;
    }
    let r = has_at_exec(a, 0, b);
    assert(a@.subrange(0, b@.len() as int) =~= a@);
    r
}

/// Orders `ws` by descending weight, stably.
pub fn sort_weights(ws: &Vec<SkillWeight>) -> (r: Vec<SkillWeight>)
    ensures
        weights_view(r@) == sort_desc(weights_view(ws@)),
{
    let mut out: Vec<SkillWeight> = Vec::new();
    let mut i: usize = 0;
    while i < ws.len()
        invariant
            0 <= i <= ws.len(),
            weights_view(out@) == sort_desc(weights_view(ws@.take(i as int))),
        decreases ws.len() - i,
    {
        let x = ws[i].copied();
        let w = x.weight;
        let mut p: usize = 0;
        while p < out.len() && out[p].weight >= w
            invariant
                0 <= p <= out.len(),
                first_lighter(weights_view(out@), w as int, 0) == first_lighter(
                    weights_view(out@),
                    w as int,
                    p as int,
                ),
            decreases out.len() - p,
        {
            p = p + 1;
        }
        let ghost old_out = out@;
        out.insert(p, x);
        proof {
            assert(weights_view(ws@.take(i + 1)).drop_last() =~= weights_view(ws@.take(i as int)));
            assert(weights_view(ws@.take(i + 1)).last() == x@);
            assert(weights_view(out@) =~= weights_view(old_out).insert(p as int, x@));
        }
        i = i + 1;
    }
    assert(ws@.take(ws.len() as int) =~= ws@);
    out
}

impl SkillComposer {
    /// A composer over the skills in `skills_dir`.
    pub fn new(skills_dir: &str) -> (r: SkillComposer)
        ensures
            r.skills_dir@ == skills_dir@,
    {
        SkillComposer { skills_dir: String::from_str(skills_dir) }
    }

    /// The file that holds the skill `name`: `<skills_dir>/<name>.md`.
    pub fn skill_file(&self, name: &str) -> (r: String)
        ensures
            r@ == crate::text::join_path(self.skills_dir@, name@ + ".md"@),
    {
        let dir = chars_of(self.skills_dir.as_str());
        let mut file = chars_of(name);
        push_str(&mut file, ".md");
        let p = join_path_exec(&dir, &file);
        string_of(&p)
    }

    /// The prompt made of the `base` skill followed by the sections of the
    /// weighted skills, heaviest first; `"You are Kota."` when the base skill
    /// is empty.
    pub fn compose(&self, weights: &Vec<SkillWeight>, library: &SkillLibrary) -> (r: String)
        ensures
            r@ == composed_prompt(library@, weights_view(weights@)),
    {
        let base = library.text_of(&chars_of("base"));
        if base.len() == 0 {
            return String::from_str("You are Kota.");
        }
        let mut out = base;
        push_str(&mut out, "\n\n=== SYNTHESIZED SKILLS ===\n");
        let ghost prefix = out@;
        let sorted = sort_weights(weights);
        let mut i: usize = 0;
        while i < sorted.len()
            invariant
                0 <= i <= sorted.len(),
                out@ == prefix + skill_sections(weights_view(sorted@).take(i as int), library@),
            decreases sorted.len() - i,
        {
            let w = &sorted[i];
            let name = chars_of(w.name.as_str());
            let text = library.text_of(&name);
            proof {
                assert(weights_view(sorted@).take(i + 1).drop_last() =~= weights_view(
                    sorted@,
                ).take(i as int));
                assert(weights_view(sorted@).take(i + 1).last() == w@);
            }
            if w.weight > 0 && text.len() > 0 {
                push_str(&mut out, "\n--- SKILL: ");
                push_all(&mut out, &name);
                push_str(&mut out, " (Weight: ");
                push_hundredths(&mut out, w.weight as u64);
                push_str(&mut out, ") ---\n");
                push_all(&mut out, &text);
                push_str(&mut out, "\n");
                assert(out@ =~= prefix + skill_sections(weights_view(sorted@).take(i as int), library@)
                    + skill_section(name@, w.weight as int, text@));
            } else {
                assert(out@ =~= prefix + skill_sections(weights_view(sorted@).take(i as int), library@)
                    + seq![]);
            }
            i = i + 1;
        }
        assert(weights_view(sorted@).take(sorted.len() as int) =~= weights_view(sorted@));
        string_of(&out)
    }
}

} // verus!
