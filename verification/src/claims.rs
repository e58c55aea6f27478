//! Claims in a paper: picking the passages worth checking (abstract
//! sentences, formal statements, strong or quantitative lines), grading
//! how well a passage is grounded, and the prompt that asks a model to grade a claim.
//!
//! Scores are held in hundredths (`35` is a confidence of 0.35).
use vstd::prelude::*;
use crate::document::{diag, make_diag, DiagView, Diagnostic, DiagnosticSeverity, DocumentVerifier};
use crate::latex::env_bodies_exec;
use crate::text::{ascii_lower_exec, chars_of, contains_str, join_exec, push_all, push_str,
    replace_char_exec, split_char_exec, split_lines, split_str_exec, starts_with_str, string_of,
    trim_exec, utf8_len_gt};

verus! {

/// How well a claim is grounded.
#[derive(Clone, Copy, Debug, PartialEq, Eq, Structural)]
pub enum ConfidenceGrade {
    /// 0.85 and above: grounded in data, equations or citations.
    High,
    /// 0.65 up to 0.85: supported, with minor unverified assumptions.
    Moderate,
    /// 0.40 up to 0.65: weakly grounded.
    Low,
    /// Below 0.40: an unsubstantiated superlative.
    Fragile,
}

/// The grade of a score in hundredths.
pub open spec fn grade_of(score: int) -> ConfidenceGrade {
    if score >= 85 {
        ConfidenceGrade::High
    } else if score >= 65 {
        ConfidenceGrade::Moderate
    } else if score >= 40 {
        ConfidenceGrade::Low
    } else {
        ConfidenceGrade::Fragile
    }
}

impl ConfidenceGrade {
    /// The grade of a confidence score given in hundredths.
    pub fn from_score(score: u32) -> (r: ConfidenceGrade)
        ensures
            r == grade_of(score as int),
    {
        if score >= 85 {
            ConfidenceGrade::High
        } else if score >= 65 {
            ConfidenceGrade::Moderate
        } else if score >= 40 {
            ConfidenceGrade::Low
        } else {
            ConfidenceGrade::Fragile
        }
    }
}

/// A passage picked for checking: its line (1 for the abstract and formal
/// environments), its text, and what kind of claim it is.
#[derive(Debug, Clone)]
pub struct CandidateClaim {
    pub line: usize,
    pub passage: String,
    pub claim_type: String,
}

/// The plain value of a candidate: line, passage, claim type.
pub type ClaimView = (int, Seq<char>, Seq<char>);

/// The rule-based grading of a passage: score in hundredths, rationale,
/// evidence found, suggestion.
pub type Grading = (int, Seq<char>, Option<Seq<char>>, Option<Seq<char>>);

/// Whether the lower-cased passage uses a superlative.
///
/// Lower-casing is ASCII here: the words looked for are ASCII and hold no
/// `k`, and no character outside ASCII lower-cases to an ASCII letter other
/// than `k` (KELVIN SIGN) or to `i` followed by a combining dot, so Unicode
/// lower-casing finds the same words.
pub open spec fn superlative(lower: Seq<char>) -> bool {
    crate::text::contains(lower, "state-of-the-art"@) || crate::text::contains(lower, "sota"@)
        || crate::text::contains(lower, "unprecedented"@) || crate::text::contains(
        lower,
        "revolutionary"@,
    ) || crate::text::contains(lower, "drastically"@) || crate::text::contains(
        lower,
        "superior"@,
    )
}

pub open spec fn is_ascii_digit(c: char) -> bool {
    '0' <= c && c <= '9'
}

/// The grading of a passage of the given claim type.
pub open spec fn grading(passage: Seq<char>, claim_type: Seq<char>) -> Grading {
    let lower = crate::text::ascii_lower(passage);
    let has_cite = crate::text::contains(passage, "\\cite"@);
    let has_ref = crate::text::contains(passage, "\\ref"@) || crate::text::contains(
        passage,
        "\\eqref"@,
    );
    let has_numbers = exists|i: int| 0 <= i < passage.len() && is_ascii_digit(#[trigger] passage[i]);
    if superlative(lower) && !has_cite && !has_ref {
        (
            35,
            "Ungrounded superlative claim: passage makes aggressive performance assertions without direct literature citation or empirical table cross-reference."@,
            None,
            Some("Cite baseline benchmarks or provide explicit \\ref{} to supporting experimental table."@),
        )
    } else if has_ref && (crate::text::contains(lower, "tab"@) || crate::text::contains(
        lower,
        "table"@,
    ) || crate::text::contains(lower, "eq"@)) {
        (
            90,
            "Grounded claim: passage directly cross-references internal empirical table or mathematical equation evidence."@,
            Some("Internal cross-reference (table/equation) present in claim."@),
            None,
        )
    } else if has_cite && has_numbers {
        (
            85,
            "Supported quantitative claim: passage cites published literature alongside specific numerical figures."@,
            Some("External citation and quantitative data verified."@),
            None,
        )
    } else if crate::text::contains(claim_type, "Formal"@) {
        (
            80,
            "Formal mathematical specification: statement appears within a structured theorem or definition environment."@,
            Some("Mathematical environment definition verified."@),
            None,
        )
    } else if has_cite {
        (
            75,
            "Supported assertion: claim is grounded with relevant external bibliographic references."@,
            Some("Citation detected."@),
            None,
        )
    } else {
        (
            55,
            "General assertion: passage lacks explicit quantitative references, citations, or equations."@,
            None,
            Some("Consider providing empirical verification or citations to substantiate this assertion."@),
        )
    }
}

fn has_ascii_digit(v: &Vec<char>) -> (r: bool)
    ensures
        r == exists|i: int| 0 <= i < v@.len() && is_ascii_digit(#[trigger] v@[i]),
{
    let mut i: usize = 0;
    while i < v.len()
        invariant
            0 <= i <= v.len(),
            forall|k: int| 0 <= k < i ==> !is_ascii_digit(#[trigger] v@[k]),
        decreases v.len() - i,
    {
        if '0' <= v[i] && v[i] <= '9' {
            assert(is_ascii_digit(v@[i as int]));
            return true;
        }
        i = i + 1;
    }
    false
}

fn opt_string(s: Option<&str>) -> (r: Option<String>)
    ensures
        match s {
            Some(t) => r matches Some(u) && u@ == t@,
            None => r is None,
        },
{
    match s {
        Some(t) => Some(String::from_str(t)),
        None => None,
    }
}

fn grading_parts(
    score: u32,
    rationale: &str,
    evidence: Option<&str>,
    suggestion: Option<&str>,
) -> (r: (u32, String, Option<String>, Option<String>))
    ensures
        r.0 == score,
        r.1@ == rationale@,
        match evidence {
            Some(t) => r.2 matches Some(u) && u@ == t@,
            None => r.2 is None,
        },
        match suggestion {
            Some(t) => r.3 matches Some(u) && u@ == t@,
            None => r.3 is None,
        },
{
    (score, String::from_str(rationale), opt_string(evidence), opt_string(suggestion))
}

/// The plain value of a grading as the library returns it.
pub open spec fn grading_view(r: (u32, String, Option<String>, Option<String>)) -> Grading {
    (r.0 as int, r.1@, crate::agent::opt_view(r.2), crate::agent::opt_view(r.3))
}

impl DocumentVerifier {
    /// Rule-based grading of a candidate claim: an unreferenced superlative
    /// is fragile (0.35); a reference to a table or equation is grounded
    /// (0.90); a citation with figures is supported (0.85); a formal
    /// statement scores 0.80; a citation alone 0.75; anything else 0.55.
    /// Returns the score in hundredths, the rationale, the evidence found
    /// and a suggestion. The document context is not consulted.
    pub fn heuristic_claim_evaluation(candidate: &CandidateClaim, doc_context: &str) -> (r: (
        u32,
        String,
        Option<String>,
        Option<String>,
    ))
        ensures
            grading_view(r) == grading(candidate.passage@, candidate.claim_type@),
    {
        let passage = chars_of(candidate.passage.as_str());
        let kind = chars_of(candidate.claim_type.as_str());
        let lower = ascii_lower_exec(&passage);
        let has_cite = contains_str(&passage, "\\cite");
        let has_ref = contains_str(&passage, "\\ref") || contains_str(&passage, "\\eqref");
        let is_superlative = contains_str(&lower, "state-of-the-art") || contains_str(&lower, "sota")
            || contains_str(&lower, "unprecedented") || contains_str(&lower, "revolutionary")
            || contains_str(&lower, "drastically") || contains_str(&lower, "superior");
        let has_numbers = has_ascii_digit(&passage);
        if is_superlative && !has_cite && !has_ref {
            grading_parts(
                35,
                "Ungrounded superlative claim: passage makes aggressive performance assertions without direct literature citation or empirical table cross-reference.",
                None,
                Some("Cite baseline benchmarks or provide explicit \\ref{} to supporting experimental table."),
            )
        } else if has_ref && (contains_str(&lower, "tab") || contains_str(&lower, "table")
            || contains_str(&lower, "eq")) {
            grading_parts(
                90,
                "Grounded claim: passage directly cross-references internal empirical table or mathematical equation evidence.",
                Some("Internal cross-reference (table/equation) present in claim."),
                None,
            )
        } else if has_cite && has_numbers {
            grading_parts(
                85,
                "Supported quantitative claim: passage cites published literature alongside specific numerical figures.",
                Some("External citation and quantitative data verified."),
                None,
            )
        } else if contains_str(&kind, "Formal") {
            grading_parts(
                80,
                "Formal mathematical specification: statement appears within a structured theorem or definition environment.",
                Some("Mathematical environment definition verified."),
                None,
            )
        } else if has_cite {
            grading_parts(
                75,
                "Supported assertion: claim is grounded with relevant external bibliographic references.",
                Some("Citation detected."),
                None,
            )
        } else {
            grading_parts(
                55,
                "General assertion: passage lacks explicit quantitative references, citations, or equations.",
                None,
                Some("Consider providing empirical verification or citations to substantiate this assertion."),
            )
        }
    }
}

// ---------------------------------------------------------------------------
// Picking candidates
// ---------------------------------------------------------------------------

/// A passage offered for checking, and whether it qualifies.
pub type Offer = (ClaimView, bool);

/// The selection has reached its size: `max` passages.
pub open spec fn stopped(r: Seq<ClaimView>, max: int) -> bool {
    r.len() >= max
}

/// Whether a passage with this text was already selected.
pub open spec fn has_passage(r: Seq<ClaimView>, p: Seq<char>) -> bool {
    exists|i: int| 0 <= i < r.len() && (#[trigger] r[i]).1 == p
}

/// One offer: taken when it qualifies, its text is new, and the selection
/// has not reached its size.
pub open spec fn offer(r: Seq<ClaimView>, max: int, o: Offer) -> Seq<ClaimView> {
    if stopped(r, max) || !o.1 || has_passage(r, o.0.1) {
        r
    } else {
        r.push(o.0)
    }
}

/// The offers `os`, in order.
pub open spec fn offer_all(r: Seq<ClaimView>, max: int, os: Seq<Offer>) -> Seq<ClaimView>
    decreases os.len(),
{
    if os.len() == 0 {
        r
    } else {
        offer(offer_all(r, max, os.drop_last()), max, os.last())
    }
}

/// Offering two runs of passages one after the other is offering their concatenation.
pub proof fn lemma_offer_all_concat(r: Seq<ClaimView>, max: int, a: Seq<Offer>, b: Seq<Offer>)
    ensures
        offer_all(r, max, a + b) == offer_all(offer_all(r, max, a), max, b),
    decreases b.len(),
{
    if b.len() == 0 {
        assert(a + b =~= a);
    } else {
        assert((a + b).drop_last() =~= a + b.drop_last());
        lemma_offer_all_concat(r, max, a, b.drop_last());
    }
}

/// A passage trimmed, with its line breaks turned into spaces.
pub open spec fn clean(s: Seq<char>) -> Seq<char> {
    crate::text::replace_char(crate::text::trim(s), '\n', ' ')
}

/// The sentences of the first abstract, each offered when it is longer
/// than 35 bytes.
pub open spec fn abstract_offers(tex: Seq<char>) -> Seq<Offer> {
    match crate::latex::first_env_body(tex, "\\begin{abstract}"@, "\\end{abstract}"@) {
        Some(b) => crate::text::split_char(b, '.').map_values(
            |x: Seq<char>|
                ((1int, clean(x), "Abstract / Core Thesis"@), crate::text::utf8_len(clean(x)) > 35),
        ),
        None => seq![],
    }
}

/// The bodies of an environment, each offered when longer than 25 bytes.
pub open spec fn env_offers(tex: Seq<char>, open: Seq<char>, close: Seq<char>, kind: Seq<char>) -> Seq<
    Offer,
> {
    crate::latex::env_bodies(tex, open, close).map_values(
        |b: Seq<char>| ((1int, clean(b), kind), crate::text::utf8_len(clean(b)) > 25),
    )
}

/// Lines that are never offered: comments, and short list items.
pub open spec fn skipped_line(t: Seq<char>) -> bool {
    crate::text::starts_with(t, "%"@) || (crate::text::starts_with(t, "\\item"@)
        && crate::text::utf8_len(t) < 25)
}

/// A trimmed line with every `\noindent` removed, trimmed again.
pub open spec fn strip_noindent(t: Seq<char>) -> Seq<char> {
    crate::text::trim(crate::text::join(crate::text::split_str(t, "\\noindent"@), ""@))
}

/// The kind of a strong line: a contribution when it proposes or
/// introduces something, else a quantitative claim.
pub open spec fn line_kind(c: Seq<char>) -> Seq<char> {
    let lower = crate::text::ascii_lower(c);
    if crate::text::contains(lower, "propose"@) || crate::text::contains(lower, "introduce"@) {
        "Key Contribution"@
    } else {
        "Quantitative / Empirical"@
    }
}

/// Line `n`, offered when it is not skipped, is strong, and its cleaned
/// text is longer than 30 bytes.
pub open spec fn line_offer(n: int, l: Seq<char>, strong: bool) -> Offer {
    let t = crate::text::trim(l);
    let c = strip_noindent(t);
    ((n, c, line_kind(c)), !skipped_line(t) && strong && crate::text::utf8_len(c) > 30)
}

/// The `i`-th flag, false past the end.
pub open spec fn flag(strong: Seq<bool>, i: int) -> bool {
    0 <= i < strong.len() && strong[i]
}

/// Every line of the text, numbered from one.
pub open spec fn line_offers(ls: Seq<Seq<char>>, strong: Seq<bool>) -> Seq<Offer> {
    Seq::new(ls.len(), |i: int| line_offer(i + 1, ls[i], flag(strong, i)))
}

/// Everything offered, in order: abstract sentences, theorems, lemmas,
/// definitions, propositions, then lines.
pub open spec fn all_offers(tex: Seq<char>, strong: Seq<bool>) -> Seq<Offer> {
    abstract_offers(tex) + env_offers(tex, "\\begin{theorem}"@, "\\end{theorem}"@, "Formal theorem"@)
        + env_offers(tex, "\\begin{lemma}"@, "\\end{lemma}"@, "Formal lemma"@) + env_offers(
        tex,
        "\\begin{definition}"@,
        "\\end{definition}"@,
        "Formal definition"@,
    ) + env_offers(tex, "\\begin{proposition}"@, "\\end{proposition}"@, "Formal proposition"@)
        + line_offers(crate::text::lines(tex), strong)
}

/// The candidates of a text, given which of its lines are strong.
pub open spec fn candidates(tex: Seq<char>, max: int, strong: Seq<bool>) -> Seq<ClaimView> {
    offer_all(seq![], max, all_offers(tex, strong))
}

/// The pattern of a strong or quantitative line.
pub open spec fn strong_pattern() -> Seq<char> {
    "(?i)\\b(outperforms?|state-of-the-art|sota|superior|accelerates?|orders of magnitude|we propose|we achieve|reduces latency by|\\d+(\\.\\d+)?%|$\\times$)\\b"@
}

/// Which lines of the text are strong: the pattern matches the trimmed
/// line.
pub open spec fn strong_flags(tex: Seq<char>) -> Seq<bool> {
    crate::text::lines(tex).map_values(
        |l: Seq<char>| crate::search::regex_search(strong_pattern(), crate::text::trim(l)) == Some(
            true,
        ),
    )
}

/// The plain value of candidates as the library returns them.
pub open spec fn claims_view(s: Seq<CandidateClaim>) -> Seq<ClaimView> {
    s.map_values(|c: CandidateClaim| (c.line as int, c.passage@, c.claim_type@))
}

struct Cand {
    line: usize,
    passage: Vec<char>,
    kind: Vec<char>,
}

spec fn cand_view(c: Cand) -> ClaimView {
    (c.line as int, c.passage@, c.kind@)
}

spec fn cands_view(s: Seq<Cand>) -> Seq<ClaimView> {
    s.map_values(|c: Cand| cand_view(c))
}

spec fn offers_view(s: Seq<(Cand, bool)>) -> Seq<Offer> {
    s.map_values(|o: (Cand, bool)| (cand_view(o.0), o.1))
}

fn has_passage_exec(r: &Vec<Cand>, p: &Vec<char>) -> (b: bool)
    ensures
        b == has_passage(cands_view(r@), p@),
{
    let mut i: usize = 0;
    while i < r.len()
        invariant
            0 <= i <= r.len(),
            forall|k: int| 0 <= k < i ==> (#[trigger] cands_view(r@)[k]).1 != p@,
        decreases r.len() - i,
    {
        if crate::skills::equals_exec(&r[i].passage, p) {
            assert(cands_view(r@)[i as int].1 == p@);
            return true;
        }
        i = i + 1;
    }
    false
}

fn offer_exec(out: &mut Vec<Cand>, max: usize, offers: &Vec<(Cand, bool)>)
    ensures
        cands_view(final(out)@) == offer_all(cands_view(old(out)@), max as int, offers_view(offers@)),
{
    let ghost start = cands_view(out@);
    let mut i: usize = 0;
    while i < offers.len()
        invariant
            0 <= i <= offers.len(),
            cands_view(out@) == offer_all(start, max as int, offers_view(offers@).take(i as int)),
        decreases offers.len() - i,
    {
        let o = &offers[i];
        proof {
            assert(offers_view(offers@).take(i + 1).drop_last() =~= offers_view(offers@).take(
                i as int,
            ));
            assert(offers_view(offers@).take(i + 1).last() == (cand_view(o.0), o.1));
        }
        let full = out.len() >= max;
        if !full && o.1 && !has_passage_exec(out, &o.0.passage) {
            let c = Cand { line: o.0.line, passage: o.0.passage.clone(), kind: o.0.kind.clone() };
            let ghost before = out@;
            out.push(c);
            assert(cands_view(out@) =~= cands_view(before).push(cand_view(o.0)));
        }
        i = i + 1;
    }
    assert(offers_view(offers@).take(offers.len() as int) =~= offers_view(offers@));
}

fn clean_exec(s: &Vec<char>) -> (r: Vec<char>)
    ensures
        r@ == clean(s@),
{
    replace_char_exec(&trim_exec(s), '\n', ' ')
}

fn abstract_offers_exec(tex: &Vec<char>) -> (r: Vec<(Cand, bool)>)
    ensures
        offers_view(r@) == abstract_offers(tex@),
{
    let open = chars_of("\\begin{abstract}");
    let close = chars_of("\\end{abstract}");
    proof {
        reveal_strlit("\\begin{abstract}");
    }
    let bodies = env_bodies_exec(tex, &open, &close);
    let mut r: Vec<(Cand, bool)> = Vec::new();
    if bodies.len() == 0 {
        assert(offers_view(r@) =~= abstract_offers(tex@));
        return r;
    }
    let parts = split_char_exec(&bodies[0], '.');
    let ghost ps = crate::text::views(parts@);
    let mut i: usize = 0;
    while i < parts.len()
        invariant
            0 <= i <= parts.len(),
            ps == crate::text::views(parts@),
            ps == crate::text::split_char(bodies@[0]@, '.'),
            offers_view(r@) == ps.take(i as int).map_values(
                |x: Seq<char>|
                    ((1int, clean(x), "Abstract / Core Thesis"@), crate::text::utf8_len(clean(x))
                        > 35),
            ),
        decreases parts.len() - i,
    {
        let c = clean_exec(&parts[i]);
        let ok = utf8_len_gt(&c, 35);
        let ghost before = r@;
        r.push((Cand { line: 1, passage: c, kind: chars_of("Abstract / Core Thesis") }, ok));
        proof {
            assert(ps.take(i + 1) =~= ps.take(i as int).push(parts@[i as int]@));
            assert(offers_view(r@) =~= offers_view(before).push(
                ((1int, clean(parts@[i as int]@), "Abstract / Core Thesis"@), ok),
            ));
        }
        i = i + 1;
    }
    assert(ps.take(parts.len() as int) =~= ps);
    r
}

fn env_offers_exec(tex: &Vec<char>, open: &str, close: &str, kind: &str) -> (r: Vec<(Cand, bool)>)
    requires
        open@.len() > 0,
    ensures
        offers_view(r@) == env_offers(tex@, open@, close@, kind@),
{
    let o = chars_of(open);
    let bodies = env_bodies_exec(tex, &o, &chars_of(close));
    let ghost bs = crate::text::views(bodies@);
    let mut r: Vec<(Cand, bool)> = Vec::new();
    let mut i: usize = 0;
    while i < bodies.len()
        invariant
            0 <= i <= bodies.len(),
            bs == crate::text::views(bodies@),
            bs == crate::latex::env_bodies(tex@, open@, close@),
            offers_view(r@) == bs.take(i as int).map_values(
                |b: Seq<char>| ((1int, clean(b), kind@), crate::text::utf8_len(clean(b)) > 25),
            ),
        decreases bodies.len() - i,
    {
        let c = clean_exec(&bodies[i]);
        let ok = utf8_len_gt(&c, 25);
        let ghost before = r@;
        r.push((Cand { line: 1, passage: c, kind: chars_of(kind) }, ok));
        proof {
            assert(bs.take(i + 1) =~= bs.take(i as int).push(bodies@[i as int]@));
            assert(offers_view(r@) =~= offers_view(before).push(
                ((1int, clean(bodies@[i as int]@), kind@), ok),
            ));
        }
        i = i + 1;
    }
    assert(bs.take(bodies.len() as int) =~= bs);
    r
}

fn line_offer_exec(n: usize, l: &Vec<char>, strong: bool) -> (r: (Cand, bool))
    ensures
        (cand_view(r.0), r.1) == line_offer(n as int, l@, strong),
{
    let t = trim_exec(l);
    proof {
        reveal_strlit("\\noindent");
    }
    let parts = split_str_exec(&t, &chars_of("\\noindent"));
    let c = trim_exec(&join_exec(&parts, &Vec::new()));
    assert(Seq::<char>::empty() == ""@) by {
        reveal_strlit("");
    }
    let lower = ascii_lower_exec(&c);
    let kind = if contains_str(&lower, "propose") || contains_str(&lower, "introduce") {
        chars_of("Key Contribution")
    } else {
        chars_of("Quantitative / Empirical")
    };
    let skipped = starts_with_str(&t, "%") || (starts_with_str(&t, "\\item") && !utf8_len_gt(
        &t,
        24,
    ));
    let ok = !skipped && strong && utf8_len_gt(&c, 30);
    (Cand { line: n, passage: c, kind }, ok)
}

fn line_offers_exec(tex: &Vec<char>, strong: &Vec<bool>) -> (r: Vec<(Cand, bool)>)
    ensures
        offers_view(r@) == line_offers(crate::text::lines(tex@), strong@),
{
    let lines = split_lines(tex);
    let ghost ls = crate::text::lines(tex@);
    let mut r: Vec<(Cand, bool)> = Vec::new();
    let mut i: usize = 0;
    while i < lines.len()
        invariant
            0 <= i <= lines.len(),
            crate::text::views(lines@) == ls,
            ls == crate::text::lines(tex@),
            offers_view(r@) == line_offers(ls, strong@).take(i as int),
        decreases lines.len() - i,
    {
        let s = i < strong.len() && strong[i];
        let o = line_offer_exec(i + 1, &lines[i], s);
        let ghost before = r@;
        r.push(o);
        proof {
            assert(line_offers(ls, strong@).take(i + 1) =~= line_offers(ls, strong@).take(
                i as int,
            ).push(line_offer(i + 1, ls[i as int], flag(strong@, i as int))));
            assert(offers_view(r@) =~= offers_view(before).push((cand_view(o.0), o.1)));
        }
        i = i + 1;
    }
    assert(line_offers(ls, strong@).take(lines.len() as int) =~= line_offers(ls, strong@));
    r
}

fn strong_flags_exec(tex: &Vec<char>) -> (r: Vec<bool>)
    ensures
        r@ == strong_flags(tex@),
{
    let lines = split_lines(tex);
    let ghost ls = crate::text::lines(tex@);
    let pattern = "(?i)\\b(outperforms?|state-of-the-art|sota|superior|accelerates?|orders of magnitude|we propose|we achieve|reduces latency by|\\d+(\\.\\d+)?%|$\\times$)\\b";
    let mut r: Vec<bool> = Vec::new();
    let mut i: usize = 0;
    while i < lines.len()
        invariant
            0 <= i <= lines.len(),
            crate::text::views(lines@) == ls,
            ls == crate::text::lines(tex@),
            pattern@ == strong_pattern(),
            r@ == strong_flags(tex@).take(i as int),
        decreases lines.len() - i,
    {
        let t = string_of(&trim_exec(&lines[i]));
        let m = crate::search::regex_is_match(pattern, t.as_str());
        let ghost before = r@;
        r.push(m == Some(true));
        proof {
            assert(strong_flags(tex@).take(i + 1) =~= strong_flags(tex@).take(i as int).push(
                crate::search::regex_search(strong_pattern(), crate::text::trim(ls[i as int]))
                    == Some(true),
            ));
        }
        i = i + 1;
    }
    assert(strong_flags(tex@).take(lines.len() as int) =~= strong_flags(tex@));
    r
}

fn select_claims(tex: &Vec<char>, max_claims: usize, strong: &Vec<bool>) -> (r: Vec<
    CandidateClaim,
>)
    ensures
        claims_view(r@) == candidates(tex@, max_claims as int, strong@),
{
    proof {
        reveal_strlit("\\begin{theorem}");
        reveal_strlit("\\begin{lemma}");
        reveal_strlit("\\begin{definition}");
        reveal_strlit("\\begin{proposition}");
    }
    let g0 = abstract_offers_exec(tex);
    let g1 = env_offers_exec(tex, "\\begin{theorem}", "\\end{theorem}", "Formal theorem");
    let g2 = env_offers_exec(tex, "\\begin{lemma}", "\\end{lemma}", "Formal lemma");
    let g3 = env_offers_exec(tex, "\\begin{definition}", "\\end{definition}", "Formal definition");
    let g4 = env_offers_exec(
        tex,
        "\\begin{proposition}",
        "\\end{proposition}",
        "Formal proposition",
    );
    let g5 = line_offers_exec(tex, strong);
    let mut out: Vec<Cand> = Vec::new();
    offer_exec(&mut out, max_claims, &g0);
    offer_exec(&mut out, max_claims, &g1);
    offer_exec(&mut out, max_claims, &g2);
    offer_exec(&mut out, max_claims, &g3);
    offer_exec(&mut out, max_claims, &g4);
    offer_exec(&mut out, max_claims, &g5);
    proof {
        let m = max_claims as int;
        let e: Seq<ClaimView> = seq![];
        let a0 = offers_view(g0@);
        let a1 = offers_view(g1@);
        let a2 = offers_view(g2@);
        let a3 = offers_view(g3@);
        let a4 = offers_view(g4@);
        let a5 = offers_view(g5@);
        assert(cands_view(Seq::<Cand>::empty()) =~= e);
        lemma_offer_all_concat(e, m, a0, a1);
        lemma_offer_all_concat(e, m, a0 + a1, a2);
        lemma_offer_all_concat(e, m, a0 + a1 + a2, a3);
        lemma_offer_all_concat(e, m, a0 + a1 + a2 + a3, a4);
        lemma_offer_all_concat(e, m, a0 + a1 + a2 + a3 + a4, a5);
        assert(a0 + a1 + a2 + a3 + a4 + a5 =~= all_offers(tex@, strong@));
    }
    let mut r: Vec<CandidateClaim> = Vec::new();
    let mut i: usize = 0;
    while i < out.len()
        invariant
            0 <= i <= out.len(),
            claims_view(r@) == cands_view(out@).take(i as int),
        decreases out.len() - i,
    {
        let c = &out[i];
        let ghost before = r@;
        r.push(CandidateClaim { line: c.line, passage: string_of(&c.passage), claim_type: string_of(&c.kind) });
        assert(claims_view(r@) =~= claims_view(before).push(cand_view(*c)));
        assert(cands_view(out@).take(i + 1) =~= cands_view(out@).take(i as int).push(cand_view(*c)));
        i = i + 1;
    }
    assert(cands_view(out@).take(out.len() as int) =~= cands_view(out@));
    r
}

impl DocumentVerifier {
    /// The passages worth checking, at most `max_claims` of them: the sentences of the abstract longer
    /// than 35 bytes, then theorem, lemma, definition and proposition
    /// bodies longer than 25 bytes, then strong or quantitative lines (as
    /// the strong-claim pattern finds them) longer than 30 bytes once
    /// `\noindent` is removed. A passage already picked is not picked
    /// again.
    pub fn extract_candidate_claims(tex_content: &str, max_claims: usize) -> (r: Vec<
        CandidateClaim,
    >)
        ensures
            claims_view(r@) == candidates(tex_content@, max_claims as int, strong_flags(tex_content@)),
            r@.len() <= max_claims,
    {
        proof {
            lemma_candidates_bounded(tex_content@, max_claims as int, strong_flags(tex_content@));
        }
        let tex = chars_of(tex_content);
        let strong = strong_flags_exec(&tex);
        select_claims(&tex, max_claims, &strong)
    }

    /// The same selection, with the strong lines given: `strong[i]` says
    /// whether line `i + 1` (trimmed) matches the strong-claim pattern;
    /// lines past the end of `strong` are not strong.
    pub fn candidates_with_strong_lines(
        tex_content: &str,
        max_claims: usize,
        strong: &Vec<bool>,
    ) -> (r: Vec<CandidateClaim>)
        ensures
            claims_view(r@) == candidates(tex_content@, max_claims as int, strong@),
            r@.len() <= max_claims,
    {
        proof {
            lemma_candidates_bounded(tex_content@, max_claims as int, strong@);
        }
        select_claims(&chars_of(tex_content), max_claims, strong)
    }
}

// ---------------------------------------------------------------------------
// Laws
// ---------------------------------------------------------------------------

/// No two selected passages have the same text.
pub open spec fn distinct_passages(r: Seq<ClaimView>) -> bool {
    forall|i: int, j: int| 0 <= i < j < r.len() ==> (#[trigger] r[i]).1 != (#[trigger] r[j]).1
}

proof fn lemma_offer_all_bounded(r: Seq<ClaimView>, max: int, os: Seq<Offer>)
    requires
        r.len() <= max,
        distinct_passages(r),
    ensures
        offer_all(r, max, os).len() <= max,
        distinct_passages(offer_all(r, max, os)),
    decreases os.len(),
{
    if os.len() > 0 {
        lemma_offer_all_bounded(r, max, os.drop_last());
        let q = offer_all(r, max, os.drop_last());
        let o = os.last();
        if !(stopped(q, max) || !o.1 || has_passage(q, o.0.1)) {
            let q2 = q.push(o.0);
            assert forall|i: int, j: int| 0 <= i < j < q2.len() implies (#[trigger] q2[i]).1 != (
            #[trigger] q2[j]).1 by {
                if j == q.len() {
                    assert(q2[i] == q[i]);
                    assert(!(q[i].1 == o.0.1));
                } else {
                    assert(q[i].1 != q[j].1);
                }
            }
        }
    }
}

/// The candidates of a text are at most `max_claims`, and no passage is
/// picked twice.
pub proof fn lemma_candidates_bounded(tex: Seq<char>, max: int, strong: Seq<bool>)
    requires
        0 <= max,
    ensures
        candidates(tex, max, strong).len() <= max,
        distinct_passages(candidates(tex, max, strong)),
{
    lemma_offer_all_bounded(seq![], max, all_offers(tex, strong));
}

/// An unreferenced superlative without a citation is graded fragile.
pub proof fn lemma_superlative_fragile(passage: Seq<char>, kind: Seq<char>)
    requires
        superlative(crate::text::ascii_lower(passage)),
        !crate::text::contains(passage, "\\cite"@),
        !crate::text::contains(passage, "\\ref"@),
        !crate::text::contains(passage, "\\eqref"@),
    ensures
        grade_of(grading(passage, kind).0) == ConfidenceGrade::Fragile,
{
}

/// A passage that, lower-cased, holds any of `state-of-the-art`, `sota`,
/// `unprecedented`, `revolutionary`, `drastically` or `superior`, and
/// holds no `\cite`, `\ref` or `\eqref`, is scored 35 and graded fragile,
/// whatever its claim type.
pub proof fn lemma_boastful_passage_fragile(passage: Seq<char>, claim_type: Seq<char>, word: Seq<char>)
    requires
        word == "state-of-the-art"@ || word == "sota"@ || word == "unprecedented"@ || word
            == "revolutionary"@ || word == "drastically"@ || word == "superior"@,
        crate::text::contains(crate::text::ascii_lower(passage), word),
        !crate::text::contains(passage, "\\cite"@),
        !crate::text::contains(passage, "\\ref"@),
        !crate::text::contains(passage, "\\eqref"@),
    ensures
        grading(passage, claim_type).0 == 35,
        grade_of(grading(passage, claim_type).0) == ConfidenceGrade::Fragile,
{
}

/// A higher score never gets a worse grade.
pub proof fn lemma_grade_monotone(a: int, b: int)
    requires
        a <= b,
    ensures
        grade_rank(grade_of(a)) <= grade_rank(grade_of(b)),
{
}

/// Grades from worst (0) to best (3).
pub open spec fn grade_rank(g: ConfidenceGrade) -> int {
    match g {
        ConfidenceGrade::Fragile => 0,
        ConfidenceGrade::Low => 1,
        ConfidenceGrade::Moderate => 2,
        ConfidenceGrade::High => 3,
    }
}

} // verus!
