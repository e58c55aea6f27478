//! What a reviewing model is shown of a paper: a condensed context
//! (section titles, the head of each table, equations), the prompt for one
//! claim, and the diagnostic that a weakly graded claim gives.
use vstd::prelude::*;
use crate::agent::{text_message, MessageView};
use crate::claims::{CandidateClaim, ConfidenceGrade};
use crate::document::{diag, make_diag, DiagView, Diagnostic, DiagnosticSeverity, DocumentVerifier};
use crate::latex::{cmd_args_exec, env_bodies_exec, Cmd};
use crate::llm::Message;
use crate::text::{chars_of, find_char_exec, find_str_from, has_str_at, join_exec, push_all,
    push_str, replace_char_exec, slice_chars, split_lines, string_of, trim_exec};

verus! {

// ---------------------------------------------------------------------------
// Table environments
// ---------------------------------------------------------------------------

/// A table environment at `i` (`\\begin\{table.*?\}(.*?)\\end\{table.*?\}`
/// with `.` matching line breaks): `\begin{table` up to the next `}`, then
/// the body up to the first `\end{table` that a `}` follows. Gives the
/// body's bounds and the end of the match.
pub open spec fn table_at(s: Seq<char>, i: int) -> Option<(int, int, int)> {
    if crate::text::has_at(s, i, "\\begin{table"@) {
        match crate::text::find_char_from(s, '}', i + 12) {
            Some(k) => match crate::text::find_from(s, "\\end{table"@, k + 1) {
                Some(j) => match crate::text::find_char_from(s, '}', j + 10) {
                    Some(q) => Some((k + 1, j, q + 1)),
                    None => None,
                },
                None => None,
            },
            None => None,
        }
    } else {
        None
    }
}

/// A table found from `i` on lies after `i` and within the text.
pub proof fn lemma_table_bounds(s: Seq<char>, i: int)
    requires
        0 <= i,
    ensures
        match table_at(s, i) {
            Some((a, b, e)) => i < a <= b < e <= s.len(),
            None => true,
        },
{
    reveal_strlit("\\begin{table");
    reveal_strlit("\\end{table");
    if crate::text::has_at(s, i, "\\begin{table"@) {
        crate::text::lemma_find_char_from_props(s, '}', i + 12);
        match crate::text::find_char_from(s, '}', i + 12) {
            Some(k) => {
                crate::text::lemma_find_from_props(s, "\\end{table"@, k + 1);
                match crate::text::find_from(s, "\\end{table"@, k + 1) {
                    Some(j) => {
                        crate::text::lemma_find_char_from_props(s, '}', j + 10);
                    },
                    None => {},
                }
            },
            None => {},
        }
    }
}

/// The bodies of the table environments from `i` on, left to right.
pub open spec fn table_bodies_from(s: Seq<char>, i: int) -> Seq<Seq<char>>
    decreases s.len() - i,
{
    if i < 0 || i >= s.len() {
        seq![]
    } else {
        proof {
            lemma_table_bounds(s, i);
        }
        match table_at(s, i) {
            Some((a, b, e)) => seq![s.subrange(a, b)] + table_bodies_from(s, e),
            None => table_bodies_from(s, i + 1),
        }
    }
}

fn table_at_exec(s: &Vec<char>, i: usize) -> (r: Option<(usize, usize, usize)>)
    ensures
        match r {
            Some((a, b, e)) => table_at(s@, i as int) == Some((a as int, b as int, e as int)),
            None => table_at(s@, i as int) is None,
        },
{
    proof {
        reveal_strlit("\\begin{table");
        reveal_strlit("\\end{table");
        lemma_table_bounds(s@, i as int);
    }
    if !has_str_at(s, i, "\\begin{table") {
        return None;
    }
    assert(i + 12 <= s.len());
    proof {
        crate::text::lemma_find_char_from_props(s@, '}', i + 12);
    }
    match find_char_exec(s, '}', i + 12) {
        Some(k) => {
            proof {
                crate::text::lemma_find_from_props(s@, "\\end{table"@, k + 1);
            }
            match find_str_from(s, "\\end{table", k + 1) {
                Some(j) => {
                    assert(crate::text::has_at(s@, j as int, "\\end{table"@));
                    assert(j + 10 <= s.len());
                    proof {
                        crate::text::lemma_find_char_from_props(s@, '}', j + 10);
                    }
                    match find_char_exec(s, '}', j + 10) {
                        Some(q) => Some((k + 1, j, q + 1)),
                        None => None,
                    }
                },
                None => None,
            }
        },
        None => None,
    }
}

fn table_bodies_exec(s: &Vec<char>) -> (r: Vec<Vec<char>>)
    ensures
        crate::text::views(r@) == table_bodies_from(s@, 0),
{
    let mut r: Vec<Vec<char>> = Vec::new();
    let mut i: usize = 0;
    while i < s.len()
        invariant
            0 <= i <= s.len(),
            crate::text::views(r@) + table_bodies_from(s@, i as int) == table_bodies_from(s@, 0),
        decreases s.len() - i,
    {
        proof {
            lemma_table_bounds(s@, i as int);
        }
        match table_at_exec(s, i) {
            Some((a, b, e)) => {
                let body = slice_chars(s, a, b);
                let ghost old_r = r@;
                r.push(body);
                proof {
                    crate::text::lemma_views_push(old_r, body);
                    assert(crate::text::views(r@) + table_bodies_from(s@, e as int)
                        =~= crate::text::views(old_r) + table_bodies_from(s@, i as int));
                }
                i = e;
            },
            None => {
                i = i + 1;
            },
        }
    }
    assert(table_bodies_from(s@, i as int) =~= seq![]);
    assert(crate::text::views(r@) + seq![] =~= crate::text::views(r@));
    r
}

// ---------------------------------------------------------------------------
// The condensed context
// ---------------------------------------------------------------------------

/// The first six lines (all of them when there are fewer).
pub open spec fn head6(ls: Seq<Seq<char>>) -> Seq<Seq<char>> {
    if ls.len() <= 6 {
        ls
    } else {
        ls.take(6)
    }
}

/// The entry of one table: its number, then the first six lines of its
/// trimmed body.
pub open spec fn table_entry(n: int, body: Seq<char>) -> Seq<char> {
    "Table "@ + crate::fmt::decimal(n as nat) + ":\n"@ + crate::text::join(
        head6(crate::text::lines(crate::text::trim(body))),
        "\n"@,
    ) + "\n---\n"@
}

/// The section list: `- title` lines.
pub open spec fn section_items(xs: Seq<Seq<char>>) -> Seq<char>
    decreases xs.len(),
{
    if xs.len() == 0 {
        seq![]
    } else {
        section_items(xs.drop_last()) + "- "@ + crate::text::trim(xs.last()) + "\n"@
    }
}

/// The table list, numbered from one.
pub open spec fn table_items(ts: Seq<Seq<char>>) -> Seq<char>
    decreases ts.len(),
{
    if ts.len() == 0 {
        seq![]
    } else {
        table_items(ts.drop_last()) + table_entry(ts.len() as int, ts.last())
    }
}

/// The equation list: each equation trimmed, on one line.
pub open spec fn equation_items(xs: Seq<Seq<char>>) -> Seq<char>
    decreases xs.len(),
{
    if xs.len() == 0 {
        seq![]
    } else {
        equation_items(xs.drop_last()) + "- "@ + crate::text::replace_char(
            crate::text::trim(xs.last()),
            '\n',
            ' ',
        ) + "\n"@
    }
}

/// The context of a paper: its section titles, the head of each table
/// environment, and each equation on one line.
pub open spec fn document_context(tex: Seq<char>) -> Seq<char> {
    "SECTIONS:\n"@ + section_items(crate::latex::cmd_args(tex, Cmd::Section)) + "\nTABLES:\n"@
        + table_items(table_bodies_from(tex, 0)) + "\nEQUATIONS:\n"@ + equation_items(
        crate::latex::env_bodies(tex, "\\begin{equation}"@, "\\end{equation}"@),
    )
}

impl DocumentVerifier {
    /// The condensed context of a paper for a reviewing model: a
    /// `SECTIONS:` list of `\section` titles, a `TABLES:` list with the
    /// first six lines of each table environment, and an `EQUATIONS:` list
    /// with each equation on one line.
    pub fn extract_document_context(tex_content: &str) -> (r: String)
        ensures
            r@ == document_context(tex_content@),
    {
        let tex = chars_of(tex_content);
        let mut out = chars_of("SECTIONS:\n");
        let sections = cmd_args_exec(&tex, Cmd::Section);
        let ghost secs = crate::text::views(sections@);
        let ghost start = out@;
        let mut i: usize = 0;
        while i < sections.len()
            invariant
                0 <= i <= sections.len(),
                secs == crate::text::views(sections@),
                out@ == start + section_items(secs.take(i as int)),
            decreases sections.len() - i,
        {
            let ghost before = out@;
            push_str(&mut out, "- ");
            push_all(&mut out, &trim_exec(&sections[i]));
            push_str(&mut out, "\n");
            proof {
                assert(secs.take(i + 1).drop_last() =~= secs.take(i as int));
                assert(out@ =~= before + "- "@ + crate::text::trim(secs[i as int]) + "\n"@);
            }
            i = i + 1;
        }
        assert(secs.take(sections.len() as int) =~= secs);
        push_str(&mut out, "\nTABLES:\n");
        let tables = table_bodies_exec(&tex);
        let ghost tbs = crate::text::views(tables@);
        let ghost start2 = out@;
        let mut t: usize = 0;
        while t < tables.len()
            invariant
                0 <= t <= tables.len(),
                tbs == crate::text::views(tables@),
                out@ == start2 + table_items(tbs.take(t as int)),
            decreases tables.len() - t,
        {
            let ghost before = out@;
            push_str(&mut out, "Table ");
            crate::fmt::push_decimal(&mut out, (t + 1) as u64);
            push_str(&mut out, ":\n");
            let ls = split_lines(&trim_exec(&tables[t]));
            let mut head: Vec<Vec<char>> = Vec::new();
            let mut k: usize = 0;
            while k < ls.len() && k < 6
                invariant
                    0 <= k <= ls.len(),
                    k <= 6,
                    crate::text::views(head@) == crate::text::views(ls@).take(k as int),
                decreases ls.len() - k,
            {
                let ghost hb = head@;
                head.push(ls[k].clone());
                proof {
                    crate::text::lemma_views_push(hb, ls[k as int]);
                    assert(crate::text::views(ls@).take(k + 1) =~= crate::text::views(ls@).take(
                        k as int,
                    ).push(ls@[k as int]@));
                }
                k = k + 1;
            }
            proof {
                if k < 6 {
                    assert(crate::text::views(ls@).take(k as int) =~= crate::text::views(ls@));
                }
                assert(crate::text::views(head@) == head6(crate::text::views(ls@)));
            }
            push_all(&mut out, &join_exec(&head, &chars_of("\n")));
            push_str(&mut out, "\n---\n");
            proof {
                assert(tbs.take(t + 1).drop_last() =~= tbs.take(t as int));
                assert(out@ =~= before + table_entry(t + 1, tbs[t as int]));
            }
            t = t + 1;
        }
        assert(tbs.take(tables.len() as int) =~= tbs);
        push_str(&mut out, "\nEQUATIONS:\n");
        proof {
            reveal_strlit("\\begin{equation}");
        }
        let eqs = env_bodies_exec(&tex, &chars_of("\\begin{equation}"), &chars_of("\\end{equation}"));
        let ghost es = crate::text::views(eqs@);
        let ghost start3 = out@;
        let mut q: usize = 0;
        while q < eqs.len()
            invariant
                0 <= q <= eqs.len(),
                es == crate::text::views(eqs@),
                out@ == start3 + equation_items(es.take(q as int)),
            decreases eqs.len() - q,
        {
            let ghost before = out@;
            push_str(&mut out, "- ");
            push_all(&mut out, &replace_char_exec(&trim_exec(&eqs[q]), '\n', ' '));
            push_str(&mut out, "\n");
            proof {
                assert(es.take(q + 1).drop_last() =~= es.take(q as int));
                assert(out@ =~= before + "- "@ + crate::text::replace_char(
                    crate::text::trim(es[q as int]),
                    '\n',
                    ' ',
                ) + "\n"@);
            }
            q = q + 1;
        }
        assert(es.take(eqs.len() as int) =~= es);
        string_of(&out)
    }
}

// ---------------------------------------------------------------------------
// Asking a model about one claim
// ---------------------------------------------------------------------------

/// The instructions for a reviewing model.
pub open spec fn claim_system_prompt() -> Seq<char> {
    "You are a world-class scientific referee and formal paper verification auditor.\nEvaluate the candidate claim extracted from a research paper against the provided document context (sections, tables, equations).\nAssess if the claim is mathematically/empirically supported or an ungrounded hallucination/superlative.\nYou MUST return ONLY a JSON object with this schema:\n{\n  \"confidence_score\": <float from 0.0 to 1.0>,\n  \"rationale\": \"<concise 1-2 sentence explanation>\",\n  \"evidence_found\": \"<specific table/eq or null>\",\n  \"suggestion\": \"<constructive recommendation or null>\"\n}"@
}

/// The question about one claim, with the document's context.
pub open spec fn claim_user_prompt(line: int, passage: Seq<char>, kind: Seq<char>, ctx: Seq<char>) -> Seq<
    char,
> {
    "DOCUMENT CONTEXT:\n"@ + ctx + "\n\nCANDIDATE CLAIM (Line "@ + crate::fmt::decimal(line as nat)
        + "):\n\""@ + passage + "\"\nCLAIM TYPE: "@ + kind + "\n\nEvaluate claim confidence:"@
}

/// The first `c` at or before `i`, searching backwards.
pub open spec fn rfind_char_to(s: Seq<char>, c: char, i: int) -> Option<int>
    decreases i + 1,
{
    if i < 0 || i >= s.len() {
        None
    } else if s[i] == c {
        Some(i)
    } else {
        rfind_char_to(s, c, i - 1)
    }
}

/// `str::rfind` for a character.
pub open spec fn rfind_char(s: Seq<char>, c: char) -> Option<int> {
    rfind_char_to(s, c, s.len() - 1)
}

/// Whether cutting out the JSON object of a reply is defined: a `{` that
/// comes more than one character after the last `}` cannot be cut.
pub open spec fn json_span_ok(resp: Seq<char>) -> bool {
    match (crate::text::find_char_from(resp, '{', 0), rfind_char(resp, '}')) {
        (Some(a), Some(b)) => a <= b + 1,
        _ => true,
    }
}

/// The reply from its first `{` to its last `}`, or the whole reply when
/// it lacks either.
pub open spec fn json_span(resp: Seq<char>) -> Seq<char> {
    match (crate::text::find_char_from(resp, '{', 0), rfind_char(resp, '}')) {
        (Some(a), Some(b)) => resp.subrange(a, b + 1),
        _ => resp,
    }
}

/// The diagnostic that a claim's grade gives: a warning for a fragile
/// claim, a note for a weak one, none otherwise. `percent` is the score
/// as the report prints it.
pub open spec fn claim_diag(
    line: int,
    grade: ConfidenceGrade,
    percent: Seq<char>,
    rationale: Seq<char>,
    passage: Seq<char>,
    suggestion: Option<Seq<char>>,
) -> Option<DiagView> {
    match grade {
        ConfidenceGrade::Fragile => Some(
            diag(
                "VoxelClaim"@,
                DiagnosticSeverity::Warning,
                line,
                "Fragile scientific claim (confidence: "@ + percent + "%): "@ + rationale,
                Some(passage),
                suggestion,
            ),
        ),
        ConfidenceGrade::Low => Some(
            diag(
                "VoxelClaim"@,
                DiagnosticSeverity::Info,
                line,
                "Low confidence claim (confidence: "@ + percent + "%): "@ + rationale,
                Some(passage),
                suggestion,
            ),
        ),
        _ => None,
    }
}

fn rfind_char_exec(s: &Vec<char>, c: char) -> (r: Option<usize>)
    ensures
        match r {
            Some(j) => rfind_char(s@, c) == Some(j as int) && j < s.len(),
            None => rfind_char(s@, c) is None,
        },
{
    let mut k: usize = s.len();
    while k > 0
        invariant
            k <= s.len(),
            rfind_char_to(s@, c, k - 1) == rfind_char(s@, c),
        decreases k,
    {
        if s[k - 1] == c {
            return Some(k - 1);
        }
        k = k - 1;
    }
    None
}

impl DocumentVerifier {
    /// The two messages that ask a model to grade a claim: the grading
    /// instructions, then the context and the claim.
    pub fn claim_messages(candidate: &CandidateClaim, doc_context: &str) -> (r: Vec<Message>)
        ensures
            crate::agent::msgs_view(r@) == seq![
                text_message("system"@, claim_system_prompt()),
                text_message(
                    "user"@,
                    claim_user_prompt(
                        candidate.line as int,
                        candidate.passage@,
                        candidate.claim_type@,
                        doc_context@,
                    ),
                ),
            ],
    {
        let mut user = chars_of("DOCUMENT CONTEXT:\n");
        push_str(&mut user, doc_context);
        push_str(&mut user, "\n\nCANDIDATE CLAIM (Line ");
        crate::fmt::push_decimal(&mut user, candidate.line as u64);
        push_str(&mut user, "):\n\"");
        push_str(&mut user, candidate.passage.as_str());
        push_str(&mut user, "\"\nCLAIM TYPE: ");
        push_str(&mut user, candidate.claim_type.as_str());
        push_str(&mut user, "\n\nEvaluate claim confidence:");
        let system = crate::agent::make_text_message(
            "system",
            String::from_str(
                "You are a world-class scientific referee and formal paper verification auditor.\nEvaluate the candidate claim extracted from a research paper against the provided document context (sections, tables, equations).\nAssess if the claim is mathematically/empirically supported or an ungrounded hallucination/superlative.\nYou MUST return ONLY a JSON object with this schema:\n{\n  \"confidence_score\": <float from 0.0 to 1.0>,\n  \"rationale\": \"<concise 1-2 sentence explanation>\",\n  \"evidence_found\": \"<specific table/eq or null>\",\n  \"suggestion\": \"<constructive recommendation or null>\"\n}",
            ),
        );
        let question = crate::agent::make_text_message("user", string_of(&user));
        let r = vec![system, question];
        assert(crate::agent::msgs_view(r@) =~= seq![system@, question@]);
        r
    }

    /// Whether [`DocumentVerifier::claim_json`] can cut the JSON object out
    /// of `resp`.
    pub fn claim_json_ok(resp: &str) -> (r: bool)
        ensures
            r == json_span_ok(resp@),
    {
        let s = chars_of(resp);
        match (find_char_exec(&s, '{', 0), rfind_char_exec(&s, '}')) {
            (Some(a), Some(b)) => a <= b + 1,
            _ => true,
        }
    }

    /// The JSON object of a model's reply: from its first `{` to its last
    /// `}`, or the whole reply when it lacks either.
    pub fn claim_json(resp: &str) -> (r: String)
        requires
            json_span_ok(resp@),
        ensures
            r@ == json_span(resp@),
    {
        let s = chars_of(resp);
        match (find_char_exec(&s, '{', 0), rfind_char_exec(&s, '}')) {
            (Some(a), Some(b)) => {
                proof {
                    crate::text::lemma_find_char_from_props(s@, '{', 0);
                }
                string_of(&slice_chars(&s, a, b + 1))
            },
            _ => String::from_str(resp),
        }
    }

    /// The diagnostic for a graded claim on line `line`: a warning when the
    /// grade is fragile, a note when it is low, none otherwise. `percent`
    /// is the confidence as the report prints it.
    pub fn claim_diagnostic(
        line: usize,
        grade: ConfidenceGrade,
        percent: &str,
        rationale: &str,
        passage: &str,
        suggestion: Option<String>,
    ) -> (r: Option<Diagnostic>)
        ensures
            match r {
                Some(d) => claim_diag(
                    line as int,
                    grade,
                    percent@,
                    rationale@,
                    passage@,
                    crate::agent::opt_view(suggestion),
                ) == Some(d@),
                None => claim_diag(
                    line as int,
                    grade,
                    percent@,
                    rationale@,
                    passage@,
                    crate::agent::opt_view(suggestion),
                ) is None,
            },
    {
        let head = match grade {
            ConfidenceGrade::Fragile => "Fragile scientific claim (confidence: ",
            ConfidenceGrade::Low => "Low confidence claim (confidence: ",
            _ => {
                return None;
            },
        };
        let severity = match grade {
            ConfidenceGrade::Fragile => DiagnosticSeverity::Warning,
            _ => DiagnosticSeverity::Info,
        };
        let mut msg = chars_of(head);
        push_str(&mut msg, percent);
        push_str(&mut msg, "%): ");
        push_str(&mut msg, rationale);
        let p = chars_of(passage);
        let sug: Option<Vec<char>> = match &suggestion {
            Some(t) => Some(chars_of(t.as_str())),
            None => None,
        };
        let d = match &sug {
            Some(v) => make_diag("VoxelClaim", severity, line, &msg, Some(&p), Some(v)),
            None => make_diag("VoxelClaim", severity, line, &msg, Some(&p), None),
        };
        Some(d)
    }
}

} // verus!
