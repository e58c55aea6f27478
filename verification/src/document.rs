//! Document checks ("voxels") for LaTeX papers: Markdown left in the text,
//! citations against the bibliography, labels against references, tables
//! whose bold marks the wrong value, and claims worth a second look.
//!
//! The checks take text; reading the files (and following `\input`) happens
//! outside this library.
use vstd::prelude::*;
use crate::latex::{bold_scan, cmd_args_exec, env_bodies_exec, Cmd};
use crate::text::{
    chars_of, contains_char, contains_str, push_all, push_str, slice_chars, split_char_exec,
    split_lines, starts_with_str, string_of, trim_exec,
};

verus! {

#[derive(Clone, Copy, Debug, PartialEq, Eq, Structural)]
pub enum DiagnosticSeverity {
    Error,
    Warning,
    Info,
}

/// One finding of a check.
#[derive(Debug, Clone)]
pub struct Diagnostic {
    pub voxel: String,
    pub severity: DiagnosticSeverity,
    pub line: usize,
    pub message: String,
    pub snippet: Option<String>,
    pub suggestion: Option<String>,
}

/// The plain value of a diagnostic.
pub struct DiagView {
    pub voxel: Seq<char>,
    pub severity: DiagnosticSeverity,
    pub line: int,
    pub message: Seq<char>,
    pub snippet: Option<Seq<char>>,
    pub suggestion: Option<Seq<char>>,
}

impl View for Diagnostic {
    type V = DiagView;

    open spec fn view(&self) -> DiagView {
        DiagView {
            voxel: self.voxel@,
            severity: self.severity,
            line: self.line as int,
            message: self.message@,
            snippet: crate::agent::opt_view(self.snippet),
            suggestion: crate::agent::opt_view(self.suggestion),
        }
    }
}

/// The views of a sequence of diagnostics.
pub open spec fn diags_view(s: Seq<Diagnostic>) -> Seq<DiagView> {
    s.map_values(|d: Diagnostic| d@)
}

/// The views of diagnostics follow a push.
pub proof fn lemma_diags_push(s: Seq<Diagnostic>, d: Diagnostic)
    ensures
        diags_view(s.push(d)) == diags_view(s).push(d@),
{
    assert(diags_view(s.push(d)) =~= diags_view(s).push(d@));
}

/// A diagnostic built from plain values.
pub open spec fn diag(
    voxel: Seq<char>,
    severity: DiagnosticSeverity,
    line: int,
    message: Seq<char>,
    snippet: Option<Seq<char>>,
    suggestion: Option<Seq<char>>,
) -> DiagView {
    DiagView { voxel, severity, line, message, snippet, suggestion }
}

pub(crate) fn make_diag(
    voxel: &str,
    severity: DiagnosticSeverity,
    line: usize,
    message: &Vec<char>,
    snippet: Option<&Vec<char>>,
    suggestion: Option<&Vec<char>>,
) -> (r: Diagnostic)
    ensures
        r@ == diag(
            voxel@,
            severity,
            line as int,
            message@,
            match snippet {
                Some(s) => Some(s@),
                None => None,
            },
            match suggestion {
                Some(s) => Some(s@),
                None => None,
            },
        ),
{
    Diagnostic {
        voxel: String::from_str(voxel),
        severity,
        line,
        message: string_of(message),
        snippet: match snippet {
            Some(s) => Some(string_of(s)),
            None => None,
        },
        suggestion: match suggestion {
            Some(s) => Some(string_of(s)),
            None => None,
        },
    }
}

/// Counts of diagnostics by severity.
#[derive(Debug, Default, Clone, Copy)]
pub struct DiagnosticSummary {
    pub errors: usize,
    pub warnings: usize,
    pub infos: usize,
}

/// The number of diagnostics of severity `s`.
pub open spec fn count_severity(ds: Seq<DiagView>, s: DiagnosticSeverity) -> nat
    decreases ds.len(),
{
    if ds.len() == 0 {
        0
    } else {
        count_severity(ds.drop_last(), s) + if ds.last().severity == s {
            1nat
        } else {
            0nat
        }
    }
}

/// No more diagnostics have a severity than there are diagnostics.
pub proof fn lemma_count_le(ds: Seq<DiagView>, s: DiagnosticSeverity)
    ensures
        count_severity(ds, s) <= ds.len(),
    decreases ds.len(),
{
    if ds.len() > 0 {
        lemma_count_le(ds.drop_last(), s);
    }
}

/// The counts of each severity among `diagnostics`.
pub fn summarize(diagnostics: &Vec<Diagnostic>) -> (r: DiagnosticSummary)
    ensures
        r.errors == count_severity(diags_view(diagnostics@), DiagnosticSeverity::Error),
        r.warnings == count_severity(diags_view(diagnostics@), DiagnosticSeverity::Warning),
        r.infos == count_severity(diags_view(diagnostics@), DiagnosticSeverity::Info),
        r.errors + r.warnings + r.infos == diagnostics.len(),
{
    let mut r = DiagnosticSummary { errors: 0, warnings: 0, infos: 0 };
    let mut i: usize = 0;
    while i < diagnostics.len()
        invariant
            0 <= i <= diagnostics.len(),
            r.errors == count_severity(
                diags_view(diagnostics@).take(i as int),
                DiagnosticSeverity::Error,
            ),
            r.warnings == count_severity(
                diags_view(diagnostics@).take(i as int),
                DiagnosticSeverity::Warning,
            ),
            r.infos == count_severity(
                diags_view(diagnostics@).take(i as int),
                DiagnosticSeverity::Info,
            ),
            r.errors + r.warnings + r.infos == i,
        decreases diagnostics.len() - i,
    {
        proof {
            assert(diags_view(diagnostics@).take(i + 1).drop_last() =~= diags_view(
                diagnostics@,
            ).take(i as int));
            assert(diags_view(diagnostics@).take(i + 1).last() == diagnostics@[i as int]@);
        }
        match diagnostics[i].severity {
            DiagnosticSeverity::Error => {
                r.errors = r.errors + 1;
            },
            DiagnosticSeverity::Warning => {
                r.warnings = r.warnings + 1;
            },
            DiagnosticSeverity::Info => {
                r.infos = r.infos + 1;
            },
        }
        i = i + 1;
    }
    assert(diags_view(diagnostics@).take(diagnostics.len() as int) =~= diags_view(diagnostics@));
    r
}

// ---------------------------------------------------------------------------
// Sequences of keys
// ---------------------------------------------------------------------------

/// `d` with `x` added when it is not there yet.
pub open spec fn add_new(d: Seq<Seq<char>>, x: Seq<char>) -> Seq<Seq<char>> {
    if d.contains(x) {
        d
    } else {
        d.push(x)
    }
}

/// `d` with each of `xs` added in turn when not there yet.
pub open spec fn add_all(d: Seq<Seq<char>>, xs: Seq<Seq<char>>) -> Seq<Seq<char>>
    decreases xs.len(),
{
    if xs.len() == 0 {
        d
    } else {
        add_new(add_all(d, xs.drop_last()), xs.last())
    }
}

/// `xs` without repeats, each kept where it first occurs.
pub open spec fn dedup(xs: Seq<Seq<char>>) -> Seq<Seq<char>> {
    add_all(seq![], xs)
}

/// The concatenation of `ss`.
pub open spec fn flat(ss: Seq<Seq<Seq<char>>>) -> Seq<Seq<char>>
    decreases ss.len(),
{
    if ss.len() == 0 {
        seq![]
    } else {
        flat(ss.drop_last()) + ss.last()
    }
}

/// The trimmed pieces of `ps` that are not empty.
pub open spec fn nonempty_trimmed(ps: Seq<Seq<char>>) -> Seq<Seq<char>>
    decreases ps.len(),
{
    if ps.len() == 0 {
        seq![]
    } else {
        let r = nonempty_trimmed(ps.drop_last());
        let t = crate::text::trim(ps.last());
        if t.len() > 0 {
            r.push(t)
        } else {
            r
        }
    }
}

/// Adding keys to a list without repeats keeps it without repeats, and it then holds exactly the old and the added keys.
pub proof fn lemma_dedup_no_dups(d: Seq<Seq<char>>, xs: Seq<Seq<char>>)
    requires
        d.no_duplicates(),
    ensures
        add_all(d, xs).no_duplicates(),
        forall|x: Seq<char>| #[trigger] add_all(d, xs).contains(x) <==> (d.contains(x) || xs.contains(x)),
    decreases xs.len(),
{
    if xs.len() > 0 {
        lemma_dedup_no_dups(d, xs.drop_last());
        let a = add_all(d, xs.drop_last());
        let x = xs.last();
        assert forall|y: Seq<char>| #[trigger] add_all(d, xs).contains(y) <==> (d.contains(y)
            || xs.contains(y)) by {
            if xs.contains(y) && !xs.drop_last().contains(y) {
                let k = choose|k: int| 0 <= k < xs.len() && xs[k] == y;
                if k < xs.len() - 1 {
                    assert(xs.drop_last()[k] == y);
                }
            }
            if xs.drop_last().contains(y) {
                let k = choose|k: int| 0 <= k < xs.drop_last().len() && xs.drop_last()[k] == y;
                assert(xs[k] == y);
            }
            if !a.contains(x) {
                assert(a.push(x)[a.len() as int] == x);
                if a.push(x).contains(y) {
                    let k = choose|k: int| 0 <= k < a.push(x).len() && a.push(x)[k] == y;
                    if k < a.len() {
                        assert(a[k] == y);
                    }
                }
                if a.contains(y) {
                    let k = choose|k: int| 0 <= k < a.len() && a[k] == y;
                    assert(a.push(x)[k] == y);
                }
            }
            if y == x {
                assert(xs[xs.len() - 1] == y);
            }
        }
    }
}

fn contains_seq(d: &Vec<Vec<char>>, x: &Vec<char>) -> (r: bool)
    ensures
        r == crate::text::views(d@).contains(x@),
{
    let mut i: usize = 0;
    while i < d.len()
        invariant
            0 <= i <= d.len(),
            forall|k: int| 0 <= k < i ==> crate::text::views(d@)[k] != x@,
        decreases d.len() - i,
    {
        if crate::skills::equals_exec(&d[i], x) {
            assert(crate::text::views(d@)[i as int] == x@);
            return true;
        }
        i = i + 1;
    }
    false
}

fn add_new_exec(d: &mut Vec<Vec<char>>, x: Vec<char>)
    ensures
        crate::text::views(final(d)@) == add_new(crate::text::views(old(d)@), x@),
{
    if !contains_seq(d, &x) {
        let ghost o = d@;
        d.push(x);
        proof {
            crate::text::lemma_views_push(o, x);
        }
    }
}

// ---------------------------------------------------------------------------
// Citations and the bibliography
// ---------------------------------------------------------------------------

/// A line whose trimmed text starts with `%`.
pub open spec fn is_comment(l: Seq<char>) -> bool {
    crate::text::starts_with(crate::text::trim(l), "%"@)
}

fn is_comment_exec(l: &Vec<char>) -> (r: bool)
    ensures
        r == is_comment(l@),
{
    starts_with_str(&trim_exec(l), "%")
}

/// The keys that one `\cite{...}` argument names.
pub open spec fn arg_keys(arg: Seq<char>) -> Seq<Seq<char>> {
    nonempty_trimmed(crate::text::split_char(arg, ','))
}

/// The keys that one line cites; none for a comment line.
pub open spec fn line_cite_keys(l: Seq<char>) -> Seq<Seq<char>> {
    if is_comment(l) {
        seq![]
    } else {
        flat(crate::latex::cmd_args(l, Cmd::Cite).map_values(|a: Seq<char>| arg_keys(a)))
    }
}

/// The keys that a document cites, each once, in order of first citation.
pub open spec fn cited_keys(tex: Seq<char>) -> Seq<Seq<char>> {
    dedup(flat(crate::text::lines(tex).map_values(|l: Seq<char>| line_cite_keys(l))))
}

/// Characters of a BibTeX key: `[a-zA-Z0-9_\-:]`, read without regard to
/// case, which also admits the long s and the Kelvin sign.
pub open spec fn is_key_char(c: char) -> bool {
    ||| ('a' <= c && c <= 'z')
    ||| ('A' <= c && c <= 'Z')
    ||| ('0' <= c && c <= '9')
    ||| c == '_'
    ||| c == '-'
    ||| c == ':'
    ||| c == '\u{17F}'
    ||| c == '\u{212A}'
}

/// The end of the run of characters from `i` on that satisfy the class.
pub open spec fn run_end(s: Seq<char>, i: int, word: bool) -> int
    decreases s.len() - i,
{
    if i < 0 || i >= s.len() {
        if i < 0 {
            0
        } else {
            i
        }
    } else if (if word {
        crate::unicode::word_class(s[i])
    } else {
        is_key_char(s[i])
    }) {
        run_end(s, i + 1, word)
    } else {
        i
    }
}

/// The end of the run of whitespace from `i` on.
pub open spec fn ws_end(s: Seq<char>, i: int) -> int
    decreases s.len() - i,
{
    if i < 0 || i >= s.len() {
        if i < 0 {
            0
        } else {
            i
        }
    } else if crate::text::is_ws(s[i]) {
        ws_end(s, i + 1)
    } else {
        i
    }
}

/// A BibTeX entry head at `i` (`@\w+\s*\{\s*key`): the key's bounds.
pub open spec fn bib_key_at(s: Seq<char>, i: int) -> Option<(int, int)> {
    if 0 <= i < s.len() && s[i] == '@' {
        let p = run_end(s, i + 1, true);
        let q = ws_end(s, p);
        if p > i + 1 && q < s.len() && s[q] == '{' {
            let r = ws_end(s, q + 1);
            let e = run_end(s, r, false);
            if e > r {
                Some((r, e))
            } else {
                None
            }
        } else {
            None
        }
    } else {
        None
    }
}

/// A run of key characters from `i` ends within the text.
pub proof fn lemma_run_end(s: Seq<char>, i: int, word: bool)
    requires
        0 <= i <= s.len(),
    ensures
        i <= run_end(s, i, word) <= s.len(),
    decreases s.len() - i,
{
    if i < s.len() {
        lemma_run_end(s, i + 1, word);
    }
}

/// A run of whitespace from `i` ends within the text.
pub proof fn lemma_ws_end(s: Seq<char>, i: int)
    requires
        0 <= i <= s.len(),
    ensures
        i <= ws_end(s, i) <= s.len(),
    decreases s.len() - i,
{
    if i < s.len() {
        lemma_ws_end(s, i + 1);
    }
}

/// A bibliography key found at `i` is non-empty and lies after `i` within the text.
pub proof fn lemma_bib_key_bounds(s: Seq<char>, i: int)
    requires
        0 <= i < s.len(),
    ensures
        match bib_key_at(s, i) {
            Some((a, b)) => i < a < b <= s.len(),
            None => true,
        },
{
    if s[i] == '@' {
        lemma_run_end(s, i + 1, true);
        let p = run_end(s, i + 1, true);
        lemma_ws_end(s, p);
        let q = ws_end(s, p);
        if q < s.len() {
            lemma_ws_end(s, q + 1);
            lemma_run_end(s, ws_end(s, q + 1), false);
        }
    }
}

/// The keys of the entries of a bibliography from `i` on.
pub open spec fn bib_keys_from(s: Seq<char>, i: int) -> Seq<Seq<char>>
    decreases s.len() - i,
{
    if i < 0 || i >= s.len() {
        seq![]
    } else {
        proof {
            lemma_bib_key_bounds(s, i);
        }
        match bib_key_at(s, i) {
            Some((a, b)) => seq![s.subrange(a, b)] + bib_keys_from(s, b),
            None => bib_keys_from(s, i + 1),
        }
    }
}

/// The keys a bibliography defines, each once, in order.
pub open spec fn bib_keys(bib: Seq<char>) -> Seq<Seq<char>> {
    dedup(bib_keys_from(bib, 0))
}

/// The error for a cited key that the bibliography lacks.
pub open spec fn missing_key_diag(k: Seq<char>) -> DiagView {
    diag(
        "VoxelBib"@,
        DiagnosticSeverity::Error,
        0,
        "Citation key '\\cite{"@ + k + "}' is missing from the bibliography (.bib)."@,
        None,
        Some("Add '@article{"@ + k + ", ...}' to your bibliography file."@),
    )
}

/// The note for a bibliography entry that is never cited.
pub open spec fn unused_key_diag(k: Seq<char>) -> DiagView {
    diag(
        "VoxelBib"@,
        DiagnosticSeverity::Info,
        0,
        "Bibliography entry '"@ + k + "' is defined in .bib but never cited in the document."@,
        None,
        Some("Consider citing or pruning this reference."@),
    )
}

/// The diagnostics for the keys of `ks` that `other` lacks.
pub open spec fn absent_diags(ks: Seq<Seq<char>>, other: Seq<Seq<char>>, missing: bool) -> Seq<
    DiagView,
>
    decreases ks.len(),
{
    if ks.len() == 0 {
        seq![]
    } else {
        let r = absent_diags(ks.drop_last(), other, missing);
        if other.contains(ks.last()) {
            r
        } else {
            r.push(
                if missing {
                    missing_key_diag(ks.last())
                } else {
                    unused_key_diag(ks.last())
                },
            )
        }
    }
}

/// The citation check: an error for each cited key that the bibliography
/// lacks, then a note for each entry that is never cited.
pub open spec fn bib_check(tex: Seq<char>, bib: Seq<char>) -> Seq<DiagView> {
    absent_diags(cited_keys(tex), bib_keys(bib), true) + absent_diags(
        bib_keys(bib),
        cited_keys(tex),
        false,
    )
}

fn word_char_run(s: &Vec<char>, i: usize, word: bool) -> (r: usize)
    requires
        i <= s.len(),
    ensures
        r == run_end(s@, i as int, word),
{
    let mut k = i;
    while k < s.len() && run_class(s[k], word)
        invariant
            i <= k <= s.len(),
            run_end(s@, i as int, word) == run_end(s@, k as int, word),
        decreases s.len() - k,
    {
        k = k + 1;
    }
    k
}

fn run_class(c: char, word: bool) -> (r: bool)
    ensures
        r == if word {
            crate::unicode::word_class(c)
        } else {
            is_key_char(c)
        },
{
    if word {
        crate::unicode::word_char(c)
    } else {
        key_char(c)
    }
}

fn key_char(c: char) -> (r: bool)
    ensures
        r == is_key_char(c),
{
    ('a' <= c && c <= 'z') || ('A' <= c && c <= 'Z') || ('0' <= c && c <= '9') || c == '_' || c
        == '-' || c == ':' || c == '\u{17F}' || c == '\u{212A}'
}

fn ws_run(s: &Vec<char>, i: usize) -> (r: usize)
    requires
        i <= s.len(),
    ensures
        r == ws_end(s@, i as int),
{
    let mut k = i;
    while k < s.len() && crate::text::is_ws_char(s[k])
        invariant
            i <= k <= s.len(),
            ws_end(s@, i as int) == ws_end(s@, k as int),
        decreases s.len() - k,
    {
        k = k + 1;
    }
    k
}

fn bib_key_at_exec(s: &Vec<char>, i: usize) -> (r: Option<(usize, usize)>)
    requires
        i < s.len(),
    ensures
        match r {
            Some((a, b)) => bib_key_at(s@, i as int) == Some((a as int, b as int)),
            None => bib_key_at(s@, i as int) is None,
        },
{
    if s[i] != '@' {
        return None;
    }
    proof {
        lemma_run_end(s@, i + 1, true);
    }
    let p = word_char_run(s, i + 1, true);
    proof {
        lemma_ws_end(s@, p as int);
    }
    let q = ws_run(s, p);
    if p > i + 1 && q < s.len() && s[q] == '{' {
        proof {
            lemma_ws_end(s@, q + 1);
        }
        let r = ws_run(s, q + 1);
        proof {
            lemma_run_end(s@, r as int, false);
        }
        let e = word_char_run(s, r, false);
        if e > r {
            Some((r, e))
        } else {
            None
        }
    } else {
        None
    }
}

fn bib_keys_exec(s: &Vec<char>) -> (r: Vec<Vec<char>>)
    ensures
        crate::text::views(r@) == bib_keys(s@),
{
    let mut r: Vec<Vec<char>> = Vec::new();
    let mut i: usize = 0;
    let ghost mut done: Seq<Seq<char>> = seq![];
    while i < s.len()
        invariant
            0 <= i <= s.len(),
            done + bib_keys_from(s@, i as int) == bib_keys_from(s@, 0),
            crate::text::views(r@) == dedup(done),
        decreases s.len() - i,
    {
        proof {
            lemma_bib_key_bounds(s@, i as int);
        }
        match bib_key_at_exec(s, i) {
            Some((a, b)) => {
                let k = slice_chars(s, a, b);
                let ghost old_done = done;
                add_new_exec(&mut r, k);
                proof {
                    done = done.push(k@);
                    assert(done.drop_last() =~= old_done);
                    assert(done + bib_keys_from(s@, b as int) =~= old_done + bib_keys_from(
                        s@,
                        i as int,
                    ));
                }
                i = b;
            },
            None => {
                i = i + 1;
            },
        }
    }
    proof {
        assert(bib_keys_from(s@, i as int) =~= seq![]);
        assert(done =~= bib_keys_from(s@, 0));
    }
    r
}

/// Appends the keys named by one `\cite` argument.
fn add_arg_keys(d: &mut Vec<Vec<char>>, arg: &Vec<char>, done: Ghost<Seq<Seq<char>>>) -> (r: Ghost<
    Seq<Seq<char>>,
>)
    requires
        crate::text::views(old(d)@) == dedup(done@),
    ensures
        r@ == done@ + arg_keys(arg@),
        crate::text::views(final(d)@) == dedup(r@),
{
    let pieces = split_char_exec(arg, ',');
    let ghost mut cur = done@;
    let mut m: usize = 0;
    while m < pieces.len()
        invariant
            0 <= m <= pieces.len(),
            crate::text::views(pieces@) == crate::text::split_char(arg@, ','),
            cur == done@ + nonempty_trimmed(crate::text::views(pieces@).take(m as int)),
            crate::text::views(d@) == dedup(cur),
        decreases pieces.len() - m,
    {
        let t = trim_exec(&pieces[m]);
        proof {
            assert(crate::text::views(pieces@).take(m + 1).drop_last() =~= crate::text::views(
                pieces@,
            ).take(m as int));
            assert(crate::text::views(pieces@).take(m + 1).last() == pieces@[m as int]@);
        }
        if t.len() > 0 {
            let ghost old_cur = cur;
            add_new_exec(d, t);
            proof {
                cur = cur.push(t@);
                assert(cur.drop_last() =~= old_cur);
                assert(cur =~= done@ + nonempty_trimmed(
                    crate::text::views(pieces@).take(m + 1),
                ));
            }
        }
        m = m + 1;
    }
    assert(crate::text::views(pieces@).take(pieces.len() as int) =~= crate::text::views(pieces@));
    Ghost(cur)
}

fn cited_keys_exec(tex: &Vec<char>) -> (r: Vec<Vec<char>>)
    ensures
        crate::text::views(r@) == cited_keys(tex@),
{
    let lines = split_lines(tex);
    let mut d: Vec<Vec<char>> = Vec::new();
    let ghost mut done: Seq<Seq<char>> = seq![];
    let ghost ls = crate::text::lines(tex@);
    let mut i: usize = 0;
    while i < lines.len()
        invariant
            0 <= i <= lines.len(),
            crate::text::views(lines@) == ls,
            ls == crate::text::lines(tex@),
            done == flat(ls.take(i as int).map_values(|l: Seq<char>| line_cite_keys(l))),
            crate::text::views(d@) == dedup(done),
        decreases lines.len() - i,
    {
        let line = &lines[i];
        proof {
            assert(ls[i as int] == line@);
            assert(ls.take(i + 1).map_values(|l: Seq<char>| line_cite_keys(l)).drop_last()
                =~= ls.take(i as int).map_values(|l: Seq<char>| line_cite_keys(l)));
        }
        let ghost before = done;
        if !is_comment_exec(line) {
            let args = cmd_args_exec(line, Cmd::Cite);
            let mut j: usize = 0;
            while j < args.len()
                invariant
                    0 <= j <= args.len(),
                    crate::text::views(args@) == crate::latex::cmd_args(line@, Cmd::Cite),
                    done == before + flat(
                        crate::text::views(args@).take(j as int).map_values(
                            |a: Seq<char>| arg_keys(a),
                        ),
                    ),
                    crate::text::views(d@) == dedup(done),
                decreases args.len() - j,
            {
                let g = add_arg_keys(&mut d, &args[j], Ghost(done));
                proof {
                    assert(crate::text::views(args@).take(j + 1).map_values(
                        |a: Seq<char>| arg_keys(a),
                    ).drop_last() =~= crate::text::views(args@).take(j as int).map_values(
                        |a: Seq<char>| arg_keys(a),
                    ));
                    assert(crate::text::views(args@)[j as int] == args@[j as int]@);
                    done = g@;
                    assert(done =~= before + flat(
                        crate::text::views(args@).take(j + 1).map_values(
                            |a: Seq<char>| arg_keys(a),
                        ),
                    ));
                }
                j = j + 1;
            }
            proof {
                assert(crate::text::views(args@).take(args.len() as int) =~= crate::text::views(
                    args@,
                ));
            }
        } else {
            assert(before + seq![] =~= before);
        }
        proof {
            assert(done =~= flat(
                ls.take(i + 1).map_values(|l: Seq<char>| line_cite_keys(l)),
            ));
        }
        i = i + 1;
    }
    assert(ls.take(lines.len() as int) =~= ls);
    d
}

fn absent_diags_exec(ks: &Vec<Vec<char>>, other: &Vec<Vec<char>>, missing: bool) -> (r: Vec<
    Diagnostic,
>)
    ensures
        diags_view(r@) == absent_diags(crate::text::views(ks@), crate::text::views(other@), missing),
{
    let mut r: Vec<Diagnostic> = Vec::new();
    let mut i: usize = 0;
    while i < ks.len()
        invariant
            0 <= i <= ks.len(),
            diags_view(r@) == absent_diags(
                crate::text::views(ks@).take(i as int),
                crate::text::views(other@),
                missing,
            ),
        decreases ks.len() - i,
    {
        let k = &ks[i];
        proof {
            assert(crate::text::views(ks@).take(i + 1).drop_last() =~= crate::text::views(
                ks@,
            ).take(i as int));
            assert(crate::text::views(ks@).take(i + 1).last() == k@);
        }
        if !contains_seq(other, k) {
            let d = if missing {
                let mut m = chars_of("Citation key '\\cite{");
                push_all(&mut m, k);
                push_str(&mut m, "}' is missing from the bibliography (.bib).");
                let mut s = chars_of("Add '@article{");
                push_all(&mut s, k);
                push_str(&mut s, ", ...}' to your bibliography file.");
                make_diag("VoxelBib", DiagnosticSeverity::Error, 0, &m, None, Some(&s))
            } else {
                let mut m = chars_of("Bibliography entry '");
                push_all(&mut m, k);
                push_str(&mut m, "' is defined in .bib but never cited in the document.");
                let s = chars_of("Consider citing or pruning this reference.");
                make_diag("VoxelBib", DiagnosticSeverity::Info, 0, &m, None, Some(&s))
            };
            let ghost o = r@;
            r.push(d);
            proof {
                lemma_diags_push(o, d);
            }
        }
        i = i + 1;
    }
    assert(crate::text::views(ks@).take(ks.len() as int) =~= crate::text::views(ks@));
    r
}

// ---------------------------------------------------------------------------
// Labels and cross-references
// ---------------------------------------------------------------------------

/// One key found in a document: the key, the file, the line number and the
/// line's text.
pub struct Occ {
    pub key: Vec<char>,
    pub file: Vec<char>,
    pub line: usize,
    pub text: Vec<char>,
}

pub type OccView = (Seq<char>, Seq<char>, int, Seq<char>);

pub open spec fn occ_view(o: Occ) -> OccView {
    (o.key@, o.file@, o.line as int, o.text@)
}

pub open spec fn occs_view(s: Seq<Occ>) -> Seq<OccView> {
    s.map_values(|o: Occ| occ_view(o))
}

/// The keys one argument names: a `\label` names its trimmed argument; a
/// reference names each non-empty trimmed comma-separated part.
pub open spec fn arg_items(arg: Seq<char>, split: bool) -> Seq<Seq<char>> {
    if split {
        nonempty_trimmed(crate::text::split_char(arg, ','))
    } else {
        seq![crate::text::trim(arg)]
    }
}

/// The keys that the command `k` names on one line (none on a comment line).
pub open spec fn line_items(k: Cmd, split: bool, l: Seq<char>) -> Seq<Seq<char>> {
    if is_comment(l) {
        seq![]
    } else {
        flat(crate::latex::cmd_args(l, k).map_values(|a: Seq<char>| arg_items(a, split)))
    }
}

/// The occurrences of the keys of `k` in the lines `ls` of the file `name`.
pub open spec fn lines_occs(k: Cmd, split: bool, name: Seq<char>, ls: Seq<Seq<char>>) -> Seq<
    OccView,
>
    decreases ls.len(),
{
    if ls.len() == 0 {
        seq![]
    } else {
        lines_occs(k, split, name, ls.drop_last()) + line_items(k, split, ls.last()).map_values(
            |key: Seq<char>| (key, name, ls.len() as int, ls.last()),
        )
    }
}

/// The occurrences of the keys of `k` in the files `fs`, file by file.
pub open spec fn files_occs(k: Cmd, split: bool, fs: Seq<(Seq<char>, Seq<char>)>) -> Seq<OccView>
    decreases fs.len(),
{
    if fs.len() == 0 {
        seq![]
    } else {
        files_occs(k, split, fs.drop_last()) + lines_occs(
            k,
            split,
            fs.last().0,
            crate::text::lines(fs.last().1),
        )
    }
}

/// The plain value of the files of a document.
pub open spec fn files_view(fs: Seq<TexFile>) -> Seq<(Seq<char>, Seq<char>)> {
    fs.map_values(|f: TexFile| (f.name@, f.content@))
}

fn push_items(
    out: &mut Vec<Occ>,
    k: Cmd,
    split: bool,
    file: &Vec<char>,
    n: usize,
    line: &Vec<char>,
)
    ensures
        occs_view(final(out)@) == occs_view(old(out)@) + line_items(k, split, line@).map_values(
            |key: Seq<char>| (key, file@, n as int, line@),
        ),
{
    let ghost start = occs_view(out@);
    if is_comment_exec(line) {
        assert(occs_view(out@) =~= start + seq![].map_values(
            |key: Seq<char>| (key, file@, n as int, line@),
        ));
        return ;
    }
    let args = cmd_args_exec(line, k);
    let ghost f = |key: Seq<char>| (key, file@, n as int, line@);
    let mut j: usize = 0;
    while j < args.len()
        invariant
            0 <= j <= args.len(),
            crate::text::views(args@) == crate::latex::cmd_args(line@, k),
            f == (|key: Seq<char>| (key, file@, n as int, line@)),
            occs_view(out@) == start + flat(
                crate::text::views(args@).take(j as int).map_values(
                    |a: Seq<char>| arg_items(a, split),
                ),
            ).map_values(f),
        decreases args.len() - j,
    {
        let ghost before = occs_view(out@);
        let items: Vec<Vec<char>> = if split {
            let pieces = split_char_exec(&args[j], ',');
            let mut it: Vec<Vec<char>> = Vec::new();
            let mut m: usize = 0;
            while m < pieces.len()
                invariant
                    0 <= m <= pieces.len(),
                    crate::text::views(pieces@) == crate::text::split_char(args@[j as int]@, ','),
                    crate::text::views(it@) == nonempty_trimmed(
                        crate::text::views(pieces@).take(m as int),
                    ),
                decreases pieces.len() - m,
            {
                let t = trim_exec(&pieces[m]);
                proof {
                    assert(crate::text::views(pieces@).take(m + 1).drop_last()
                        =~= crate::text::views(pieces@).take(m as int));
                    assert(crate::text::views(pieces@).take(m + 1).last() == pieces@[m as int]@);
                }
                if t.len() > 0 {
                    let ghost o = it@;
                    it.push(t);
                    proof {
                        crate::text::lemma_views_push(o, t);
                    }
                }
                m = m + 1;
            }
            assert(crate::text::views(pieces@).take(pieces.len() as int) =~= crate::text::views(
                pieces@,
            ));
            it
        } else {
            let mut it: Vec<Vec<char>> = Vec::new();
            it.push(trim_exec(&args[j]));
            assert(crate::text::views(it@) =~= seq![crate::text::trim(args@[j as int]@)]);
            it
        };
        assert(crate::text::views(items@) == arg_items(args@[j as int]@, split));
        let mut m: usize = 0;
        while m < items.len()
            invariant
                0 <= m <= items.len(),
                f == (|key: Seq<char>| (key, file@, n as int, line@)),
                occs_view(out@) == before + crate::text::views(items@).take(m as int).map_values(f),
            decreases items.len() - m,
        {
            let o = Occ { key: items[m].clone(), file: file.clone(), line: n, text: line.clone() };
            let ghost old_out = out@;
            out.push(o);
            proof {
                assert(occs_view(out@) =~= occs_view(old_out).push(occ_view(o)));
                assert(crate::text::views(items@).take(m + 1).map_values(f) =~= crate::text::views(
                    items@,
                ).take(m as int).map_values(f).push(f(items@[m as int]@)));
            }
            m = m + 1;
        }
        proof {
            assert(crate::text::views(items@).take(items.len() as int) =~= crate::text::views(
                items@,
            ));
            let prev = flat(
                crate::text::views(args@).take(j as int).map_values(
                    |a: Seq<char>| arg_items(a, split),
                ),
            );
            assert(crate::text::views(args@).take(j + 1).map_values(
                |a: Seq<char>| arg_items(a, split),
            ).drop_last() =~= crate::text::views(args@).take(j as int).map_values(
                |a: Seq<char>| arg_items(a, split),
            ));
            assert(crate::text::views(args@)[j as int] == args@[j as int]@);
            assert((prev + crate::text::views(items@)).map_values(f) =~= prev.map_values(f)
                + crate::text::views(items@).map_values(f));
        }
        j = j + 1;
    }
    proof {
        assert(crate::text::views(args@).take(args.len() as int) =~= crate::text::views(args@));
    }
}

fn collect_occs(files: &Vec<TexFile>, k: Cmd, split: bool) -> (r: Vec<Occ>)
    ensures
        occs_view(r@) == files_occs(k, split, files_view(files@)),
{
    let mut out: Vec<Occ> = Vec::new();
    let mut fi: usize = 0;
    while fi < files.len()
        invariant
            0 <= fi <= files.len(),
            occs_view(out@) == files_occs(k, split, files_view(files@).take(fi as int)),
        decreases files.len() - fi,
    {
        let name = chars_of(files[fi].name.as_str());
        let content = chars_of(files[fi].content.as_str());
        let lines = split_lines(&content);
        let ghost start = occs_view(out@);
        let mut li: usize = 0;
        while li < lines.len()
            invariant
                0 <= li <= lines.len(),
                crate::text::views(lines@) == crate::text::lines(content@),
                occs_view(out@) == start + lines_occs(
                    k,
                    split,
                    name@,
                    crate::text::views(lines@).take(li as int),
                ),
            decreases lines.len() - li,
        {
            push_items(&mut out, k, split, &name, li + 1, &lines[li]);
            proof {
                let ls = crate::text::views(lines@).take(li + 1);
                assert(ls.drop_last() =~= crate::text::views(lines@).take(li as int));
                assert(ls.last() == lines@[li as int]@);
                assert(ls.len() == li + 1);
            }
            li = li + 1;
        }
        proof {
            assert(crate::text::views(lines@).take(lines.len() as int) =~= crate::text::views(
                lines@,
            ));
            let fv = files_view(files@).take(fi + 1);
            assert(fv.drop_last() =~= files_view(files@).take(fi as int));
            assert(fv.last() == (files@[fi as int].name@, files@[fi as int].content@));
        }
        fi = fi + 1;
    }
    assert(files_view(files@).take(files.len() as int) =~= files_view(files@));
    out
}

/// A defined label: key, file, line.
pub type DefView = (Seq<char>, Seq<char>, int);

/// The first definition of `key` in `defs`.
pub open spec fn find_def(defs: Seq<DefView>, key: Seq<char>) -> Option<DefView>
    decreases defs.len(),
{
    if defs.len() == 0 {
        None
    } else {
        match find_def(defs.drop_last(), key) {
            Some(d) => Some(d),
            None => if defs.last().0 == key {
                Some(defs.last())
            } else {
                None
            },
        }
    }
}

/// The error for a label defined a second time.
pub open spec fn duplicate_diag(o: OccView, prev: DefView) -> DiagView {
    diag(
        "VoxelRef"@,
        DiagnosticSeverity::Error,
        o.2,
        "Duplicate label '\\label{"@ + o.0 + "}' defined in "@ + o.1 + " at line "@
            + crate::fmt::decimal(o.2 as nat) + " (previously defined in "@ + prev.1
            + " at line "@ + crate::fmt::decimal(prev.2 as nat) + ")."@,
        Some(o.3),
        Some("Rename duplicate label '\\label{"@ + o.0 + "}' to avoid ambiguity."@),
    )
}

/// The labels in order of first definition, and an error for each later
/// definition of one of them.
pub open spec fn label_pass(occs: Seq<OccView>) -> (Seq<DefView>, Seq<DiagView>)
    decreases occs.len(),
{
    if occs.len() == 0 {
        (seq![], seq![])
    } else {
        let (defs, ds) = label_pass(occs.drop_last());
        let o = occs.last();
        match find_def(defs, o.0) {
            Some(prev) => (defs, ds.push(duplicate_diag(o, prev))),
            None => (defs.push((o.0, o.1, o.2)), ds),
        }
    }
}

/// The error for a reference to a label that no file defines.
pub open spec fn unresolved_diag(o: OccView) -> DiagView {
    diag(
        "VoxelRef"@,
        DiagnosticSeverity::Error,
        o.2,
        "Unresolved cross-reference '\\ref{"@ + o.0 + "}' in "@ + o.1 + " at line "@
            + crate::fmt::decimal(o.2 as nat)
            + ": label not defined in document or included files."@,
        Some(o.3),
        Some("Ensure '\\label{"@ + o.0 + "}' is defined or check for typos."@),
    )
}

/// An error for each reference whose label is not defined.
pub open spec fn unresolved_pass(refs: Seq<OccView>, defs: Seq<DefView>) -> Seq<DiagView>
    decreases refs.len(),
{
    if refs.len() == 0 {
        seq![]
    } else {
        let r = unresolved_pass(refs.drop_last(), defs);
        if find_def(defs, refs.last().0) is Some {
            r
        } else {
            r.push(unresolved_diag(refs.last()))
        }
    }
}

/// Whether some reference names `key`.
pub open spec fn referenced(refs: Seq<OccView>, key: Seq<char>) -> bool {
    exists|i: int| 0 <= i < refs.len() && (#[trigger] refs[i]).0 == key
}

/// The note for a label that nothing references.
pub open spec fn orphan_diag(d: DefView) -> DiagView {
    diag(
        "VoxelRef"@,
        DiagnosticSeverity::Info,
        d.2,
        "Label '\\label{"@ + d.0 + "}' in "@ + d.1 + " at line "@ + crate::fmt::decimal(d.2 as nat)
            + " is never referenced."@,
        None,
        Some("Consider referencing '\\ref{"@ + d.0 + "}' or removing unused label."@),
    )
}

/// A note for each label, in order of definition, that no reference names.
pub open spec fn orphan_pass(defs: Seq<DefView>, refs: Seq<OccView>) -> Seq<DiagView>
    decreases defs.len(),
{
    if defs.len() == 0 {
        seq![]
    } else {
        let r = orphan_pass(defs.drop_last(), refs);
        if referenced(refs, defs.last().0) {
            r
        } else {
            r.push(orphan_diag(defs.last()))
        }
    }
}

/// The cross-reference check over the files of a document: duplicate
/// labels, then unresolved references, then labels never referenced.
pub open spec fn ref_check(fs: Seq<(Seq<char>, Seq<char>)>) -> Seq<DiagView> {
    let labels = files_occs(Cmd::Label, false, fs);
    let refs = files_occs(Cmd::Ref, true, fs);
    let (defs, dups) = label_pass(labels);
    dups + unresolved_pass(refs, defs) + orphan_pass(defs, refs)
}

/// A defined label, as the check holds it.
struct Def {
    key: Vec<char>,
    file: Vec<char>,
    line: usize,
}

spec fn def_view(d: Def) -> DefView {
    (d.key@, d.file@, d.line as int)
}

spec fn defs_view(s: Seq<Def>) -> Seq<DefView> {
    s.map_values(|d: Def| def_view(d))
}

fn find_def_exec(defs: &Vec<Def>, key: &Vec<char>) -> (r: Option<usize>)
    ensures
        match r {
            Some(i) => i < defs.len() && find_def(defs_view(defs@), key@) == Some(
                def_view(defs@[i as int]),
            ),
            None => find_def(defs_view(defs@), key@) is None,
        },
{
    let mut i: usize = 0;
    while i < defs.len()
        invariant
            0 <= i <= defs.len(),
            find_def(defs_view(defs@).take(i as int), key@) is None,
        decreases defs.len() - i,
    {
        proof {
            assert(defs_view(defs@).take(i + 1).drop_last() =~= defs_view(defs@).take(i as int));
        }
        if crate::skills::equals_exec(&defs[i].key, key) {
            proof {
                lemma_find_def_prefix(defs_view(defs@), key@, i + 1);
            }
            return Some(i);
        }
        i = i + 1;
    }
    assert(defs_view(defs@).take(defs.len() as int) =~= defs_view(defs@));
    None
}

proof fn lemma_find_def_prefix(defs: Seq<DefView>, key: Seq<char>, n: int)
    requires
        0 <= n <= defs.len(),
        find_def(defs.take(n), key) is Some,
    ensures
        find_def(defs, key) == find_def(defs.take(n), key),
    decreases defs.len() - n,
{
    if n < defs.len() {
        assert(defs.take(n + 1).drop_last() =~= defs.take(n));
        lemma_find_def_prefix(defs, key, n + 1);
    } else {
        assert(defs.take(n) =~= defs);
    }
}

fn line_no_text(key: &Vec<char>, file: &Vec<char>, line: usize) -> (r: Vec<char>)
    ensures
        r@ == key@ + "}' in "@ + file@ + " at line "@ + crate::fmt::decimal(line as nat),
{
    let mut m = key.clone();
    push_str(&mut m, "}' in ");
    push_all(&mut m, file);
    push_str(&mut m, " at line ");
    crate::fmt::push_decimal(&mut m, line as u64);
    m
}

/// Cross-reference and label integrity across the files of a document
/// (the main file first, then those it includes): duplicate labels,
/// references to labels that no file defines, and labels never referenced.
pub fn voxel_ref_files(files: &Vec<TexFile>) -> (r: Vec<Diagnostic>)
    ensures
        diags_view(r@) == ref_check(files_view(files@)),
{
    let labels = collect_occs(files, Cmd::Label, false);
    let refs = collect_occs(files, Cmd::Ref, true);
    let mut defs: Vec<Def> = Vec::new();
    let mut out: Vec<Diagnostic> = Vec::new();
    let mut i: usize = 0;
    while i < labels.len()
        invariant
            0 <= i <= labels.len(),
            (defs_view(defs@), diags_view(out@)) == label_pass(occs_view(labels@).take(i as int)),
        decreases labels.len() - i,
    {
        let o = &labels[i];
        proof {
            assert(occs_view(labels@).take(i + 1).drop_last() =~= occs_view(labels@).take(i as int));
            assert(occs_view(labels@).take(i + 1).last() == occ_view(*o));
        }
        match find_def_exec(&defs, &o.key) {
            Some(p) => {
                let prev = &defs[p];
                let mut m = chars_of("Duplicate label '\\label{");
                push_all(&mut m, &o.key);
                push_str(&mut m, "}' defined in ");
                push_all(&mut m, &o.file);
                push_str(&mut m, " at line ");
                crate::fmt::push_decimal(&mut m, o.line as u64);
                push_str(&mut m, " (previously defined in ");
                push_all(&mut m, &prev.file);
                push_str(&mut m, " at line ");
                crate::fmt::push_decimal(&mut m, prev.line as u64);
                push_str(&mut m, ").");
                let mut sg = chars_of("Rename duplicate label '\\label{");
                push_all(&mut sg, &o.key);
                push_str(&mut sg, "}' to avoid ambiguity.");
                let d = make_diag("VoxelRef", DiagnosticSeverity::Error, o.line, &m, Some(&o.text), Some(&sg));
                let ghost old_out = out@;
                out.push(d);
                proof {
                    lemma_diags_push(old_out, d);
                }
            },
            None => {
                let ghost old_defs = defs@;
                let nd = Def { key: o.key.clone(), file: o.file.clone(), line: o.line };
                defs.push(nd);
                proof {
                    assert(defs_view(defs@) =~= defs_view(old_defs).push(def_view(nd)));
                }
            },
        }
        i = i + 1;
    }
    assert(occs_view(labels@).take(labels.len() as int) =~= occs_view(labels@));
    let mut j: usize = 0;
    let ghost dups = diags_view(out@);
    while j < refs.len()
        invariant
            0 <= j <= refs.len(),
            diags_view(out@) == dups + unresolved_pass(
                occs_view(refs@).take(j as int),
                defs_view(defs@),
            ),
        decreases refs.len() - j,
    {
        let o = &refs[j];
        proof {
            assert(occs_view(refs@).take(j + 1).drop_last() =~= occs_view(refs@).take(j as int));
            assert(occs_view(refs@).take(j + 1).last() == occ_view(*o));
        }
        if find_def_exec(&defs, &o.key).is_none() {
            let mut m = chars_of("Unresolved cross-reference '\\ref{");
            push_all(&mut m, &line_no_text(&o.key, &o.file, o.line));
            push_str(&mut m, ": label not defined in document or included files.");
            let mut sg = chars_of("Ensure '\\label{");
            push_all(&mut sg, &o.key);
            push_str(&mut sg, "}' is defined or check for typos.");
            let d = make_diag("VoxelRef", DiagnosticSeverity::Error, o.line, &m, Some(&o.text), Some(&sg));
            proof {
                let ov = occ_view(*o);
                assert(m@ =~= "Unresolved cross-reference '\\ref{"@ + ov.0 + "}' in "@ + ov.1
                    + " at line "@ + crate::fmt::decimal(ov.2 as nat)
                    + ": label not defined in document or included files."@);
                assert(sg@ =~= "Ensure '\\label{"@ + ov.0 + "}' is defined or check for typos."@);
                assert(d@ == unresolved_diag(occ_view(*o)));
            }
            let ghost old_out = out@;
            out.push(d);
            proof {
                lemma_diags_push(old_out, d);
                assert(diags_view(out@) =~= dups + unresolved_pass(
                    occs_view(refs@).take(j + 1),
                    defs_view(defs@),
                ));
            }
        } else {
            assert(diags_view(out@) =~= dups + unresolved_pass(
                occs_view(refs@).take(j + 1),
                defs_view(defs@),
            ));
        }
        j = j + 1;
    }
    assert(occs_view(refs@).take(refs.len() as int) =~= occs_view(refs@));
    let ghost before_orphans = diags_view(out@);
    let mut k: usize = 0;
    while k < defs.len()
        invariant
            0 <= k <= defs.len(),
            diags_view(out@) == before_orphans + orphan_pass(
                defs_view(defs@).take(k as int),
                occs_view(refs@),
            ),
        decreases defs.len() - k,
    {
        let d = &defs[k];
        proof {
            assert(defs_view(defs@).take(k + 1).drop_last() =~= defs_view(defs@).take(k as int));
            assert(defs_view(defs@).take(k + 1).last() == def_view(*d));
        }
        let mut found = false;
        let mut q: usize = 0;
        while q < refs.len()
            invariant
                0 <= q <= refs.len(),
                found == exists|t: int| 0 <= t < q && (#[trigger] occs_view(refs@)[t]).0 == d.key@,
            decreases refs.len() - q,
        {
            if crate::skills::equals_exec(&refs[q].key, &d.key) {
                assert(occs_view(refs@)[q as int].0 == d.key@);
                found = true;
            }
            q = q + 1;
        }
        if !found {
            let mut m = chars_of("Label '\\label{");
            push_all(&mut m, &line_no_text(&d.key, &d.file, d.line));
            push_str(&mut m, " is never referenced.");
            let mut sg = chars_of("Consider referencing '\\ref{");
            push_all(&mut sg, &d.key);
            push_str(&mut sg, "}' or removing unused label.");
            let dg = make_diag("VoxelRef", DiagnosticSeverity::Info, d.line, &m, None, Some(&sg));
            proof {
                let dv = def_view(*d);
                assert(m@ =~= "Label '\\label{"@ + dv.0 + "}' in "@ + dv.1 + " at line "@
                    + crate::fmt::decimal(dv.2 as nat) + " is never referenced."@);
                assert(sg@ =~= "Consider referencing '\\ref{"@ + dv.0
                    + "}' or removing unused label."@);
                assert(dg@ == orphan_diag(def_view(*d)));
            }
            let ghost old_out = out@;
            out.push(dg);
            proof {
                lemma_diags_push(old_out, dg);
                assert(!referenced(occs_view(refs@), d.key@));
                assert(diags_view(out@) =~= before_orphans + orphan_pass(
                    defs_view(defs@).take(k + 1),
                    occs_view(refs@),
                ));
            }
        } else {
            assert(referenced(occs_view(refs@), d.key@));
            assert(diags_view(out@) =~= before_orphans + orphan_pass(
                defs_view(defs@).take(k + 1),
                occs_view(refs@),
            ));
        }
        k = k + 1;
    }
    assert(defs_view(defs@).take(defs.len() as int) =~= defs_view(defs@));
    out
}

/// The warning for a bibliography that the document names but that does
/// not exist; `path` is the path as displayed.
pub fn missing_bib_diagnostic(path: &str) -> (r: Diagnostic)
    ensures
        r@ == diag(
            "VoxelBib"@,
            DiagnosticSeverity::Warning,
            0,
            "Referenced BibTeX file '"@ + path@ + "' does not exist."@,
            None,
            Some("Ensure the .bib file exists in the directory."@),
        ),
{
    let mut m = chars_of("Referenced BibTeX file '");
    push_str(&mut m, path);
    push_str(&mut m, "' does not exist.");
    let s = chars_of("Ensure the .bib file exists in the directory.");
    make_diag("VoxelBib", DiagnosticSeverity::Warning, 0, &m, None, Some(&s))
}

// ---------------------------------------------------------------------------
// Laws
// ---------------------------------------------------------------------------

proof fn lemma_absent_none(ks: Seq<Seq<char>>, other: Seq<Seq<char>>, missing: bool)
    requires
        forall|i: int| 0 <= i < ks.len() ==> other.contains(#[trigger] ks[i]),
    ensures
        absent_diags(ks, other, missing) == Seq::<DiagView>::empty(),
    decreases ks.len(),
{
    if ks.len() > 0 {
        let pre = ks.drop_last();
        assert forall|i: int| 0 <= i < pre.len() implies other.contains(#[trigger] pre[i]) by {
            assert(pre[i] == ks[i]);
        }
        lemma_absent_none(pre, other, missing);
        assert(other.contains(ks[ks.len() - 1]));
    }
}

proof fn lemma_absent_has(ks: Seq<Seq<char>>, other: Seq<Seq<char>>, missing: bool, k: Seq<char>)
    requires
        ks.contains(k),
        !other.contains(k),
    ensures
        absent_diags(ks, other, missing).contains(
            if missing {
                missing_key_diag(k)
            } else {
                unused_key_diag(k)
            },
        ),
    decreases ks.len(),
{
    let d = if missing {
        missing_key_diag(k)
    } else {
        unused_key_diag(k)
    };
    let r = absent_diags(ks.drop_last(), other, missing);
    if ks.last() == k {
        assert(absent_diags(ks, other, missing) == r.push(d));
        assert(r.push(d)[r.len() as int] == d);
    } else {
        let i = choose|i: int| 0 <= i < ks.len() && ks[i] == k;
        assert(i != ks.len() - 1);
        assert(ks.drop_last()[i] == k);
        lemma_absent_has(ks.drop_last(), other, missing, k);
        let j = choose|j: int| 0 <= j < r.len() && r[j] == d;
        let full = absent_diags(ks, other, missing);
        if !other.contains(ks.last()) {
            assert(full[j] == d);
        } else {
            assert(full[j] == d);
        }
    }
}

/// Citations and bibliography in bijection: when every cited key is
/// defined and every defined key is cited, the citation check finds
/// nothing.
pub proof fn lemma_bijective_citations_clean(tex: Seq<char>, bib: Seq<char>)
    requires
        forall|k: Seq<char>| #[trigger] cited_keys(tex).contains(k) ==> bib_keys(bib).contains(k),
        forall|k: Seq<char>| #[trigger] bib_keys(bib).contains(k) ==> cited_keys(tex).contains(k),
    ensures
        bib_check(tex, bib) == Seq::<DiagView>::empty(),
{
    let c = cited_keys(tex);
    let b = bib_keys(bib);
    assert forall|i: int| 0 <= i < c.len() implies b.contains(#[trigger] c[i]) by {
        assert(c.contains(c[i]));
    }
    assert forall|i: int| 0 <= i < b.len() implies c.contains(#[trigger] b[i]) by {
        assert(b.contains(b[i]));
    }
    lemma_absent_none(c, b, true);
    lemma_absent_none(b, c, false);
    assert(Seq::<DiagView>::empty() + Seq::<DiagView>::empty() =~= Seq::<DiagView>::empty());
}

/// A cited key that the bibliography lacks is reported as missing, and a
/// defined key that is never cited is reported as unused.
pub proof fn lemma_citation_mismatches_reported(tex: Seq<char>, bib: Seq<char>, k: Seq<char>)
    ensures
        cited_keys(tex).contains(k) && !bib_keys(bib).contains(k) ==> bib_check(tex, bib).contains(
            missing_key_diag(k),
        ),
        bib_keys(bib).contains(k) && !cited_keys(tex).contains(k) ==> bib_check(tex, bib).contains(
            unused_key_diag(k),
        ),
{
    let a = absent_diags(cited_keys(tex), bib_keys(bib), true);
    let u = absent_diags(bib_keys(bib), cited_keys(tex), false);
    if cited_keys(tex).contains(k) && !bib_keys(bib).contains(k) {
        lemma_absent_has(cited_keys(tex), bib_keys(bib), true, k);
        let j = choose|j: int| 0 <= j < a.len() && a[j] == missing_key_diag(k);
        assert((a + u)[j] == missing_key_diag(k));
    }
    if bib_keys(bib).contains(k) && !cited_keys(tex).contains(k) {
        lemma_absent_has(bib_keys(bib), cited_keys(tex), false, k);
        let j = choose|j: int| 0 <= j < u.len() && u[j] == unused_key_diag(k);
        assert((a + u)[a.len() + j] == unused_key_diag(k));
    }
}

/// The definitions that label occurrences give, in order.
pub open spec fn defs_of(occs: Seq<OccView>) -> Seq<DefView> {
    occs.map_values(|o: OccView| (o.0, o.1, o.2))
}

proof fn lemma_find_def_none(defs: Seq<DefView>, key: Seq<char>)
    requires
        forall|i: int| 0 <= i < defs.len() ==> (#[trigger] defs[i]).0 != key,
    ensures
        find_def(defs, key) is None,
    decreases defs.len(),
{
    if defs.len() > 0 {
        let pre = defs.drop_last();
        assert forall|i: int| 0 <= i < pre.len() implies (#[trigger] pre[i]).0 != key by {
            assert(pre[i] == defs[i]);
        }
        lemma_find_def_none(pre, key);
        assert(defs.last() == defs[defs.len() - 1]);
    }
}

proof fn lemma_find_def_some(defs: Seq<DefView>, key: Seq<char>, j: int)
    requires
        0 <= j < defs.len(),
        defs[j].0 == key,
    ensures
        find_def(defs, key) is Some,
    decreases defs.len(),
{
    if j < defs.len() - 1 {
        lemma_find_def_some(defs.drop_last(), key, j);
    }
}

proof fn lemma_label_pass_distinct(occs: Seq<OccView>)
    requires
        forall|i: int, j: int| 0 <= i < j < occs.len() ==> (#[trigger] occs[i]).0 != (#[trigger] occs[j]).0,
    ensures
        label_pass(occs) == (defs_of(occs), Seq::<DiagView>::empty()),
    decreases occs.len(),
{
    if occs.len() > 0 {
        let pre = occs.drop_last();
        assert forall|i: int, j: int| 0 <= i < j < pre.len() implies (#[trigger] pre[i]).0 != (
        #[trigger] pre[j]).0 by {
            assert(pre[i] == occs[i] && pre[j] == occs[j]);
        }
        lemma_label_pass_distinct(pre);
        let o = occs.last();
        let defs = defs_of(pre);
        assert forall|i: int| 0 <= i < defs.len() implies (#[trigger] defs[i]).0 != o.0 by {
            assert(defs[i].0 == occs[i].0);
            assert(occs[i].0 != occs[occs.len() - 1].0);
        }
        lemma_find_def_none(defs, o.0);
        assert(defs.push((o.0, o.1, o.2)) =~= defs_of(occs));
    }
}

proof fn lemma_unresolved_none(refs: Seq<OccView>, defs: Seq<DefView>)
    requires
        forall|i: int| 0 <= i < refs.len() ==> find_def(defs, (#[trigger] refs[i]).0) is Some,
    ensures
        unresolved_pass(refs, defs) == Seq::<DiagView>::empty(),
    decreases refs.len(),
{
    if refs.len() > 0 {
        let pre = refs.drop_last();
        assert forall|i: int| 0 <= i < pre.len() implies find_def(defs, (#[trigger] pre[i]).0) is Some by {
            assert(pre[i] == refs[i]);
        }
        lemma_unresolved_none(pre, defs);
        assert(refs.last() == refs[refs.len() - 1]);
    }
}

proof fn lemma_orphans_none(defs: Seq<DefView>, refs: Seq<OccView>)
    requires
        forall|i: int| 0 <= i < defs.len() ==> referenced(refs, (#[trigger] defs[i]).0),
    ensures
        orphan_pass(defs, refs) == Seq::<DiagView>::empty(),
    decreases defs.len(),
{
    if defs.len() > 0 {
        let pre = defs.drop_last();
        assert forall|i: int| 0 <= i < pre.len() implies referenced(refs, (#[trigger] pre[i]).0) by {
            assert(pre[i] == defs[i]);
        }
        lemma_orphans_none(pre, refs);
        assert(defs.last() == defs[defs.len() - 1]);
    }
}

/// Labels and references in bijection: when each label is defined once,
/// every reference names a defined label, and every label is referenced,
/// the cross-reference check finds nothing.
pub proof fn lemma_clean_references(fs: Seq<(Seq<char>, Seq<char>)>)
    requires
        ({
            let labels = files_occs(Cmd::Label, false, fs);
            forall|i: int, j: int|
                0 <= i < j < labels.len() ==> (#[trigger] labels[i]).0 != (#[trigger] labels[j]).0
        }),
        ({
            let labels = files_occs(Cmd::Label, false, fs);
            let refs = files_occs(Cmd::Ref, true, fs);
            forall|i: int|
                0 <= i < refs.len() ==> exists|j: int|
                    0 <= j < labels.len() && (#[trigger] labels[j]).0 == (#[trigger] refs[i]).0
        }),
        ({
            let labels = files_occs(Cmd::Label, false, fs);
            let refs = files_occs(Cmd::Ref, true, fs);
            forall|i: int| 0 <= i < labels.len() ==> referenced(refs, (#[trigger] labels[i]).0)
        }),
    ensures
        ref_check(fs) == Seq::<DiagView>::empty(),
{
    let labels = files_occs(Cmd::Label, false, fs);
    let refs = files_occs(Cmd::Ref, true, fs);
    lemma_label_pass_distinct(labels);
    let defs = defs_of(labels);
    assert forall|i: int| 0 <= i < refs.len() implies find_def(defs, (#[trigger] refs[i]).0) is Some by {
        let j = choose|j: int| 0 <= j < labels.len() && (#[trigger] labels[j]).0 == refs[i].0;
        assert(defs[j].0 == labels[j].0);
        lemma_find_def_some(defs, refs[i].0, j);
    }
    lemma_unresolved_none(refs, defs);
    assert forall|i: int| 0 <= i < defs.len() implies referenced(refs, (#[trigger] defs[i]).0) by {
        assert(defs[i].0 == labels[i].0);
    }
    lemma_orphans_none(defs, refs);
    assert(Seq::<DiagView>::empty() + Seq::<DiagView>::empty() + Seq::<DiagView>::empty()
        =~= Seq::<DiagView>::empty());
}

/// A document of several files, the first being the main one; each file is
/// known by its file name.
pub struct TexFile {
    pub name: String,
    pub content: String,
}


/// The checks on a LaTeX document.
pub struct DocumentVerifier;

impl DocumentVerifier {
    /// Citation and BibTeX integrity: an error for each key cited with
    /// `\cite...{}` that `bib_content` lacks, then a note for each entry
    /// that is never cited. Comment lines cite nothing.
    pub fn voxel_bib(tex_content: &str, bib_content: &str) -> (r: Vec<Diagnostic>)
        ensures
            diags_view(r@) == bib_check(tex_content@, bib_content@),
    {
        let tex = chars_of(tex_content);
        let bib = chars_of(bib_content);
        let cited = cited_keys_exec(&tex);
        let keys = bib_keys_exec(&bib);
        let mut r = absent_diags_exec(&cited, &keys, true);
        let mut r2 = absent_diags_exec(&keys, &cited, false);
        let ghost a = r@;
        let ghost b = r2@;
        r.append(&mut r2);
        assert(diags_view(r@) =~= diags_view(a) + diags_view(b));
        r
    }

    /// Cross-reference and label integrity of a document whose main file is
    /// known as `tex_name` and holds `content`; `included` are the files it
    /// pulls in, in the order they were read. Duplicate labels, then
    /// references to labels defined nowhere, then labels never referenced.
    pub fn voxel_ref(tex_name: &str, content: &str, included: Vec<TexFile>) -> (r: Vec<
        Diagnostic,
    >)
        ensures
            diags_view(r@) == ref_check(
                seq![(tex_name@, content@)] + files_view(included@),
            ),
    {
        let mut files = included;
        let ghost inc = files@;
        let root = TexFile { name: String::from_str(tex_name), content: String::from_str(content) };
        files.insert(0, root);
        assert(files_view(files@) =~= seq![(tex_name@, content@)] + files_view(inc));
        voxel_ref_files(&files)
    }
}

// ---------------------------------------------------------------------------
// Laws on which commands count as citations and references
// ---------------------------------------------------------------------------

proof fn lemma_flat_has(ss: Seq<Seq<Seq<char>>>, i: int, x: Seq<char>)
    requires
        0 <= i < ss.len(),
        ss[i].contains(x),
    ensures
        flat(ss).contains(x),
    decreases ss.len(),
{
    let pre = ss.drop_last();
    if i == ss.len() - 1 {
        let j = choose|j: int| 0 <= j < ss[i].len() && ss[i][j] == x;
        assert((flat(pre) + ss.last())[flat(pre).len() + j] == x);
    } else {
        assert(pre[i] == ss[i]);
        lemma_flat_has(pre, i, x);
        let j = choose|j: int| 0 <= j < flat(pre).len() && flat(pre)[j] == x;
        assert((flat(pre) + ss.last())[j] == x);
    }
}

/// A key without `,` whose trimmed text is itself is the one item of its
/// argument.
proof fn lemma_single_key(key: Seq<char>)
    requires
        key.len() > 0,
        !key.contains(','),
        crate::text::trim(key) == key,
    ensures
        arg_items(key, true) == seq![key],
        arg_keys(key) == seq![key],
{
    crate::text::lemma_find_char_from_props(key, ',', 0);
    assert(crate::text::find_char_from(key, ',', 0) is None) by {
        if crate::text::find_char_from(key, ',', 0) is Some {
            let j = crate::text::find_char_from(key, ',', 0)->0;
            assert(key[j] == ',');
        }
    }
    assert(key.subrange(0, key.len() as int) =~= key);
    let ps = crate::text::split_char(key, ',');
    assert(ps =~= seq![key]);
    assert(ps.drop_last() =~= Seq::<Seq<char>>::empty());
    assert(nonempty_trimmed(Seq::<Seq<char>>::empty()) == Seq::<Seq<char>>::empty());
    assert(ps.last() == key);
    assert(nonempty_trimmed(ps) =~= seq![key]);
}

/// A line whose first backslash comes before any `%` is no comment.
proof fn lemma_not_comment(l: Seq<char>, p: int)
    requires
        0 <= p < l.len(),
        l[p] == '\\',
        forall|j: int| 0 <= j < p ==> l[j] != '%',
    ensures
        !is_comment(l),
{
    reveal_strlit("%");
    crate::text::lemma_lead_ws_bound(l);
    let lead = crate::text::lead_ws(l) as int;
    assert(!crate::text::is_ws('\\'));
    assert(lead <= p) by {
        if lead > p {
            assert(crate::text::is_ws(l[p]));
        }
    }
    let t0 = crate::text::trim_start(l);
    let t = crate::text::trim(l);
    if crate::text::starts_with(t, "%"@) {
        assert(t.subrange(0, 1)[0] == '%');
        crate::text::lemma_trail_ws_bound(t0);
        assert(t == t0.take(t0.len() - crate::text::trail_ws(t0)));
        assert(t[0] == t0[0]);
        assert(t0[0] == l[lead]);
    }
}

/// The keys that a line holding a citation command written out in full
/// (after text without `\` or `%`) cites include the command's key.
proof fn lemma_line_cites(pre: Seq<char>, w: Seq<char>, key: Seq<char>, post: Seq<char>)
    requires
        forall|j: int| 0 <= j < w.len() ==> crate::latex::cmd_suffix(Cmd::Cite).contains(#[trigger] w[j]),
        !pre.contains('\\'),
        !pre.contains('%'),
        key.len() > 0,
        !key.contains('}'),
        !key.contains(','),
        crate::text::trim(key) == key,
    ensures
        line_cite_keys(pre + crate::latex::written("cite"@, w, key) + post).contains(key),
{
    reveal_strlit("cite");
    let names = crate::latex::cmd_names(Cmd::Cite);
    assert(names[0] == "cite"@);
    assert(!crate::latex::cmd_suffix(Cmd::Cite).contains('{')) by {
        let cs = crate::latex::cmd_suffix(Cmd::Cite);
        if cs.contains('{') {
            let j = choose|j: int| 0 <= j < cs.len() && cs[j] == '{';
        }
    }
    assert(!key.contains('}'));
    crate::latex::lemma_written_read(pre, Cmd::Cite, 0, w, key, post);
    let l = pre + crate::latex::written("cite"@, w, key) + post;
    assert(l[pre.len() as int] == '\\');
    assert forall|j: int| 0 <= j < pre.len() implies l[j] != '%' by {
        assert(l[j] == pre[j]);
    }
    lemma_not_comment(l, pre.len() as int);
    lemma_single_key(key);
    let args = crate::latex::cmd_args(l, Cmd::Cite);
    let ss = args.map_values(|a: Seq<char>| arg_keys(a));
    assert(args[0] == key);
    assert(ss[0] == seq![key]);
    assert(ss[0][0] == key);
    lemma_flat_has(ss, 0, key);
}

/// `P + x + S` determines `x`.
proof fn lemma_cancel(p: Seq<char>, x: Seq<char>, y: Seq<char>, q: Seq<char>)
    requires
        p + x + q == p + y + q,
    ensures
        x == y,
{
    assert((p + x + q).len() == (p + y + q).len());
    assert((p + x + q).len() == p.len() + x.len() + q.len());
    assert((p + y + q).len() == p.len() + y.len() + q.len());
    assert(x.len() == y.len());
    assert forall|j: int| 0 <= j < x.len() implies x[j] == y[j] by {
        assert((p + x + q)[p.len() + j] == x[j]);
        assert((p + y + q)[p.len() + j] == y[j]);
    }
    assert(x =~= y);
}

proof fn lemma_absent_elems(ks: Seq<Seq<char>>, other: Seq<Seq<char>>, missing: bool)
    ensures
        forall|j: int|
            0 <= j < absent_diags(ks, other, missing).len() ==> exists|m: int|
                0 <= m < ks.len() && !other.contains(ks[m]) && (#[trigger] absent_diags(
                    ks,
                    other,
                    missing,
                )[j]) == (if missing {
                    missing_key_diag(ks[m])
                } else {
                    unused_key_diag(ks[m])
                }),
    decreases ks.len(),
{
    if ks.len() > 0 {
        let pre = ks.drop_last();
        lemma_absent_elems(pre, other, missing);
        let r = absent_diags(pre, other, missing);
        let all = absent_diags(ks, other, missing);
        assert forall|j: int| 0 <= j < all.len() implies exists|m: int|
            0 <= m < ks.len() && !other.contains(ks[m]) && (#[trigger] all[j]) == (if missing {
                missing_key_diag(ks[m])
            } else {
                unused_key_diag(ks[m])
            }) by {
            if j < r.len() {
                assert(all[j] == r[j]);
                let m = choose|m: int|
                    0 <= m < pre.len() && !other.contains(pre[m]) && r[j] == (if missing {
                        missing_key_diag(pre[m])
                    } else {
                        unused_key_diag(pre[m])
                    });
                assert(ks[m] == pre[m]);
            } else {
                assert(ks[ks.len() - 1] == ks.last());
            }
        }
    }
}

/// Every citation form `\cite`, `\citep`, `\citet`, `\citea`, `\citey`
/// and their combinations (`\cite` followed by letters among `p`, `t`,
/// `a`, `y`) counts: a non-comment line holding `\cite<w>{key}` after text
/// without `\` or `%` puts `key` among the cited keys, a key missing from
/// the bibliography is reported as missing, and a bibliography entry cited
/// that way is never reported as uncited.
pub proof fn lemma_citation_forms_read(
    tex: Seq<char>,
    bib: Seq<char>,
    i: int,
    pre: Seq<char>,
    w: Seq<char>,
    key: Seq<char>,
    post: Seq<char>,
)
    requires
        forall|j: int| 0 <= j < w.len() ==> #[trigger] w[j] == 'p' || w[j] == 't' || w[j] == 'a' || w[j] == 'y',
        0 <= i < crate::text::lines(tex).len(),
        crate::text::lines(tex)[i] == pre + seq!['\\', 'c', 'i', 't', 'e'] + w + seq!['{'] + key + seq!['}'] + post,
        !pre.contains('\\'),
        !pre.contains('%'),
        key.len() > 0,
        !key.contains('}'),
        !key.contains(','),
        crate::text::trim(key) == key,
    ensures
        cited_keys(tex).contains(key),
        !bib_keys(bib).contains(key) ==> bib_check(tex, bib).contains(missing_key_diag(key)),
        !bib_check(tex, bib).contains(unused_key_diag(key)),
{
    reveal_strlit("cite");
    let cs = crate::latex::cmd_suffix(Cmd::Cite);
    assert forall|j: int| 0 <= j < w.len() implies cs.contains(#[trigger] w[j]) by {
        if w[j] == 'p' {
            assert(cs[0] == w[j]);
        } else if w[j] == 't' {
            assert(cs[1] == w[j]);
        } else if w[j] == 'a' {
            assert(cs[2] == w[j]);
        } else {
            assert(cs[3] == w[j]);
        }
    }
    let l = crate::text::lines(tex)[i];
    assert(l =~= pre + crate::latex::written("cite"@, w, key) + post);
    lemma_line_cites(pre, w, key, post);
    let ls = crate::text::lines(tex);
    let ss = ls.map_values(|x: Seq<char>| line_cite_keys(x));
    assert(ss[i] == line_cite_keys(l));
    lemma_flat_has(ss, i, key);
    lemma_dedup_no_dups(seq![], flat(ss));
    assert(cited_keys(tex).contains(key));
    lemma_citation_mismatches_reported(tex, bib, key);
    let a = absent_diags(cited_keys(tex), bib_keys(bib), true);
    let u = absent_diags(bib_keys(bib), cited_keys(tex), false);
    lemma_absent_elems(cited_keys(tex), bib_keys(bib), true);
    lemma_absent_elems(bib_keys(bib), cited_keys(tex), false);
    if bib_check(tex, bib).contains(unused_key_diag(key)) {
        let j = choose|j: int| 0 <= j < (a + u).len() && (a + u)[j] == unused_key_diag(key);
        if j < a.len() {
            assert((a + u)[j] == a[j]);
            let m = choose|m: int|
                0 <= m < cited_keys(tex).len() && !bib_keys(bib).contains(cited_keys(tex)[m]) && a[j]
                    == missing_key_diag(cited_keys(tex)[m]);
            assert(a[j].severity == DiagnosticSeverity::Error);
        } else {
            assert((a + u)[j] == u[j - a.len()]);
            let m = choose|m: int|
                0 <= m < bib_keys(bib).len() && !cited_keys(tex).contains(bib_keys(bib)[m]) && u[j
                    - a.len()] == unused_key_diag(bib_keys(bib)[m]);
            let x = bib_keys(bib)[m];
            assert(unused_key_diag(x).message == unused_key_diag(key).message);
            lemma_cancel(
                "Bibliography entry '"@,
                x,
                key,
                "' is defined in .bib but never cited in the document."@,
            );
        }
    }
}

/// Where a reference command's name stands among the names of `Ref`; the
/// names before it start with other letters.
proof fn lemma_ref_name(name: Seq<char>) -> (n: int)
    requires
        name == "ref"@ || name == "eqref"@ || name == "autoref"@ || name == "cref"@ || name
            == "Cref"@ || name == "pageref"@,
    ensures
        0 <= n < crate::latex::cmd_names(Cmd::Ref).len(),
        crate::latex::cmd_names(Cmd::Ref)[n] == name,
        name.len() > 0,
        forall|j: int|
            0 <= j < n ==> (#[trigger] crate::latex::cmd_names(Cmd::Ref)[j]).len() > 0
                && crate::latex::cmd_names(Cmd::Ref)[j][0] != name[0],
{
    reveal_strlit("ref");
    reveal_strlit("eqref");
    reveal_strlit("autoref");
    reveal_strlit("cref");
    reveal_strlit("Cref");
    reveal_strlit("pageref");
    let ns = crate::latex::cmd_names(Cmd::Ref);
    assert(ns[0][0] == 'r' && ns[1][0] == 'e' && ns[2][0] == 'a');
    assert(ns[3][0] == 'c' && ns[4][0] == 'C' && ns[5][0] == 'p');
    assert(ns[0].len() > 0 && ns[1].len() > 0 && ns[2].len() > 0);
    assert(ns[3].len() > 0 && ns[4].len() > 0 && ns[5].len() > 0);
    if name == "ref"@ {
        0
    } else if name == "eqref"@ {
        1
    } else if name == "autoref"@ {
        2
    } else if name == "cref"@ {
        3
    } else if name == "Cref"@ {
        4
    } else {
        5
    }
}

proof fn lemma_lines_occs_has(k: Cmd, split: bool, name: Seq<char>, ls: Seq<Seq<char>>, i: int, x: Seq<char>)
    requires
        0 <= i < ls.len(),
        line_items(k, split, ls[i]).contains(x),
    ensures
        lines_occs(k, split, name, ls).contains((x, name, i + 1, ls[i])),
    decreases ls.len(),
{
    let pre = ls.drop_last();
    let before = lines_occs(k, split, name, pre);
    let items = line_items(k, split, ls.last());
    let m = items.map_values(|key: Seq<char>| (key, name, ls.len() as int, ls.last()));
    if i == ls.len() - 1 {
        let j = choose|j: int| 0 <= j < items.len() && items[j] == x;
        assert(m[j] == (x, name, i + 1, ls[i]));
        assert((before + m)[before.len() + j] == m[j]);
    } else {
        assert(pre[i] == ls[i]);
        lemma_lines_occs_has(k, split, name, pre, i, x);
        let j = choose|j: int| 0 <= j < before.len() && before[j] == (x, name, i + 1, ls[i]);
        assert((before + m)[j] == before[j]);
    }
}

proof fn lemma_files_occs_has(k: Cmd, split: bool, fs: Seq<(Seq<char>, Seq<char>)>, f: int, o: OccView)
    requires
        0 <= f < fs.len(),
        lines_occs(k, split, fs[f].0, crate::text::lines(fs[f].1)).contains(o),
    ensures
        files_occs(k, split, fs).contains(o),
    decreases fs.len(),
{
    let pre = fs.drop_last();
    let before = files_occs(k, split, pre);
    let last = lines_occs(k, split, fs.last().0, crate::text::lines(fs.last().1));
    if f == fs.len() - 1 {
        let j = choose|j: int| 0 <= j < last.len() && last[j] == o;
        assert((before + last)[before.len() + j] == o);
    } else {
        assert(pre[f] == fs[f]);
        lemma_files_occs_has(k, split, pre, f, o);
        let j = choose|j: int| 0 <= j < before.len() && before[j] == o;
        assert((before + last)[j] == o);
    }
}

proof fn lemma_unresolved_has(refs: Seq<OccView>, defs: Seq<DefView>, o: OccView)
    requires
        refs.contains(o),
        find_def(defs, o.0) is None,
    ensures
        unresolved_pass(refs, defs).contains(unresolved_diag(o)),
    decreases refs.len(),
{
    let pre = refs.drop_last();
    let r = unresolved_pass(pre, defs);
    if refs.last() == o {
        assert(r.push(unresolved_diag(o))[r.len() as int] == unresolved_diag(o));
    } else {
        let j = choose|j: int| 0 <= j < refs.len() && refs[j] == o;
        assert(j != refs.len() - 1);
        assert(pre[j] == o);
        lemma_unresolved_has(pre, defs, o);
        let m = choose|m: int| 0 <= m < r.len() && r[m] == unresolved_diag(o);
        if find_def(defs, refs.last().0) is None {
            assert(r.push(unresolved_diag(refs.last()))[m] == unresolved_diag(o));
        }
    }
}

proof fn lemma_label_keys(occs: Seq<OccView>)
    ensures
        forall|m: int|
            0 <= m < label_pass(occs).0.len() ==> exists|j: int|
                0 <= j < occs.len() && occs[j].0 == (#[trigger] label_pass(occs).0[m]).0,
    decreases occs.len(),
{
    if occs.len() > 0 {
        let pre = occs.drop_last();
        lemma_label_keys(pre);
        let defs = label_pass(pre).0;
        let all = label_pass(occs).0;
        assert forall|m: int| 0 <= m < all.len() implies exists|j: int|
            0 <= j < occs.len() && occs[j].0 == (#[trigger] all[m]).0 by {
            if m < defs.len() {
                assert(all[m] == defs[m]);
                let j = choose|j: int| 0 <= j < pre.len() && pre[j].0 == defs[m].0;
                assert(occs[j] == pre[j]);
            } else {
                assert(occs[occs.len() - 1] == occs.last());
            }
        }
    }
}

proof fn lemma_orphan_elems(defs: Seq<DefView>, refs: Seq<OccView>)
    ensures
        forall|j: int|
            0 <= j < orphan_pass(defs, refs).len() ==> exists|m: int|
                0 <= m < defs.len() && !referenced(refs, defs[m].0) && (#[trigger] orphan_pass(
                    defs,
                    refs,
                )[j]) == orphan_diag(defs[m]),
    decreases defs.len(),
{
    if defs.len() > 0 {
        let pre = defs.drop_last();
        lemma_orphan_elems(pre, refs);
        let r = orphan_pass(pre, refs);
        let all = orphan_pass(defs, refs);
        assert forall|j: int| 0 <= j < all.len() implies exists|m: int|
            0 <= m < defs.len() && !referenced(refs, defs[m].0) && (#[trigger] all[j]) == orphan_diag(
                defs[m],
            ) by {
            if j < r.len() {
                assert(all[j] == r[j]);
                let m = choose|m: int|
                    0 <= m < pre.len() && !referenced(refs, pre[m].0) && r[j] == orphan_diag(pre[m]);
                assert(defs[m] == pre[m]);
            } else {
                assert(defs[defs.len() - 1] == defs.last());
            }
        }
    }
}

/// Every reference command counts: on a line of a file of the document
/// that holds `\ref{key}`, `\eqref{key}`, `\autoref{key}`, `\cref{key}`,
/// `\Cref{key}` or `\pageref{key}` after text without `\` or `%`, the
/// reference to `key` is read; when no file defines `\label{key}`, the
/// check reports it as unresolved at that line; and no label `key` is
/// reported as never referenced.
pub proof fn lemma_reference_forms_read(
    fs: Seq<(Seq<char>, Seq<char>)>,
    f: int,
    i: int,
    pre: Seq<char>,
    name: Seq<char>,
    key: Seq<char>,
    post: Seq<char>,
)
    requires
        name == "ref"@ || name == "eqref"@ || name == "autoref"@ || name == "cref"@ || name
            == "Cref"@ || name == "pageref"@,
        0 <= f < fs.len(),
        0 <= i < crate::text::lines(fs[f].1).len(),
        crate::text::lines(fs[f].1)[i] == pre + seq!['\\'] + name + seq!['{'] + key + seq!['}'] + post,
        !pre.contains('\\'),
        !pre.contains('%'),
        key.len() > 0,
        !key.contains('}'),
        !key.contains(','),
        crate::text::trim(key) == key,
    ensures
        ({
            let line = crate::text::lines(fs[f].1)[i];
            let refs = files_occs(Cmd::Ref, true, fs);
            let labels = files_occs(Cmd::Label, false, fs);
            let defs = label_pass(labels).0;
            &&& refs.contains((key, fs[f].0, i + 1, line))
            &&& (forall|j: int| 0 <= j < labels.len() ==> (#[trigger] labels[j]).0 != key)
                ==> ref_check(fs).contains(unresolved_diag((key, fs[f].0, i + 1, line)))
            &&& forall|j: int|
                0 <= j < orphan_pass(defs, refs).len() ==> exists|m: int|
                    0 <= m < defs.len() && (#[trigger] orphan_pass(defs, refs)[j]) == orphan_diag(defs[m])
                        && defs[m].0 != key
        }),
{
    let n = lemma_ref_name(name);
    let l = crate::text::lines(fs[f].1)[i];
    let w = Seq::<char>::empty();
    assert(l =~= pre + crate::latex::written(name, w, key) + post);
    assert(!crate::latex::cmd_suffix(Cmd::Ref).contains('{'));
    crate::latex::lemma_written_read(pre, Cmd::Ref, n, w, key, post);
    assert(l[pre.len() as int] == '\\');
    assert forall|j: int| 0 <= j < pre.len() implies l[j] != '%' by {
        assert(l[j] == pre[j]);
    }
    lemma_not_comment(l, pre.len() as int);
    lemma_single_key(key);
    let args = crate::latex::cmd_args(l, Cmd::Ref);
    let ss = args.map_values(|a: Seq<char>| arg_items(a, true));
    assert(args[0] == key);
    assert(ss[0] == seq![key]);
    assert(ss[0][0] == key);
    lemma_flat_has(ss, 0, key);
    assert(line_items(Cmd::Ref, true, l).contains(key));
    let o = (key, fs[f].0, i + 1, l);
    lemma_lines_occs_has(Cmd::Ref, true, fs[f].0, crate::text::lines(fs[f].1), i, key);
    lemma_files_occs_has(Cmd::Ref, true, fs, f, o);
    let refs = files_occs(Cmd::Ref, true, fs);
    let labels = files_occs(Cmd::Label, false, fs);
    let (defs, dups) = label_pass(labels);
    if forall|j: int| 0 <= j < labels.len() ==> (#[trigger] labels[j]).0 != key {
        lemma_label_keys(labels);
        assert forall|m: int| 0 <= m < defs.len() implies (#[trigger] defs[m]).0 != key by {
            let j = choose|j: int| 0 <= j < labels.len() && labels[j].0 == defs[m].0;
        }
        lemma_find_def_none(defs, key);
        lemma_unresolved_has(refs, defs, o);
        let un = unresolved_pass(refs, defs);
        let op = orphan_pass(defs, refs);
        let jj = choose|jj: int| 0 <= jj < un.len() && un[jj] == unresolved_diag(o);
        assert((dups + un + op)[dups.len() + jj] == unresolved_diag(o));
    }
    let rj = choose|rj: int| 0 <= rj < refs.len() && refs[rj] == o;
    assert(referenced(refs, key)) by {
        assert(refs[rj].0 == key);
    }
    lemma_orphan_elems(defs, refs);
}

} // verus!
