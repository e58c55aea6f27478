//! The hygiene check: Markdown syntax left in the body of a LaTeX document
//! (`## headers`, `**bold**`, `*italic*`), which LaTeX would print as
//! literal characters.
use vstd::prelude::*;
use crate::document::{diag, diags_view, lemma_diags_push, make_diag, DiagView, Diagnostic,
    DiagnosticSeverity, DocumentVerifier};
use crate::latex::bold_scan;
use crate::text::{chars_of, contains_str, find_char_exec, is_ws_char, push_all, push_str,
    split_lines, starts_with_str, trim_exec};
use crate::unicode::word_char;

verus! {

// ---------------------------------------------------------------------------
// Which lines are checked
// ---------------------------------------------------------------------------

/// Where the scan stands: inside `\begin{document}`, inside a verbatim or
/// listing environment.
pub struct ScanState {
    pub in_body: bool,
    pub in_verbatim: bool,
}

/// The state after one line, and whether that line is checked. Comment
/// lines are skipped; lines that open or close the document body or a
/// verbatim block only change the state; when the text has a
/// `\begin{document}` at all, lines outside the body are skipped; lines
/// inside a verbatim block are skipped.
pub open spec fn scan_step(has_doc: bool, st: ScanState, line: Seq<char>) -> (ScanState, bool) {
    let t = crate::text::trim(line);
    if crate::text::starts_with(t, "%"@) {
        (st, false)
    } else if crate::text::contains(t, "\\begin{document}"@) {
        (ScanState { in_body: true, in_verbatim: st.in_verbatim }, false)
    } else if crate::text::contains(t, "\\end{document}"@) {
        (ScanState { in_body: false, in_verbatim: st.in_verbatim }, false)
    } else if has_doc && !st.in_body {
        (st, false)
    } else if crate::text::contains(t, "\\begin{verbatim}"@) || crate::text::contains(
        t,
        "\\begin{lstlisting}"@,
    ) {
        (ScanState { in_body: st.in_body, in_verbatim: true }, false)
    } else if crate::text::contains(t, "\\end{verbatim}"@) || crate::text::contains(
        t,
        "\\end{lstlisting}"@,
    ) {
        (ScanState { in_body: st.in_body, in_verbatim: false }, false)
    } else if st.in_verbatim {
        (st, false)
    } else {
        (st, true)
    }
}

/// The state after the lines `ls`, starting outside the body and outside
/// any verbatim block.
pub open spec fn scan_state(has_doc: bool, ls: Seq<Seq<char>>) -> ScanState
    decreases ls.len(),
{
    if ls.len() == 0 {
        ScanState { in_body: false, in_verbatim: false }
    } else {
        scan_step(has_doc, scan_state(has_doc, ls.drop_last()), ls.last()).0
    }
}

// ---------------------------------------------------------------------------
// What is reported on a checked line
// ---------------------------------------------------------------------------

/// A Markdown header (`^\s*#{1,6}\s+` on the trimmed line): one to six `#`
/// followed by white space.
pub open spec fn md_header(t: Seq<char>) -> bool {
    let n = crate::latex::skip_class(t, seq!['#'], 0);
    1 <= n <= 6 && n < t.len() && crate::text::is_ws(t[n])
}

/// The characters that may not open or close a multi-character italic.
pub open spec fn italic_edge_excluded(c: char) -> bool {
    c == '*' || c == ' ' || c == '\t' || c == '\n' || c == '\r'
}

/// The italic text after the opening `*` at `q`
/// (`([^* \t\n\r][^*]*[^* \t\n\r]|\w)\*`): its bounds.
pub open spec fn italic_after(s: Seq<char>, q: int) -> Option<(int, int)> {
    let a = q + 1;
    let long = if 0 <= a < s.len() && !italic_edge_excluded(s[a]) {
        match crate::text::find_char_from(s, '*', a) {
            Some(e) => if e >= a + 2 && !italic_edge_excluded(s[e - 1]) {
                Some((a, e))
            } else {
                None
            },
            None => None,
        }
    } else {
        None
    };
    match long {
        Some(m) => Some(m),
        None => if 0 <= a && a + 1 < s.len() && crate::unicode::word_class(s[a]) && s[a + 1]
            == '*' {
            Some((a, a + 1))
        } else {
            None
        },
    }
}

/// The italic match that starts at `p` (`(^|[^\\])\*...`): at the very
/// start the opening `*` may stand first; otherwise it follows one
/// character other than a backslash.
pub open spec fn italic_at(s: Seq<char>, p: int) -> Option<(int, int)> {
    let after_char = if 0 <= p && p + 1 < s.len() && s[p] != '\\' && s[p + 1] == '*' {
        italic_after(s, p + 1)
    } else {
        None
    };
    if p == 0 && s.len() > 0 && s[0] == '*' {
        match italic_after(s, 0) {
            Some(m) => Some(m),
            None => after_char,
        }
    } else {
        after_char
    }
}

/// The first italic match at or after `p`.
pub open spec fn first_italic_from(s: Seq<char>, p: int) -> Option<(int, int)>
    decreases s.len() - p,
{
    if p < 0 || p >= s.len() {
        None
    } else {
        match italic_at(s, p) {
            Some(m) => Some(m),
            None => first_italic_from(s, p + 1),
        }
    }
}

/// The text of the first italic match, if any.
pub open spec fn first_italic(s: Seq<char>) -> Option<Seq<char>> {
    match first_italic_from(s, 0) {
        Some((a, e)) => Some(s.subrange(a, e)),
        None => None,
    }
}

pub open spec fn header_diag(n: int, t: Seq<char>) -> DiagView {
    diag(
        "VoxelHygiene"@,
        DiagnosticSeverity::Error,
        n,
        "Raw Markdown header syntax detected in LaTeX body."@,
        Some(t),
        Some("Use \\section{...} or \\subsection{...} instead."@),
    )
}

pub open spec fn bold_diag(n: int, line: Seq<char>, m: Seq<char>) -> DiagView {
    diag(
        "VoxelHygiene"@,
        DiagnosticSeverity::Error,
        n,
        "Raw Markdown bold '**"@ + m + "**' detected."@,
        Some(line),
        Some("Replace with '\\textbf{"@ + m + "}'."@),
    )
}

pub open spec fn italic_diag(n: int, line: Seq<char>, m: Seq<char>) -> DiagView {
    diag(
        "VoxelHygiene"@,
        DiagnosticSeverity::Error,
        n,
        "Raw Markdown italic '*"@ + m + "*' detected (will compile as literal asterisks)."@,
        Some(line),
        Some("Replace with '\\textit{"@ + m + "}'."@),
    )
}

/// What a checked line `line`, number `n`, is reported for: a header, each
/// bold span, then the first italic span of the line with its bold spans
/// blanked out, unless that span holds `$` or `^` (mathematics).
pub open spec fn line_findings(n: int, line: Seq<char>) -> Seq<DiagView> {
    let t = crate::text::trim(line);
    let h: Seq<DiagView> = if md_header(t) {
        seq![header_diag(n, t)]
    } else {
        seq![]
    };
    let b = crate::latex::bold_texts(line).map_values(|m: Seq<char>| bold_diag(n, line, m));
    let i: Seq<DiagView> = match first_italic(crate::latex::unbold(line)) {
        Some(m) => if !m.contains('$') && !m.contains('^') && m.len() > 0 {
            seq![italic_diag(n, line, m)]
        } else {
            seq![]
        },
        None => seq![],
    };
    h + b + i
}

/// The findings on the lines `ls`, numbered from one.
pub open spec fn hygiene_lines(has_doc: bool, ls: Seq<Seq<char>>) -> Seq<DiagView>
    decreases ls.len(),
{
    if ls.len() == 0 {
        seq![]
    } else {
        let before = hygiene_lines(has_doc, ls.drop_last());
        if scan_step(has_doc, scan_state(has_doc, ls.drop_last()), ls.last()).1 {
            before + line_findings(ls.len() as int, ls.last())
        } else {
            before
        }
    }
}

/// The hygiene check of a whole text.
pub open spec fn hygiene_check(tex: Seq<char>) -> Seq<DiagView> {
    hygiene_lines(crate::text::contains(tex, "\\begin{document}"@), crate::text::lines(tex))
}

// ---------------------------------------------------------------------------
// The scanners
// ---------------------------------------------------------------------------

fn scan_step_exec(has_doc: bool, st: &ScanState, line: &Vec<char>) -> (r: (ScanState, bool))
    ensures
        r == scan_step(has_doc, *st, line@),
{
    let t = trim_exec(line);
    if starts_with_str(&t, "%") {
        (ScanState { in_body: st.in_body, in_verbatim: st.in_verbatim }, false)
    } else if contains_str(&t, "\\begin{document}") {
        (ScanState { in_body: true, in_verbatim: st.in_verbatim }, false)
    } else if contains_str(&t, "\\end{document}") {
        (ScanState { in_body: false, in_verbatim: st.in_verbatim }, false)
    } else if has_doc && !st.in_body {
        (ScanState { in_body: st.in_body, in_verbatim: st.in_verbatim }, false)
    } else if contains_str(&t, "\\begin{verbatim}") || contains_str(&t, "\\begin{lstlisting}") {
        (ScanState { in_body: st.in_body, in_verbatim: true }, false)
    } else if contains_str(&t, "\\end{verbatim}") || contains_str(&t, "\\end{lstlisting}") {
        (ScanState { in_body: st.in_body, in_verbatim: false }, false)
    } else if st.in_verbatim {
        (ScanState { in_body: st.in_body, in_verbatim: st.in_verbatim }, false)
    } else {
        (ScanState { in_body: st.in_body, in_verbatim: st.in_verbatim }, true)
    }
}

fn md_header_exec(t: &Vec<char>) -> (r: bool)
    ensures
        r == md_header(t@),
{
    let mut n: usize = 0;
    while n < t.len() && t[n] == '#'
        invariant
            0 <= n <= t.len(),
            crate::latex::skip_class(t@, seq!['#'], n as int) == crate::latex::skip_class(
                t@,
                seq!['#'],
                0,
            ),
        decreases t.len() - n,
    {
        assert(seq!['#'].contains(t@[n as int])) by {
            assert(seq!['#'][0] == '#');
        }
        n = n + 1;
    }
    proof {
        if n < t.len() {
            assert(!seq!['#'].contains(t@[n as int])) by {
                if seq!['#'].contains(t@[n as int]) {
                    let k = choose|k: int| 0 <= k < 1 && seq!['#'][k] == t@[n as int];
                    assert(k == 0);
                }
            }
        }
    }
    1 <= n && n <= 6 && n < t.len() && is_ws_char(t[n])
}

fn edge_excluded(c: char) -> (r: bool)
    ensures
        r == italic_edge_excluded(c),
{
    c == '*' || c == ' ' || c == '\t' || c == '\n' || c == '\r'
}

fn italic_after_exec(s: &Vec<char>, q: usize) -> (r: Option<(usize, usize)>)
    requires
        q < s.len(),
    ensures
        match r {
            Some((a, e)) => italic_after(s@, q as int) == Some((a as int, e as int)),
            None => italic_after(s@, q as int) is None,
        },
{
    let a = q + 1;
    if a < s.len() && !edge_excluded(s[a]) {
        proof {
            crate::text::lemma_find_char_from_props(s@, '*', a as int);
        }
        match find_char_exec(s, '*', a) {
            Some(e) => {
                if e > a + 1 && !edge_excluded(s[e - 1]) {
                    return Some((a, e));
                }
            },
            None => {},
        }
    }
    if a < s.len() && a + 1 < s.len() && word_char(s[a]) && s[a + 1] == '*' {
        Some((a, a + 1))
    } else {
        None
    }
}

fn italic_at_exec(s: &Vec<char>, p: usize) -> (r: Option<(usize, usize)>)
    requires
        p < s.len(),
    ensures
        match r {
            Some((a, e)) => italic_at(s@, p as int) == Some((a as int, e as int)),
            None => italic_at(s@, p as int) is None,
        },
{
    if p == 0 && s[0] == '*' {
        match italic_after_exec(s, 0) {
            Some(m) => {
                return Some(m);
            },
            None => {},
        }
    }
    if p + 1 < s.len() && s[p] != '\\' && s[p + 1] == '*' {
        italic_after_exec(s, p + 1)
    } else {
        None
    }
}

fn first_italic_exec(s: &Vec<char>) -> (r: Option<Vec<char>>)
    ensures
        match r {
            Some(m) => first_italic(s@) == Some(m@),
            None => first_italic(s@) is None,
        },
{
    let mut p: usize = 0;
    while p < s.len()
        invariant
            0 <= p <= s.len(),
            first_italic_from(s@, p as int) == first_italic_from(s@, 0),
        decreases s.len() - p,
    {
        match italic_at_exec(s, p) {
            Some((a, e)) => {
                proof {
                    lemma_italic_bounds(s@, p as int);
                }
                return Some(crate::text::slice_chars(s, a, e));
            },
            None => {},
        }
        p = p + 1;
    }
    None
}

/// An italic span found at `p` is non-empty and lies within the text.
pub proof fn lemma_italic_bounds(s: Seq<char>, p: int)
    requires
        0 <= p < s.len(),
    ensures
        match italic_at(s, p) {
            Some((a, e)) => 0 <= a < e <= s.len(),
            None => true,
        },
{
    crate::text::lemma_find_char_from_props(s, '*', p + 1);
    crate::text::lemma_find_char_from_props(s, '*', p + 2);
    crate::text::lemma_find_char_from_props(s, '*', 1);
}

fn header_diag_exec(n: usize, t: &Vec<char>) -> (r: Diagnostic)
    ensures
        r@ == header_diag(n as int, t@),
{
    let msg = chars_of("Raw Markdown header syntax detected in LaTeX body.");
    let sug = chars_of("Use \\section{...} or \\subsection{...} instead.");
    make_diag("VoxelHygiene", DiagnosticSeverity::Error, n, &msg, Some(t), Some(&sug))
}

fn bold_diag_exec(n: usize, line: &Vec<char>, m: &Vec<char>) -> (r: Diagnostic)
    ensures
        r@ == bold_diag(n as int, line@, m@),
{
    let mut msg = chars_of("Raw Markdown bold '**");
    push_all(&mut msg, m);
    push_str(&mut msg, "**' detected.");
    let mut sug = chars_of("Replace with '\\textbf{");
    push_all(&mut sug, m);
    push_str(&mut sug, "}'.");
    make_diag("VoxelHygiene", DiagnosticSeverity::Error, n, &msg, Some(line), Some(&sug))
}

fn italic_diag_exec(n: usize, line: &Vec<char>, m: &Vec<char>) -> (r: Diagnostic)
    ensures
        r@ == italic_diag(n as int, line@, m@),
{
    let mut msg = chars_of("Raw Markdown italic '*");
    push_all(&mut msg, m);
    push_str(&mut msg, "*' detected (will compile as literal asterisks).");
    let mut sug = chars_of("Replace with '\\textit{");
    push_all(&mut sug, m);
    push_str(&mut sug, "}'.");
    make_diag("VoxelHygiene", DiagnosticSeverity::Error, n, &msg, Some(line), Some(&sug))
}

fn line_findings_exec(n: usize, line: &Vec<char>, out: &mut Vec<Diagnostic>)
    ensures
        diags_view(final(out)@) == diags_view(old(out)@) + line_findings(n as int, line@),
{
    let ghost start = diags_view(out@);
    let t = trim_exec(line);
    let ghost h: Seq<DiagView> = if md_header(t@) {
        seq![header_diag(n as int, t@)]
    } else {
        seq![]
    };
    if md_header_exec(&t) {
        let d = header_diag_exec(n, &t);
        proof {
            lemma_diags_push(out@, d);
        }
        out.push(d);
    }
    assert(diags_view(out@) =~= start + h);
    let (texts, unbolded) = bold_scan(line);
    let ghost bt = crate::latex::bold_texts(line@);
    let mut j: usize = 0;
    while j < texts.len()
        invariant
            0 <= j <= texts.len(),
            crate::text::views(texts@) == bt,
            bt == crate::latex::bold_texts(line@),
            diags_view(out@) == start + h + bt.take(j as int).map_values(
                |m: Seq<char>| bold_diag(n as int, line@, m),
            ),
        decreases texts.len() - j,
    {
        let d = bold_diag_exec(n, line, &texts[j]);
        proof {
            lemma_diags_push(out@, d);
            assert(bt.take(j + 1) =~= bt.take(j as int).push(texts@[j as int]@));
            assert(bt.take(j + 1).map_values(|m: Seq<char>| bold_diag(n as int, line@, m))
                =~= bt.take(j as int).map_values(|m: Seq<char>| bold_diag(n as int, line@, m)).push(
                bold_diag(n as int, line@, texts@[j as int]@),
            ));
        }
        out.push(d);
        j = j + 1;
    }
    assert(bt.take(texts.len() as int) =~= bt);
    let ghost mid = diags_view(out@);
    match first_italic_exec(&unbolded) {
        Some(m) => {
            if !crate::text::contains_char(&m, '$') && !crate::text::contains_char(&m, '^') && m.len()
                > 0 {
                let d = italic_diag_exec(n, line, &m);
                proof {
                    lemma_diags_push(out@, d);
                }
                out.push(d);
            }
        },
        None => {},
    }
    assert(diags_view(out@) =~= start + line_findings(n as int, line@));
}

impl DocumentVerifier {
    /// Markdown left in a LaTeX body: an error for each header line, each
    /// `**bold**` span, and the first `*italic*` span of a line (outside
    /// mathematics). Comment lines, verbatim and listing blocks, and, when
    /// the text has a `\begin{document}`, everything outside the document
    /// body are skipped. Lines are numbered from one.
    pub fn voxel_hygiene(tex_content: &str) -> (r: Vec<Diagnostic>)
        ensures
            diags_view(r@) == hygiene_check(tex_content@),
    {
        let tex = chars_of(tex_content);
        let has_doc = contains_str(&tex, "\\begin{document}");
        let lines = split_lines(&tex);
        let ghost ls = crate::text::lines(tex@);
        let mut st = ScanState { in_body: false, in_verbatim: false };
        let mut out: Vec<Diagnostic> = Vec::new();
        let mut i: usize = 0;
        while i < lines.len()
            invariant
                0 <= i <= lines.len(),
                crate::text::views(lines@) == ls,
                ls == crate::text::lines(tex_content@),
                has_doc == crate::text::contains(tex_content@, "\\begin{document}"@),
                st == scan_state(has_doc, ls.take(i as int)),
                diags_view(out@) == hygiene_lines(has_doc, ls.take(i as int)),
            decreases lines.len() - i,
        {
            proof {
                assert(ls.take(i + 1).drop_last() =~= ls.take(i as int));
                assert(ls.take(i + 1).last() == lines@[i as int]@);
            }
            let (next, checked) = scan_step_exec(has_doc, &st, &lines[i]);
            if checked {
                line_findings_exec(i + 1, &lines[i], &mut out);
            }
            st = next;
            i = i + 1;
        }
        assert(ls.take(lines.len() as int) =~= ls);
        out
    }
}

// ---------------------------------------------------------------------------
// Laws
// ---------------------------------------------------------------------------

/// Every finding of the hygiene check is an error of the hygiene check.
pub proof fn lemma_hygiene_findings_are_errors(tex: Seq<char>)
    ensures
        forall|i: int|
            0 <= i < hygiene_check(tex).len() ==> (#[trigger] hygiene_check(tex)[i]).severity
                == DiagnosticSeverity::Error && hygiene_check(tex)[i].voxel == "VoxelHygiene"@,
{
    lemma_lines_findings_are_errors(
        crate::text::contains(tex, "\\begin{document}"@),
        crate::text::lines(tex),
    );
}

proof fn lemma_lines_findings_are_errors(has_doc: bool, ls: Seq<Seq<char>>)
    ensures
        forall|i: int|
            0 <= i < hygiene_lines(has_doc, ls).len() ==> (#[trigger] hygiene_lines(
                has_doc,
                ls,
            )[i]).severity == DiagnosticSeverity::Error && hygiene_lines(has_doc, ls)[i].voxel
                == "VoxelHygiene"@,
    decreases ls.len(),
{
    if ls.len() > 0 {
        lemma_lines_findings_are_errors(has_doc, ls.drop_last());
    }
}

/// The bold spans from `i` on, in a text without `*`: none.
proof fn lemma_no_star_bolds(s: Seq<char>, i: int)
    requires
        !s.contains('*'),
        0 <= i,
    ensures
        crate::latex::bolds_from(s, i) == Seq::<(int, int, int, int)>::empty(),
        crate::latex::unbold_from(s, i) == (if i < s.len() {
            s.skip(i)
        } else {
            seq![]
        }),
    decreases s.len() - i,
{
    reveal_strlit("**");
    if i < s.len() {
        assert(!crate::text::has_at(s, i, "**"@)) by {
            if crate::text::has_at(s, i, "**"@) {
                assert(s.subrange(i, i + 2)[0] == '*');
                assert(s[i] == '*');
            }
        }
        lemma_no_star_bolds(s, i + 1);
        if i + 1 < s.len() {
            assert(seq![s[i]] + s.skip(i + 1) =~= s.skip(i));
        } else {
            assert(seq![s[i]] + seq![] =~= s.skip(i));
        }
    }
}

/// No italic span starts at or after `p` in a text without `*`.
proof fn lemma_no_star_italic(s: Seq<char>, p: int)
    requires
        !s.contains('*'),
        0 <= p,
    ensures
        first_italic_from(s, p) is None,
    decreases s.len() - p,
{
    if p < s.len() {
        if p + 1 < s.len() {
            assert(s[p + 1] != '*');
        }
        assert(s[p] != '*');
        lemma_no_star_italic(s, p + 1);
    }
}

/// A line without `*` that does not start (once trimmed) with `#` has no
/// findings.
pub proof fn lemma_plain_line_clean(n: int, line: Seq<char>)
    requires
        !line.contains('*'),
        !crate::text::starts_with(crate::text::trim(line), "#"@),
    ensures
        line_findings(n, line) == Seq::<DiagView>::empty(),
{
    reveal_strlit("#");
    let t = crate::text::trim(line);
    assert(!md_header(t)) by {
        if t.len() > 0 {
            assert(t[0] != '#') by {
                if t[0] == '#' {
                    assert(t.subrange(0, 1) =~= "#"@);
                }
            }
            assert(!seq!['#'].contains(t[0])) by {
                if seq!['#'].contains(t[0]) {
                    let k = choose|k: int| 0 <= k < 1 && seq!['#'][k] == t[0];
                    assert(k == 0);
                }
            }
        }
    }
    lemma_no_star_bolds(line, 0);
    assert(crate::latex::bold_texts(line) =~= seq![]);
    let u = crate::latex::unbold(line);
    assert(u =~= line) by {
        if line.len() > 0 {
            assert(line.skip(0) =~= line);
        }
    }
    lemma_no_star_italic(line, 0);
    assert(line_findings(n, line) =~= seq![]);
}

/// A text in which no line holds `*` or starts with `#` has no hygiene
/// findings at all.
pub proof fn lemma_plain_text_clean(tex: Seq<char>)
    requires
        forall|i: int|
            0 <= i < crate::text::lines(tex).len() ==> !(#[trigger] crate::text::lines(tex)[i]).contains(
                '*',
            ) && !crate::text::starts_with(crate::text::trim(crate::text::lines(tex)[i]), "#"@),
    ensures
        hygiene_check(tex) == Seq::<DiagView>::empty(),
{
    lemma_plain_lines_clean(
        crate::text::contains(tex, "\\begin{document}"@),
        crate::text::lines(tex),
    );
}

proof fn lemma_plain_lines_clean(has_doc: bool, ls: Seq<Seq<char>>)
    requires
        forall|i: int|
            0 <= i < ls.len() ==> !(#[trigger] ls[i]).contains('*') && !crate::text::starts_with(
                crate::text::trim(ls[i]),
                "#"@,
            ),
    ensures
        hygiene_lines(has_doc, ls) == Seq::<DiagView>::empty(),
    decreases ls.len(),
{
    if ls.len() > 0 {
        let pre = ls.drop_last();
        assert forall|i: int| 0 <= i < pre.len() implies !(#[trigger] pre[i]).contains('*')
            && !crate::text::starts_with(crate::text::trim(pre[i]), "#"@) by {
            assert(pre[i] == ls[i]);
        }
        lemma_plain_lines_clean(has_doc, pre);
        assert(ls.last() == ls[ls.len() - 1]);
        lemma_plain_line_clean(ls.len() as int, ls.last());
        assert(Seq::<DiagView>::empty() + Seq::<DiagView>::empty() =~= Seq::<DiagView>::empty());
    }
}

/// A checked line's findings are among the findings of the whole text.
proof fn lemma_checked_line_reported(has_doc: bool, ls: Seq<Seq<char>>, i: int, d: DiagView)
    requires
        0 <= i < ls.len(),
        scan_step(has_doc, scan_state(has_doc, ls.take(i)), ls[i]).1,
        line_findings(i + 1, ls[i]).contains(d),
    ensures
        hygiene_lines(has_doc, ls).contains(d),
    decreases ls.len(),
{
    let pre = ls.drop_last();
    if i == ls.len() - 1 {
        assert(pre =~= ls.take(i));
        let before = hygiene_lines(has_doc, pre);
        let f = line_findings(ls.len() as int, ls.last());
        let j = choose|j: int| 0 <= j < f.len() && f[j] == d;
        assert((before + f)[before.len() + j] == d);
    } else {
        assert(pre.take(i) =~= ls.take(i));
        assert(pre[i] == ls[i]);
        lemma_checked_line_reported(has_doc, pre, i, d);
        let before = hygiene_lines(has_doc, pre);
        let j = choose|j: int| 0 <= j < before.len() && before[j] == d;
        if scan_step(has_doc, scan_state(has_doc, pre), ls.last()).1 {
            let f = line_findings(ls.len() as int, ls.last());
            assert((before + f)[j] == d);
        }
    }
}

/// A Markdown header in the body is reported: when a checked line, once
/// trimmed, is one to six `#` followed by white space (`# Title` as much
/// as `###### Title`), the hygiene check holds the header error for that
/// line, with the trimmed line as its snippet.
pub proof fn lemma_markdown_header_reported(tex: Seq<char>, i: int, n: int, sp: char, rest: Seq<char>)
    requires
        1 <= n <= 6,
        crate::text::is_ws(sp),
        0 <= i < crate::text::lines(tex).len(),
        crate::text::trim(crate::text::lines(tex)[i]) == Seq::new(n as nat, |j: int| '#') + seq![sp]
            + rest,
        scan_step(
            crate::text::contains(tex, "\\begin{document}"@),
            scan_state(crate::text::contains(tex, "\\begin{document}"@), crate::text::lines(tex).take(i)),
            crate::text::lines(tex)[i],
        ).1,
    ensures
        hygiene_check(tex).contains(
            header_diag(i + 1, crate::text::trim(crate::text::lines(tex)[i])),
        ),
{
    let line = crate::text::lines(tex)[i];
    let t = crate::text::trim(line);
    assert(t[n] == sp);
    assert(sp != '#') by {
        if sp == '#' {
            assert(!crate::text::is_ws('#'));
        }
    }
    assert forall|j: int| 0 <= j < n implies seq!['#'].contains(#[trigger] t[j]) by {
        assert(t[j] == '#');
        assert(seq!['#'][0] == '#');
    }
    assert(!seq!['#'].contains(t[n])) by {
        if seq!['#'].contains(t[n]) {
            let k = choose|k: int| 0 <= k < 1 && seq!['#'][k] == t[n];
            assert(k == 0);
        }
    }
    crate::latex::lemma_skip_class(t, seq!['#'], 0);
    lemma_skip_hashes(t, 0, n);
    assert(md_header(t));
    let f = line_findings(i + 1, line);
    assert(f[0] == header_diag(i + 1, t));
    lemma_checked_line_reported(
        crate::text::contains(tex, "\\begin{document}"@),
        crate::text::lines(tex),
        i,
        header_diag(i + 1, t),
    );
}

proof fn lemma_skip_hashes(t: Seq<char>, p: int, n: int)
    requires
        0 <= p <= n < t.len(),
        forall|j: int| p <= j < n ==> seq!['#'].contains(#[trigger] t[j]),
        !seq!['#'].contains(t[n]),
    ensures
        crate::latex::skip_class(t, seq!['#'], p) == n,
    decreases n - p,
{
    if p < n {
        lemma_skip_hashes(t, p + 1, n);
    }
}

} // verus!
