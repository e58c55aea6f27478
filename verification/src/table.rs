//! Reading the tables of a LaTeX document for the bold-marks check: which
//! columns are to be minimised (`\downarrow`, `↓`) or maximised
//! (`\uparrow`, `↑`), and, for each such column, the number that each data
//! row holds there and whether it is set in `\textbf`. Which entry is the
//! true optimum is decided on the numbers' floating-point values, outside
//! this library.
use vstd::prelude::*;
use crate::document::{diag, make_diag, DiagView, Diagnostic, DiagnosticSeverity};
use crate::latex::{cmd_args_exec, Cmd};
use crate::text::{chars_of, contains_str, push_str, find_char_exec, find_str_from, has_str_at, is_ws_char,
    slice_chars, split_char_exec, split_lines, starts_with_str, string_of, trim_exec};

verus! {

// ---------------------------------------------------------------------------
// tabular environments
// ---------------------------------------------------------------------------

/// The first position at or after `i` that is not white space.
pub open spec fn skip_ws(s: Seq<char>, i: int) -> int
    decreases s.len() - i,
{
    if i < 0 || i >= s.len() {
        i
    } else if crate::text::is_ws(s[i]) {
        skip_ws(s, i + 1)
    } else {
        i
    }
}

/// A `tabular` environment at `i`
/// (`\\begin\{tabular\}\s*\{([^}]+)\}(.*?)\\end\{tabular\}`, `.` matching
/// line breaks): the column specification in braces, then the body up to
/// the first `\end{tabular}`. Gives the body's bounds and the end.
pub open spec fn tabular_at(s: Seq<char>, i: int) -> Option<(int, int, int)> {
    if crate::text::has_at(s, i, "\\begin{tabular}"@) {
        let w = skip_ws(s, i + 15);
        if 0 <= w < s.len() && s[w] == '{' {
            match crate::text::find_char_from(s, '}', w + 1) {
                Some(k) => if k > w + 1 {
                    match crate::text::find_from(s, "\\end{tabular}"@, k + 1) {
                        Some(j) => Some((k + 1, j, j + 13)),
                        None => None,
                    }
                } else {
                    None
                },
                None => None,
            }
        } else {
            None
        }
    } else {
        None
    }
}

/// Skipping whitespace from `i` stops within the text.
pub proof fn lemma_skip_ws(s: Seq<char>, i: int)
    requires
        0 <= i <= s.len(),
    ensures
        i <= skip_ws(s, i) <= s.len(),
    decreases s.len() - i,
{
    if i < s.len() && crate::text::is_ws(s[i]) {
        lemma_skip_ws(s, i + 1);
    }
}

/// A `tabular` environment found from `i` lies after `i` within the text.
pub proof fn lemma_tabular_bounds(s: Seq<char>, i: int)
    requires
        0 <= i,
    ensures
        match tabular_at(s, i) {
            Some((a, b, e)) => i < a <= b < e <= s.len(),
            None => true,
        },
{
    reveal_strlit("\\begin{tabular}");
    reveal_strlit("\\end{tabular}");
    if crate::text::has_at(s, i, "\\begin{tabular}"@) {
        lemma_skip_ws(s, i + 15);
        let w = skip_ws(s, i + 15);
        if 0 <= w < s.len() && s[w] == '{' {
            crate::text::lemma_find_char_from_props(s, '}', w + 1);
            match crate::text::find_char_from(s, '}', w + 1) {
                Some(k) => {
                    crate::text::lemma_find_from_props(s, "\\end{tabular}"@, k + 1);
                },
                None => {},
            }
        }
    }
}

/// The bodies of the `tabular` environments from `i` on.
pub open spec fn tabulars_from(s: Seq<char>, i: int) -> Seq<Seq<char>>
    decreases s.len() - i,
{
    if i < 0 || i >= s.len() {
        seq![]
    } else {
        proof {
            lemma_tabular_bounds(s, i);
        }
        match tabular_at(s, i) {
            Some((a, b, e)) => seq![s.subrange(a, b)] + tabulars_from(s, e),
            None => tabulars_from(s, i + 1),
        }
    }
}

// ---------------------------------------------------------------------------
// Reading every table
// ---------------------------------------------------------------------------

proof fn lemma_has_at_shift(x: Seq<char>, y: Seq<char>, i: int, p: Seq<char>)
    requires
        0 <= i,
    ensures
        crate::text::has_at(x + y, x.len() + i, p) == crate::text::has_at(y, i, p),
{
    if i + p.len() <= y.len() {
        assert((x + y).subrange(x.len() + i, x.len() + i + p.len()) =~= y.subrange(i, i + p.len()));
    }
}

proof fn lemma_has_at_prefix(x: Seq<char>, y: Seq<char>, i: int, p: Seq<char>)
    requires
        0 <= i,
        i + p.len() <= x.len(),
    ensures
        crate::text::has_at(x + y, i, p) == crate::text::has_at(x, i, p),
{
    assert((x + y).subrange(i, i + p.len()) =~= x.subrange(i, i + p.len()));
}

proof fn lemma_skip_ws_shift(x: Seq<char>, y: Seq<char>, i: int)
    requires
        0 <= i,
    ensures
        skip_ws(x + y, x.len() + i) == x.len() + skip_ws(y, i),
    decreases y.len() - i,
{
    if i < y.len() {
        assert((x + y)[x.len() + i] == y[i]);
        if crate::text::is_ws(y[i]) {
            lemma_skip_ws_shift(x, y, i + 1);
        }
    }
}

proof fn lemma_skip_ws_prefix(x: Seq<char>, y: Seq<char>, i: int)
    requires
        0 <= i,
        skip_ws(x, i) < x.len(),
    ensures
        skip_ws(x + y, i) == skip_ws(x, i),
    decreases x.len() - i,
{
    if i < x.len() {
        assert((x + y)[i] == x[i]);
        if crate::text::is_ws(x[i]) {
            lemma_skip_ws_prefix(x, y, i + 1);
        }
    }
}

proof fn lemma_find_char_shift(x: Seq<char>, y: Seq<char>, c: char, i: int)
    requires
        0 <= i,
    ensures
        crate::text::find_char_from(x + y, c, x.len() + i) == match crate::text::find_char_from(y, c, i) {
            Some(j) => Some(x.len() + j),
            None => None,
        },
    decreases y.len() - i,
{
    if i < y.len() {
        assert((x + y)[x.len() + i] == y[i]);
        if y[i] != c {
            lemma_find_char_shift(x, y, c, i + 1);
        }
    }
}

proof fn lemma_find_char_prefix(x: Seq<char>, y: Seq<char>, c: char, i: int)
    requires
        0 <= i,
        crate::text::find_char_from(x, c, i) is Some,
    ensures
        crate::text::find_char_from(x + y, c, i) == crate::text::find_char_from(x, c, i),
    decreases x.len() - i,
{
    if i < x.len() {
        assert((x + y)[i] == x[i]);
        if x[i] != c {
            lemma_find_char_prefix(x, y, c, i + 1);
        }
    }
}

proof fn lemma_find_from_shift(x: Seq<char>, y: Seq<char>, p: Seq<char>, i: int)
    requires
        0 <= i,
    ensures
        crate::text::find_from(x + y, p, x.len() + i) == match crate::text::find_from(y, p, i) {
            Some(j) => Some(x.len() + j),
            None => None,
        },
    decreases y.len() + 1 - i,
{
    lemma_has_at_shift(x, y, i, p);
    if i + p.len() <= y.len() && !crate::text::has_at(y, i, p) {
        lemma_find_from_shift(x, y, p, i + 1);
    }
}

proof fn lemma_find_from_prefix(x: Seq<char>, y: Seq<char>, p: Seq<char>, i: int)
    requires
        0 <= i,
        crate::text::find_from(x, p, i) is Some,
    ensures
        crate::text::find_from(x + y, p, i) == crate::text::find_from(x, p, i),
    decreases x.len() + 1 - i,
{
    if i + p.len() <= x.len() {
        lemma_has_at_prefix(x, y, i, p);
        if !crate::text::has_at(x, i, p) {
            lemma_find_from_prefix(x, y, p, i + 1);
        }
    }
}

proof fn lemma_tabular_shift(x: Seq<char>, y: Seq<char>, i: int)
    requires
        0 <= i,
    ensures
        tabular_at(x + y, x.len() + i) == match tabular_at(y, i) {
            Some((a, b, e)) => Some((x.len() + a, x.len() + b, x.len() + e)),
            None => None,
        },
{
    let s = x + y;
    let l = x.len() as int;
    lemma_has_at_shift(x, y, i, "\\begin{tabular}"@);
    lemma_skip_ws_shift(x, y, i + 15);
    let w = skip_ws(y, i + 15);
    if i + 15 <= y.len() {
        lemma_skip_ws(y, i + 15);
    }
    assert(w >= 0);
    if 0 <= w < y.len() {
        assert(s[l + w] == y[w]);
    }
    lemma_find_char_shift(x, y, '}', w + 1);
    crate::text::lemma_find_char_from_props(y, '}', w + 1);
    match crate::text::find_char_from(y, '}', w + 1) {
        Some(k) => {
            lemma_find_from_shift(x, y, "\\end{tabular}"@, k + 1);
        },
        None => {},
    }
}

proof fn lemma_tabulars_shift(x: Seq<char>, y: Seq<char>, i: int)
    requires
        0 <= i,
    ensures
        tabulars_from(x + y, x.len() + i) == tabulars_from(y, i),
    decreases y.len() - i,
{
    if i < y.len() {
        lemma_tabular_shift(x, y, i);
        lemma_tabular_bounds(y, i);
        match tabular_at(y, i) {
            Some((a, b, e)) => {
                lemma_tabulars_shift(x, y, e);
                assert((x + y).subrange(x.len() + a, x.len() + b) =~= y.subrange(a, b));
            },
            None => {
                lemma_tabulars_shift(x, y, i + 1);
            },
        }
    }
}

/// A text that is exactly one `tabular` environment.
pub open spec fn one_tabular(t: Seq<char>) -> bool {
    match tabular_at(t, 0) {
        Some((a, b, e)) => e == t.len(),
        None => false,
    }
}

proof fn lemma_all_columns_concat(a: Seq<Seq<char>>, b: Seq<Seq<char>>)
    ensures
        all_columns(a + b) == all_columns(a) + all_columns(b),
    decreases b.len(),
{
    if b.len() == 0 {
        assert(a + b =~= a);
        assert(all_columns(a) + Seq::<ColumnView>::empty() =~= all_columns(a));
    } else {
        assert((a + b).drop_last() =~= a + b.drop_last());
        assert((a + b).last() == b.last());
        lemma_all_columns_concat(a, b.drop_last());
        assert(all_columns(a) + all_columns(b.drop_last()) + body_columns(b.last()) =~= all_columns(a)
            + (all_columns(b.drop_last()) + body_columns(b.last())));
    }
}

/// Every table is read: the directed columns of a `tabular` environment
/// followed by any text are the environment's columns followed by the
/// columns of that text.
pub proof fn lemma_tables_concatenate(t: Seq<char>, rest: Seq<char>)
    requires
        one_tabular(t),
    ensures
        table_columns_of(t + rest) == table_columns_of(t) + table_columns_of(rest),
{
    let s = t + rest;
    lemma_tabular_bounds(t, 0);
    let (a, b, e) = tabular_at(t, 0)->0;
    lemma_has_at_prefix(t, rest, 0, "\\begin{tabular}"@);
    let w = skip_ws(t, 15);
    lemma_skip_ws(t, 15);
    lemma_skip_ws_prefix(t, rest, 15);
    assert(s[w] == t[w]);
    lemma_find_char_prefix(t, rest, '}', w + 1);
    let k = crate::text::find_char_from(t, '}', w + 1)->0;
    lemma_find_from_prefix(t, rest, "\\end{tabular}"@, k + 1);
    assert(tabular_at(s, 0) == tabular_at(t, 0));
    assert(s.subrange(a, b) =~= t.subrange(a, b));
    lemma_tabulars_shift(t, rest, 0);
    assert(tabulars_from(t, t.len() as int) == Seq::<Seq<char>>::empty());
    assert(tabulars_from(t, 0) =~= seq![t.subrange(a, b)]);
    assert(tabulars_from(s, 0) =~= seq![t.subrange(a, b)] + tabulars_from(rest, 0));
    lemma_all_columns_concat(seq![t.subrange(a, b)], tabulars_from(rest, 0));
}

// ---------------------------------------------------------------------------
// Numbers in cells
// ---------------------------------------------------------------------------

pub open spec fn is_digit(c: char) -> bool {
    '0' <= c && c <= '9'
}

/// The end of the run of ASCII digits that starts at `i`.
pub open spec fn digits_end(s: Seq<char>, i: int) -> int
    decreases s.len() - i,
{
    if i < 0 || i >= s.len() {
        i
    } else if is_digit(s[i]) {
        digits_end(s, i + 1)
    } else {
        i
    }
}

/// The number that starts at `p` (`[-+]?[0-9]*\.?[0-9]+`): its end.
pub open spec fn number_at(s: Seq<char>, p: int) -> Option<int> {
    let q = if 0 <= p < s.len() && (s[p] == '-' || s[p] == '+') {
        p + 1
    } else {
        p
    };
    let r = digits_end(s, q);
    if 0 <= r && r + 1 < s.len() && s[r] == '.' && is_digit(s[r + 1]) {
        Some(digits_end(s, r + 1))
    } else if r > q {
        Some(r)
    } else {
        None
    }
}

/// The first number at or after `p`: its bounds.
pub open spec fn first_number_from(s: Seq<char>, p: int) -> Option<(int, int)>
    decreases s.len() - p,
{
    if p < 0 || p >= s.len() {
        None
    } else {
        match number_at(s, p) {
            Some(e) => Some((p, e)),
            None => first_number_from(s, p + 1),
        }
    }
}

/// The text of the first number in `s`, if any.
pub open spec fn first_number(s: Seq<char>) -> Option<Seq<char>> {
    match first_number_from(s, 0) {
        Some((a, e)) => Some(s.subrange(a, e)),
        None => None,
    }
}

/// A run of digits from `i` ends within the text.
pub proof fn lemma_digits_end(s: Seq<char>, i: int)
    requires
        0 <= i <= s.len(),
    ensures
        i <= digits_end(s, i) <= s.len(),
    decreases s.len() - i,
{
    if i < s.len() && is_digit(s[i]) {
        lemma_digits_end(s, i + 1);
    }
}

/// A number read at `p` is non-empty and ends within the text.
pub proof fn lemma_number_bounds(s: Seq<char>, p: int)
    requires
        0 <= p < s.len(),
    ensures
        match number_at(s, p) {
            Some(e) => p < e <= s.len(),
            None => true,
        },
{
    let q = if s[p] == '-' || s[p] == '+' {
        p + 1
    } else {
        p
    };
    lemma_digits_end(s, q);
    let r = digits_end(s, q);
    if r + 1 < s.len() && s[r] == '.' && is_digit(s[r + 1]) {
        lemma_digits_end(s, r + 1);
    }
}

// ---------------------------------------------------------------------------
// Columns and cells
// ---------------------------------------------------------------------------

pub open spec fn arrow_down(x: Seq<char>) -> bool {
    crate::text::contains(x, "\\downarrow"@) || crate::text::contains(x, "↓"@)
}

pub open spec fn arrow_up(x: Seq<char>) -> bool {
    crate::text::contains(x, "\\uparrow"@) || crate::text::contains(x, "↑"@)
}

/// The direction a header cell asks for: `Some(true)` to minimise,
/// `Some(false)` to maximise.
pub open spec fn column_direction(h: Seq<char>) -> Option<bool> {
    if arrow_down(h) {
        Some(true)
    } else if arrow_up(h) {
        Some(false)
    } else {
        None
    }
}

/// The first line at or after `i` that holds an arrow: the header row.
pub open spec fn header_from(ls: Seq<Seq<char>>, i: int) -> Option<int>
    decreases ls.len() - i,
{
    if i < 0 || i >= ls.len() {
        None
    } else if arrow_down(ls[i]) || arrow_up(ls[i]) {
        Some(i)
    } else {
        header_from(ls, i + 1)
    }
}

/// A data row (trimmed): not a rule, and split into cells by `&`.
pub open spec fn data_row(t: Seq<char>) -> bool {
    !(crate::text::starts_with(t, "\\toprule"@) || crate::text::starts_with(t, "\\midrule"@)
        || crate::text::starts_with(t, "\\bottomrule"@) || crate::text::starts_with(t, "\\hline"@))
        && t.contains('&')
}

/// What a cell gives its column: its first number, whether it holds a
/// `\textbf{...}`, and its trimmed text.
pub type CellView = (Seq<char>, bool, Seq<char>);

pub open spec fn cell_entry(cell: Seq<char>) -> Option<CellView> {
    match first_number(cell) {
        Some(n) => Some(
            (n, crate::latex::cmd_args(cell, Cmd::TextBf).len() > 0, crate::text::trim(cell)),
        ),
        None => None,
    }
}

/// What row `r` gives column `col`.
pub open spec fn row_entry(ls: Seq<Seq<char>>, col: int, r: int) -> Seq<CellView> {
    let t = crate::text::trim(ls[r]);
    let cells = crate::text::split_char(t, '&');
    if data_row(t) && col < cells.len() {
        match cell_entry(cells[col]) {
            Some(e) => seq![e],
            None => seq![],
        }
    } else {
        seq![]
    }
}

/// What the rows after the header `h` and before `n` give column `col`.
pub open spec fn column_entries(ls: Seq<Seq<char>>, h: int, col: int, n: int) -> Seq<CellView>
    decreases n - h,
{
    if n <= h + 1 {
        seq![]
    } else {
        column_entries(ls, h, col, n - 1) + row_entry(ls, col, n - 1)
    }
}

/// A column with a direction: its index, whether to minimise, its entries.
pub type ColumnView = (int, bool, Seq<CellView>);

/// The directed columns among the first `n` header cells.
pub open spec fn columns_upto(ls: Seq<Seq<char>>, h: int, hs: Seq<Seq<char>>, n: int) -> Seq<
    ColumnView,
>
    decreases n,
{
    if n <= 0 {
        seq![]
    } else {
        let before = columns_upto(ls, h, hs, n - 1);
        match column_direction(hs[n - 1]) {
            Some(d) => before.push((n - 1, d, column_entries(ls, h, n - 1, ls.len() as int))),
            None => before,
        }
    }
}

/// The directed columns of one table body.
pub open spec fn body_columns(body: Seq<char>) -> Seq<ColumnView> {
    let ls = crate::text::lines(body);
    match header_from(ls, 0) {
        Some(h) => {
            let hs = crate::text::split_char(ls[h], '&');
            columns_upto(ls, h, hs, hs.len() as int)
        },
        None => seq![],
    }
}

/// The directed columns of every table body, table by table.
pub open spec fn all_columns(bodies: Seq<Seq<char>>) -> Seq<ColumnView>
    decreases bodies.len(),
{
    if bodies.len() == 0 {
        seq![]
    } else {
        all_columns(bodies.drop_last()) + body_columns(bodies.last())
    }
}

/// The directed columns of the tables of a document.
pub open spec fn table_columns_of(tex: Seq<char>) -> Seq<ColumnView> {
    all_columns(tabulars_from(tex, 0))
}

/// One cell of a directed column.
#[derive(Debug, Clone)]
pub struct TableCell {
    /// The first number in the cell, as written.
    pub number: String,
    /// Whether the cell holds a `\textbf{...}`.
    pub bold: bool,
    /// The cell's trimmed text.
    pub text: String,
}

/// A column whose header carries an arrow, with what its data rows hold.
#[derive(Debug, Clone)]
pub struct TableColumn {
    pub index: usize,
    /// Lower is better (`↓`); otherwise higher is better (`↑`).
    pub minimize: bool,
    pub cells: Vec<TableCell>,
}

pub open spec fn cell_view(c: TableCell) -> CellView {
    (c.number@, c.bold, c.text@)
}

pub open spec fn cells_view(s: Seq<TableCell>) -> Seq<CellView> {
    s.map_values(|c: TableCell| cell_view(c))
}

pub open spec fn column_view(c: TableColumn) -> ColumnView {
    (c.index as int, c.minimize, cells_view(c.cells@))
}

pub open spec fn columns_view(s: Seq<TableColumn>) -> Seq<ColumnView> {
    s.map_values(|c: TableColumn| column_view(c))
}

// ---------------------------------------------------------------------------
// The scanners
// ---------------------------------------------------------------------------

fn skip_ws_exec(s: &Vec<char>, i: usize) -> (r: usize)
    requires
        i <= s.len(),
    ensures
        r == skip_ws(s@, i as int),
{
    let mut k = i;
    while k < s.len() && is_ws_char(s[k])
        invariant
            i <= k <= s.len(),
            skip_ws(s@, k as int) == skip_ws(s@, i as int),
        decreases s.len() - k,
    {
        k = k + 1;
    }
    k
}

fn tabular_at_exec(s: &Vec<char>, i: usize) -> (r: Option<(usize, usize, usize)>)
    ensures
        match r {
            Some((a, b, e)) => tabular_at(s@, i as int) == Some((a as int, b as int, e as int)),
            None => tabular_at(s@, i as int) is None,
        },
{
    proof {
        reveal_strlit("\\begin{tabular}");
        reveal_strlit("\\end{tabular}");
    }
    if !has_str_at(s, i, "\\begin{tabular}") {
        return None;
    }
    assert(i + 15 <= s.len());
    proof {
        lemma_skip_ws(s@, i + 15);
    }
    let w = skip_ws_exec(s, i + 15);
    if w < s.len() && s[w] == '{' {
        proof {
            crate::text::lemma_find_char_from_props(s@, '}', w + 1);
        }
        match find_char_exec(s, '}', w + 1) {
            Some(k) => {
                if k > w + 1 {
                    proof {
                        crate::text::lemma_find_from_props(s@, "\\end{tabular}"@, k + 1);
                    }
                    match find_str_from(s, "\\end{tabular}", k + 1) {
                        Some(j) => {
                            assert(crate::text::has_at(s@, j as int, "\\end{tabular}"@));
                            assert(j + 13 <= s.len());
                            Some((k + 1, j, j + 13))
                        },
                        None => None,
                    }
                } else {
                    None
                }
            },
            None => None,
        }
    } else {
        None
    }
}

fn tabulars_exec(s: &Vec<char>) -> (r: Vec<Vec<char>>)
    ensures
        crate::text::views(r@) == tabulars_from(s@, 0),
{
    let mut r: Vec<Vec<char>> = Vec::new();
    let mut i: usize = 0;
    while i < s.len()
        invariant
            0 <= i <= s.len(),
            crate::text::views(r@) + tabulars_from(s@, i as int) == tabulars_from(s@, 0),
        decreases s.len() - i,
    {
        proof {
            lemma_tabular_bounds(s@, i as int);
        }
        match tabular_at_exec(s, i) {
            Some((a, b, e)) => {
                let body = slice_chars(s, a, b);
                let ghost old_r = r@;
                r.push(body);
                proof {
                    crate::text::lemma_views_push(old_r, body);
                    assert(crate::text::views(r@) + tabulars_from(s@, e as int)
                        =~= crate::text::views(old_r) + tabulars_from(s@, i as int));
                }
                i = e;
            },
            None => {
                i = i + 1;
            },
        }
    }
    assert(tabulars_from(s@, i as int) =~= seq![]);
    assert(crate::text::views(r@) + seq![] =~= crate::text::views(r@));
    r
}

fn digits_end_exec(s: &Vec<char>, i: usize) -> (r: usize)
    requires
        i <= s.len(),
    ensures
        r == digits_end(s@, i as int),
        i <= r <= s.len(),
{
    let mut k = i;
    while k < s.len() && '0' <= s[k] && s[k] <= '9'
        invariant
            i <= k <= s.len(),
            digits_end(s@, k as int) == digits_end(s@, i as int),
        decreases s.len() - k,
    {
        k = k + 1;
    }
    k
}

fn first_number_exec(s: &Vec<char>) -> (r: Option<Vec<char>>)
    ensures
        match r {
            Some(n) => first_number(s@) == Some(n@),
            None => first_number(s@) is None,
        },
{
    let mut p: usize = 0;
    while p < s.len()
        invariant
            0 <= p <= s.len(),
            first_number_from(s@, p as int) == first_number_from(s@, 0),
        decreases s.len() - p,
    {
        let q = if s[p] == '-' || s[p] == '+' {
            p + 1
        } else {
            p
        };
        let r = digits_end_exec(s, q);
        let found: Option<usize> = if r < s.len() && r + 1 < s.len() && s[r] == '.' && '0' <= s[r
            + 1] && s[r + 1] <= '9' {
            Some(digits_end_exec(s, r + 1))
        } else if r > q {
            Some(r)
        } else {
            None
        };
        assert(match found {
            Some(e) => number_at(s@, p as int) == Some(e as int),
            None => number_at(s@, p as int) is None,
        });
        match found {
            Some(e) => {
                proof {
                    lemma_number_bounds(s@, p as int);
                }
                return Some(slice_chars(s, p, e));
            },
            None => {},
        }
        p = p + 1;
    }
    None
}

fn column_direction_exec(h: &Vec<char>) -> (r: Option<bool>)
    ensures
        r == column_direction(h@),
{
    if contains_str(h, "\\downarrow") || contains_str(h, "↓") {
        Some(true)
    } else if contains_str(h, "\\uparrow") || contains_str(h, "↑") {
        Some(false)
    } else {
        None
    }
}

fn header_exec(ls: &Vec<Vec<char>>) -> (r: Option<usize>)
    ensures
        match r {
            Some(h) => header_from(crate::text::views(ls@), 0) == Some(h as int) && h < ls.len(),
            None => header_from(crate::text::views(ls@), 0) is None,
        },
{
    let ghost v = crate::text::views(ls@);
    let mut i: usize = 0;
    while i < ls.len()
        invariant
            0 <= i <= ls.len(),
            v == crate::text::views(ls@),
            header_from(v, i as int) == header_from(v, 0),
        decreases ls.len() - i,
    {
        if column_direction_exec(&ls[i]).is_some() {
            return Some(i);
        }
        i = i + 1;
    }
    None
}

fn row_entry_exec(ls: &Vec<Vec<char>>, col: usize, r: usize) -> (e: Option<TableCell>)
    requires
        r < ls.len(),
    ensures
        match e {
            Some(c) => row_entry(crate::text::views(ls@), col as int, r as int) == seq![cell_view(c)],
            None => row_entry(crate::text::views(ls@), col as int, r as int) == Seq::<CellView>::empty(),
        },
{
    let t = trim_exec(&ls[r]);
    let rule = starts_with_str(&t, "\\toprule") || starts_with_str(&t, "\\midrule")
        || starts_with_str(&t, "\\bottomrule") || starts_with_str(&t, "\\hline");
    if rule || !crate::text::contains_char(&t, '&') {
        return None;
    }
    let cells = split_char_exec(&t, '&');
    if col >= cells.len() {
        return None;
    }
    let cell = &cells[col];
    match first_number_exec(cell) {
        Some(n) => {
            let bold = cmd_args_exec(cell, Cmd::TextBf).len() > 0;
            Some(TableCell { number: string_of(&n), bold, text: string_of(&trim_exec(cell)) })
        },
        None => None,
    }
}

fn column_exec(ls: &Vec<Vec<char>>, h: usize, col: usize, minimize: bool) -> (c: TableColumn)
    requires
        h < ls.len(),
    ensures
        column_view(c) == (col as int, minimize, column_entries(
            crate::text::views(ls@),
            h as int,
            col as int,
            ls.len() as int,
        )),
{
    let ghost v = crate::text::views(ls@);
    let mut cells: Vec<TableCell> = Vec::new();
    let mut r: usize = h + 1;
    assert(column_entries(v, h as int, col as int, r as int) =~= seq![]);
    while r < ls.len()
        invariant
            h + 1 <= r <= ls.len(),
            v == crate::text::views(ls@),
            cells_view(cells@) == column_entries(v, h as int, col as int, r as int),
        decreases ls.len() - r,
    {
        let ghost before = cells@;
        match row_entry_exec(ls, col, r) {
            Some(c) => {
                cells.push(c);
                assert(cells_view(cells@) =~= cells_view(before).push(cell_view(c)));
            },
            None => {},
        }
        assert(cells_view(cells@) =~= column_entries(v, h as int, col as int, r + 1));
        r = r + 1;
    }
    TableColumn { index: col, minimize, cells }
}

fn body_columns_exec(body: &Vec<char>, out: &mut Vec<TableColumn>)
    ensures
        columns_view(final(out)@) == columns_view(old(out)@) + body_columns(body@),
{
    let ghost start = columns_view(out@);
    let ls = split_lines(body);
    let ghost v = crate::text::views(ls@);
    match header_exec(&ls) {
        Some(h) => {
            let hs = split_char_exec(&ls[h], '&');
            let ghost hv = crate::text::views(hs@);
            let mut c: usize = 0;
            while c < hs.len()
                invariant
                    0 <= c <= hs.len(),
                    h < ls.len(),
                    v == crate::text::views(ls@),
                    hv == crate::text::views(hs@),
                    columns_view(out@) == start + columns_upto(v, h as int, hv, c as int),
                decreases hs.len() - c,
            {
                let ghost before = out@;
                match column_direction_exec(&hs[c]) {
                    Some(d) => {
                        let col = column_exec(&ls, h, c, d);
                        out.push(col);
                        assert(columns_view(out@) =~= columns_view(before).push(column_view(col)));
                    },
                    None => {},
                }
                assert(columns_view(out@) =~= start + columns_upto(v, h as int, hv, c + 1));
                c = c + 1;
            }
        },
        None => {
            assert(columns_view(out@) =~= start + body_columns(body@));
        },
    }
}

/// The columns of the document's `tabular` environments whose header row
/// (the first row with an arrow) marks them `\downarrow`/`↓` (minimise) or
/// `\uparrow`/`↑` (maximise), table by table and left to right, each with
/// the cells of its data rows: the first number a cell holds (rows that
/// are rules, lack `&`, or lack the column or a number give nothing),
/// whether the cell holds a `\textbf{...}`, and the cell's trimmed text.
pub fn table_columns(tex_content: &str) -> (r: Vec<TableColumn>)
    ensures
        columns_view(r@) == table_columns_of(tex_content@),
{
    let bodies = tabulars_exec(&chars_of(tex_content));
    let ghost bv = crate::text::views(bodies@);
    let mut out: Vec<TableColumn> = Vec::new();
    let mut i: usize = 0;
    while i < bodies.len()
        invariant
            0 <= i <= bodies.len(),
            bv == crate::text::views(bodies@),
            bv == tabulars_from(tex_content@, 0),
            columns_view(out@) == all_columns(bv.take(i as int)),
        decreases bodies.len() - i,
    {
        body_columns_exec(&bodies[i], &mut out);
        assert(bv.take(i + 1).drop_last() =~= bv.take(i as int));
        i = i + 1;
    }
    assert(bv.take(bodies.len() as int) =~= bv);
    out
}

/// The error for a bold cell that is not its column's optimum; `optimum`
/// is the optimum as the report prints it.
pub open spec fn bolding_diag(cell: Seq<char>, minimize: bool, optimum: Seq<char>) -> DiagView {
    diag(
        "VoxelTable"@,
        DiagnosticSeverity::Error,
        0,
        "Deceptive/misleading bolding in Table: value '"@ + cell + "' is bolded as optimal under "@
            + (if minimize {
            "minimization (↓)"@
        } else {
            "maximization (↑)"@
        }) + ", but actual optimum is '"@ + optimum + "'."@,
        Some(cell),
        Some(
            "Only bold the true optimum ("@ + optimum
                + ") or clarify why sub-optimal result is highlighted."@,
        ),
    )
}

/// The error for the bold cell `cell` of a column to be minimised (or
/// maximised) whose optimum, as printed, is `optimum`.
pub fn bolding_diagnostic(cell: &str, minimize: bool, optimum: &str) -> (r: Diagnostic)
    ensures
        r@ == bolding_diag(cell@, minimize, optimum@),
{
    let mut msg = chars_of("Deceptive/misleading bolding in Table: value '");
    push_str(&mut msg, cell);
    push_str(&mut msg, "' is bolded as optimal under ");
    if minimize {
        push_str(&mut msg, "minimization (↓)");
    } else {
        push_str(&mut msg, "maximization (↑)");
    }
    push_str(&mut msg, ", but actual optimum is '");
    push_str(&mut msg, optimum);
    push_str(&mut msg, "'.");
    let mut sug = chars_of("Only bold the true optimum (");
    push_str(&mut sug, optimum);
    push_str(&mut sug, ") or clarify why sub-optimal result is highlighted.");
    let c = chars_of(cell);
    make_diag("VoxelTable", DiagnosticSeverity::Error, 0, &msg, Some(&c), Some(&sug))
}

} // verus!
