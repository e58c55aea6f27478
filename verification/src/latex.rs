//! The pieces of LaTeX (and stray Markdown) syntax that the document checks
//! look for: braced command arguments such as `\label{key}`, environments
//! such as `\begin{abstract}...\end{abstract}`, and `**bold**` spans. Each
//! scanner finds its matches left to right without overlap, as a regular
//! expression search does, and a spec function says which matches those are.
use vstd::prelude::*;
use crate::text::{chars_of, find_char_exec, has_at_exec, slice_chars};

verus! {

/// The LaTeX commands whose braced argument the checks read.
#[derive(Clone, Copy, Debug, PartialEq, Eq, Structural)]
pub enum Cmd {
    /// `\cite`, `\citep`, `\citet`, ... (`\cite[ptay]*{...}`)
    Cite,
    /// `\label{...}`
    Label,
    /// `\ref`, `\eqref`, `\autoref`, `\cref`, `\Cref`, `\pageref`
    Ref,
    /// `\input{...}` and `\include{...}`
    Input,
    /// `\textbf{...}`
    TextBf,
    /// `\section{...}`
    Section,
    /// `\bibliography{...}`
    Bibliography,
}

/// The names a command goes by, tried in this order.
pub open spec fn cmd_names(k: Cmd) -> Seq<Seq<char>> {
    match k {
        Cmd::Cite => seq!["cite"@],
        Cmd::Label => seq!["label"@],
        Cmd::Ref => seq!["ref"@, "eqref"@, "autoref"@, "cref"@, "Cref"@, "pageref"@],
        Cmd::Input => seq!["input"@, "include"@],
        Cmd::TextBf => seq!["textbf"@],
        Cmd::Section => seq!["section"@],
        Cmd::Bibliography => seq!["bibliography"@],
    }
}

/// Letters that may follow the command's name before its brace.
pub open spec fn cmd_suffix(k: Cmd) -> Seq<char> {
    match k {
        Cmd::Cite => seq!['p', 't', 'a', 'y'],
        _ => seq![],
    }
}

/// The first position at or after `i` that does not hold one of `cs`.
pub open spec fn skip_class(s: Seq<char>, cs: Seq<char>, i: int) -> int
    decreases s.len() - i,
{
    if i < 0 || i >= s.len() {
        if i < 0 {
            0
        } else {
            i
        }
    } else if cs.contains(s[i]) {
        skip_class(s, cs, i + 1)
    } else {
        i
    }
}

/// The argument part of a command whose name ends at `p`: the allowed
/// suffix letters, `{`, at least one character other than `}`, and `}`.
/// Gives the argument's bounds and the end of the match.
pub open spec fn arg_after(s: Seq<char>, k: Cmd, p: int) -> Option<(int, int, int)> {
    let q = skip_class(s, cmd_suffix(k), p);
    if 0 <= q < s.len() && s[q] == '{' {
        match crate::text::find_char_from(s, '}', q + 1) {
            Some(r) => if r > q + 1 {
                Some((q + 1, r, r + 1))
            } else {
                None
            },
            None => None,
        }
    } else {
        None
    }
}

/// The match of the command `k` that starts at `i`, trying its names from
/// the `n`-th on.
pub open spec fn cmd_match_from_name(s: Seq<char>, k: Cmd, i: int, n: int) -> Option<
    (int, int, int),
>
    decreases cmd_names(k).len() - n,
{
    if n < 0 || n >= cmd_names(k).len() {
        None
    } else {
        let name = cmd_names(k)[n];
        let m = if crate::text::has_at(s, i + 1, name) {
            arg_after(s, k, i + 1 + name.len())
        } else {
            None
        };
        match m {
            Some(r) => Some(r),
            None => cmd_match_from_name(s, k, i, n + 1),
        }
    }
}

/// The match of the command `k` that starts at `i`: the argument's bounds
/// and the end of the match.
pub open spec fn cmd_match_at(s: Seq<char>, k: Cmd, i: int) -> Option<(int, int, int)> {
    if 0 <= i < s.len() && s[i] == '\\' {
        cmd_match_from_name(s, k, i, 0)
    } else {
        None
    }
}

/// The arguments of the matches of `k` in `s` from position `i` on.
pub open spec fn cmd_args_from(s: Seq<char>, k: Cmd, i: int) -> Seq<Seq<char>>
    decreases s.len() - i,
{
    if i < 0 || i >= s.len() {
        seq![]
    } else {
        proof {
            lemma_cmd_match_bounds(s, k, i);
        }
        match cmd_match_at(s, k, i) {
            Some((a, b, e)) => seq![s.subrange(a, b)] + cmd_args_from(s, k, e),
            None => cmd_args_from(s, k, i + 1),
        }
    }
}

/// The arguments of every match of `k` in `s`, left to right.
pub open spec fn cmd_args(s: Seq<char>, k: Cmd) -> Seq<Seq<char>> {
    cmd_args_from(s, k, 0)
}

/// Trying names that do not stand after the backslash moves on to the next.
proof fn lemma_names_skip(s: Seq<char>, k: Cmd, i: int, m: int, n: int)
    requires
        0 <= m <= n < cmd_names(k).len(),
        forall|j: int| m <= j < n ==> !crate::text::has_at(s, i + 1, #[trigger] cmd_names(k)[j]),
    ensures
        cmd_match_from_name(s, k, i, m) == cmd_match_from_name(s, k, i, n),
    decreases n - m,
{
    if m < n {
        lemma_names_skip(s, k, i, m + 1, n);
    }
}

/// Skipping a run of suffix letters stops at the first other character.
proof fn lemma_skip_run(s: Seq<char>, cs: Seq<char>, p: int, len: int)
    requires
        0 <= p,
        0 <= len,
        p + len < s.len(),
        forall|j: int| p <= j < p + len ==> cs.contains(#[trigger] s[j]),
        !cs.contains(s[p + len]),
    ensures
        skip_class(s, cs, p) == p + len,
    decreases len,
{
    if len > 0 {
        lemma_skip_run(s, cs, p + 1, len - 1);
    }
}

/// `\name`, then suffix letters `w`, then `{a}`.
pub open spec fn written(name: Seq<char>, w: Seq<char>, a: Seq<char>) -> Seq<char> {
    seq!['\\'] + name + w + seq!['{'] + a + seq!['}']
}

/// A command written out in full, `\name w{a}` with `name` the `n`-th
/// name of `k`, no earlier name standing after the backslash, `w` made of
/// allowed suffix letters and `a` non-empty without `}`, is matched where it
/// starts, with `a` as its argument, and the match ends after its `}`.
pub proof fn lemma_written_matched(
    pre: Seq<char>,
    k: Cmd,
    n: int,
    w: Seq<char>,
    a: Seq<char>,
    post: Seq<char>,
)
    requires
        0 <= n < cmd_names(k).len(),
        forall|j: int|
            0 <= j < n ==> (#[trigger] cmd_names(k)[j]).len() > 0 && cmd_names(k)[j][0]
                != cmd_names(k)[n][0],
        cmd_names(k)[n].len() > 0,
        forall|j: int| 0 <= j < w.len() ==> cmd_suffix(k).contains(#[trigger] w[j]),
        !cmd_suffix(k).contains('{'),
        a.len() > 0,
        !a.contains('}'),
    ensures
        ({
            let c = written(cmd_names(k)[n], w, a);
            let s = pre + c + post;
            let q: int = (pre.len() + 1 + cmd_names(k)[n].len() + w.len()) as int;
            cmd_match_at(s, k, pre.len() as int) == Some(
                (q + 1, q + 1 + a.len(), (pre.len() + c.len()) as int),
            )
        }),
{
    let name = cmd_names(k)[n];
    let c = written(name, w, a);
    let s = pre + c + post;
    let p = pre.len() as int;
    let q: int = p + 1 + name.len() + w.len();
    assert(s[p] == '\\');
    assert forall|j: int| 0 <= j < n implies !crate::text::has_at(s, p + 1, #[trigger] cmd_names(k)[j]) by {
        let nm = cmd_names(k)[j];
        if crate::text::has_at(s, p + 1, nm) {
            assert(s.subrange(p + 1, p + 1 + nm.len())[0] == nm[0]);
            assert(s[p + 1] == name[0]);
        }
    }
    lemma_names_skip(s, k, p, 0, n);
    assert(s.subrange(p + 1, p + 1 + name.len()) =~= name);
    assert(crate::text::has_at(s, p + 1, name));
    assert forall|j: int| p + 1 + name.len() <= j < q implies cmd_suffix(k).contains(#[trigger] s[j]) by {
        assert(s[j] == w[j - (p + 1 + name.len())]);
    }
    assert(s[q] == '{');
    lemma_skip_run(s, cmd_suffix(k), p + 1 + name.len(), w.len() as int);
    let r: int = q + 1 + a.len();
    assert(s[r] == '}');
    assert forall|j: int| q + 1 <= j < r implies s[j] != '}' by {
        assert(s[j] == a[j - (q + 1)]);
        if s[j] == '}' {
            assert(a.contains('}'));
        }
    }
    crate::text::lemma_find_char_from_props(s, '}', q + 1);
    crate::text::lemma_find_char_from_unique(s, '}', q + 1, r);
    assert(crate::text::find_char_from(s, '}', r) == Some(r));
    assert(p + c.len() == r + 1);
}

/// Positions that hold no backslash start no match: the arguments read
/// from `i` on are those read from the first backslash on.
pub proof fn lemma_args_skip(s: Seq<char>, k: Cmd, i: int, p: int)
    requires
        0 <= i <= p <= s.len(),
        forall|j: int| i <= j < p ==> s[j] != '\\',
    ensures
        cmd_args_from(s, k, i) == cmd_args_from(s, k, p),
    decreases p - i,
{
    if i < p {
        lemma_args_skip(s, k, i + 1, p);
    }
}

/// A command written out in full on a text whose part before it holds no
/// backslash is the first one read, and reading goes on after it.
pub proof fn lemma_written_read(
    pre: Seq<char>,
    k: Cmd,
    n: int,
    w: Seq<char>,
    a: Seq<char>,
    post: Seq<char>,
)
    requires
        0 <= n < cmd_names(k).len(),
        forall|j: int|
            0 <= j < n ==> (#[trigger] cmd_names(k)[j]).len() > 0 && cmd_names(k)[j][0]
                != cmd_names(k)[n][0],
        cmd_names(k)[n].len() > 0,
        forall|j: int| 0 <= j < w.len() ==> cmd_suffix(k).contains(#[trigger] w[j]),
        !cmd_suffix(k).contains('{'),
        a.len() > 0,
        !a.contains('}'),
        !pre.contains('\\'),
    ensures
        ({
            let c = written(cmd_names(k)[n], w, a);
            let s = pre + c + post;
            cmd_args(s, k) == seq![a] + cmd_args_from(s, k, (pre.len() + c.len()) as int)
        }),
{
    let c = written(cmd_names(k)[n], w, a);
    let s = pre + c + post;
    let p = pre.len() as int;
    assert forall|j: int| 0 <= j < p implies s[j] != '\\' by {
        assert(s[j] == pre[j]);
    }
    lemma_args_skip(s, k, 0, p);
    lemma_written_matched(pre, k, n, w, a, post);
    let q: int = p + 1 + cmd_names(k)[n].len() + w.len();
    assert(s.subrange(q + 1, q + 1 + a.len()) =~= a);
}

/// Skipping characters of a class from `i` stops within the text.
pub proof fn lemma_skip_class(s: Seq<char>, cs: Seq<char>, i: int)
    requires
        0 <= i <= s.len(),
    ensures
        i <= skip_class(s, cs, i) <= s.len(),
    decreases s.len() - i,
{
    if i < s.len() && cs.contains(s[i]) {
        lemma_skip_class(s, cs, i + 1);
    }
}

/// A braced argument after position `p` lies after `p` within the text, its closing brace right after its body.
pub proof fn lemma_arg_after(s: Seq<char>, k: Cmd, p: int)
    requires
        0 <= p <= s.len(),
    ensures
        match arg_after(s, k, p) {
            Some((a, b, e)) => p < a < b < e <= s.len() && e == b + 1,
            None => true,
        },
{
    lemma_skip_class(s, cmd_suffix(k), p);
    let q = skip_class(s, cmd_suffix(k), p);
    if 0 <= q < s.len() && s[q] == '{' {
        crate::text::lemma_find_char_from_props(s, '}', q + 1);
    }
}

/// A command matched at `i` (trying its names from the `n`-th) has its argument after `i` within the text.
pub proof fn lemma_cmd_match_from_name_bounds(s: Seq<char>, k: Cmd, i: int, n: int)
    requires
        0 <= i < s.len(),
    ensures
        match cmd_match_from_name(s, k, i, n) {
            Some((a, b, e)) => i < a < b < e <= s.len(),
            None => true,
        },
    decreases cmd_names(k).len() - n,
{
    if 0 <= n < cmd_names(k).len() {
        let name = cmd_names(k)[n];
        if crate::text::has_at(s, i + 1, name) {
            lemma_arg_after(s, k, i + 1 + name.len());
        }
        lemma_cmd_match_from_name_bounds(s, k, i, n + 1);
    }
}

/// A command matched at `i` has its argument after `i` within the text.
pub proof fn lemma_cmd_match_bounds(s: Seq<char>, k: Cmd, i: int)
    requires
        0 <= i < s.len(),
    ensures
        match cmd_match_at(s, k, i) {
            Some((a, b, e)) => i < a < b < e <= s.len(),
            None => true,
        },
{
    if s[i] == '\\' {
        lemma_cmd_match_from_name_bounds(s, k, i, 0);
    }
}

fn names_exec(k: Cmd) -> (r: Vec<Vec<char>>)
    ensures
        crate::text::views(r@) == cmd_names(k),
{
    let mut r: Vec<Vec<char>> = Vec::new();
    match k {
        Cmd::Cite => {
            r.push(chars_of("cite"));
        },
        Cmd::Label => {
            r.push(chars_of("label"));
        },
        Cmd::Ref => {
            r.push(chars_of("ref"));
            r.push(chars_of("eqref"));
            r.push(chars_of("autoref"));
            r.push(chars_of("cref"));
            r.push(chars_of("Cref"));
            r.push(chars_of("pageref"));
        },
        Cmd::Input => {
            r.push(chars_of("input"));
            r.push(chars_of("include"));
        },
        Cmd::TextBf => {
            r.push(chars_of("textbf"));
        },
        Cmd::Section => {
            r.push(chars_of("section"));
        },
        Cmd::Bibliography => {
            r.push(chars_of("bibliography"));
        },
    }
    assert(crate::text::views(r@) =~= cmd_names(k));
    r
}

fn in_suffix(k: Cmd, c: char) -> (r: bool)
    ensures
        r == cmd_suffix(k).contains(c),
{
    match k {
        Cmd::Cite => {
            let r = c == 'p' || c == 't' || c == 'a' || c == 'y';
            proof {
                let cs = cmd_suffix(k);
                if r {
                    if c == 'p' {
                        assert(cs[0] == c);
                    } else if c == 't' {
                        assert(cs[1] == c);
                    } else if c == 'a' {
                        assert(cs[2] == c);
                    } else {
                        assert(cs[3] == c);
                    }
                }
            }
            r
        },
        _ => false,
    }
}

fn arg_after_exec(s: &Vec<char>, k: Cmd, p: usize) -> (r: Option<(usize, usize, usize)>)
    requires
        p <= s.len(),
    ensures
        match r {
            Some((a, b, e)) => arg_after(s@, k, p as int) == Some((a as int, b as int, e as int)),
            None => arg_after(s@, k, p as int) is None,
        },
{
    let mut q = p;
    while q < s.len() && in_suffix(k, s[q])
        invariant
            p <= q <= s.len(),
            skip_class(s@, cmd_suffix(k), p as int) == skip_class(s@, cmd_suffix(k), q as int),
        decreases s.len() - q,
    {
        q = q + 1;
    }
    if q < s.len() && s[q] == '{' {
        proof {
            crate::text::lemma_find_char_from_props(s@, '}', q + 1);
        }
        match find_char_exec(s, '}', q + 1) {
            Some(r) => if r > q + 1 {
                Some((q + 1, r, r + 1))
            } else {
                None
            },
            None => None,
        }
    } else {
        None
    }
}

/// The match of `k` that starts at `i`, if any.
pub fn cmd_match_exec(s: &Vec<char>, k: Cmd, names: &Vec<Vec<char>>, i: usize) -> (r: Option<
    (usize, usize, usize),
>)
    requires
        crate::text::views(names@) == cmd_names(k),
        i < s.len(),
    ensures
        match r {
            Some((a, b, e)) => cmd_match_at(s@, k, i as int) == Some((a as int, b as int, e as int)),
            None => cmd_match_at(s@, k, i as int) is None,
        },
{
    if s[i] != '\\' {
        return None;
    }
    let mut n: usize = 0;
    while n < names.len()
        invariant
            0 <= n <= names.len(),
            i < s.len(),
            crate::text::views(names@) == cmd_names(k),
            cmd_match_at(s@, k, i as int) == cmd_match_from_name(s@, k, i as int, n as int),
        decreases names.len() - n,
    {
        let name = &names[n];
        assert(name@ == cmd_names(k)[n as int]);
        if has_at_exec(s, i + 1, name) {
            let m = arg_after_exec(s, k, i + 1 + name.len());
            match m {
                Some(r) => {
                    return Some(r);
                },
                None => {},
            }
        }
        n = n + 1;
    }
    None
}

/// The arguments of every match of `k` in `s`, left to right.
pub fn cmd_args_exec(s: &Vec<char>, k: Cmd) -> (r: Vec<Vec<char>>)
    ensures
        crate::text::views(r@) == cmd_args(s@, k),
{
    let names = names_exec(k);
    let mut r: Vec<Vec<char>> = Vec::new();
    let mut i: usize = 0;
    while i < s.len()
        invariant
            0 <= i <= s.len(),
            crate::text::views(names@) == cmd_names(k),
            crate::text::views(r@) + cmd_args_from(s@, k, i as int) == cmd_args(s@, k),
        decreases s.len() - i,
    {
        proof {
            lemma_cmd_match_bounds(s@, k, i as int);
        }
        match cmd_match_exec(s, k, &names, i) {
            Some((a, b, e)) => {
                let arg = slice_chars(s, a, b);
                let ghost old_r = r@;
                r.push(arg);
                proof {
                    crate::text::lemma_views_push(old_r, arg);
                    assert(crate::text::views(r@) + cmd_args_from(s@, k, e as int) =~= crate::text::views(
                        old_r,
                    ) + cmd_args_from(s@, k, i as int));
                }
                i = e;
            },
            None => {
                i = i + 1;
            },
        }
    }
    assert(cmd_args_from(s@, k, i as int) =~= seq![]);
    assert(crate::text::views(r@) + seq![] =~= crate::text::views(r@));
    r
}

// ---------------------------------------------------------------------------
// Environments
// ---------------------------------------------------------------------------

/// `open` at `i`, then the shortest body up to `close`: the body's bounds
/// and the end of the match (a lazy `open(.*?)close` search).
pub open spec fn env_match_at(s: Seq<char>, open: Seq<char>, close: Seq<char>, i: int) -> Option<
    (int, int, int),
> {
    if crate::text::has_at(s, i, open) {
        match crate::text::find_from(s, close, i + open.len()) {
            Some(j) => Some((i + open.len(), j, j + close.len())),
            None => None,
        }
    } else {
        None
    }
}

/// The bodies of the matches from `i` on.
pub open spec fn env_bodies_from(s: Seq<char>, open: Seq<char>, close: Seq<char>, i: int) -> Seq<
    Seq<char>,
>
    decreases s.len() - i,
{
    if i < 0 || i >= s.len() || open.len() == 0 {
        seq![]
    } else {
        proof {
            lemma_env_match_bounds(s, open, close, i);
        }
        match env_match_at(s, open, close, i) {
            Some((a, b, e)) => seq![s.subrange(a, b)] + env_bodies_from(s, open, close, e),
            None => env_bodies_from(s, open, close, i + 1),
        }
    }
}

/// The bodies of every `open ... close` span of `s`, left to right.
pub open spec fn env_bodies(s: Seq<char>, open: Seq<char>, close: Seq<char>) -> Seq<Seq<char>> {
    env_bodies_from(s, open, close, 0)
}

/// An environment matched at `i` has its body between its opening and its closing text.
pub proof fn lemma_env_match_bounds(s: Seq<char>, open: Seq<char>, close: Seq<char>, i: int)
    requires
        0 <= i,
        open.len() > 0,
    ensures
        match env_match_at(s, open, close, i) {
            Some((a, b, e)) => i < a <= b <= e <= s.len() && a == i + open.len() && e == b
                + close.len(),
            None => true,
        },
{
    if crate::text::has_at(s, i, open) {
        crate::text::lemma_find_from_props(s, close, i + open.len());
    }
}

/// The body of the match of `open ... close` at `i`, if any.
pub fn env_match_exec(s: &Vec<char>, open: &Vec<char>, close: &Vec<char>, i: usize) -> (r: Option<
    (usize, usize, usize),
>)
    requires
        open.len() > 0,
    ensures
        match r {
            Some((a, b, e)) => env_match_at(s@, open@, close@, i as int) == Some(
                (a as int, b as int, e as int),
            ),
            None => env_match_at(s@, open@, close@, i as int) is None,
        },
{
    if !has_at_exec(s, i, open) {
        return None;
    }
    assert(i + open@.len() <= s@.len());
    assert(i + open.len() <= s.len());
    proof {
        crate::text::lemma_find_from_props(s@, close@, i + open@.len());
    }
    match crate::text::find_from_exec(s, close, i + open.len()) {
        Some(j) => {
            assert(crate::text::has_at(s@, j as int, close@));
            assert(j + close.len() <= s.len());
            Some((i + open.len(), j, j + close.len()))
        },
        None => None,
    }
}

/// The bodies of every `open ... close` span, left to right.
pub fn env_bodies_exec(s: &Vec<char>, open: &Vec<char>, close: &Vec<char>) -> (r: Vec<Vec<char>>)
    requires
        open.len() > 0,
    ensures
        crate::text::views(r@) == env_bodies(s@, open@, close@),
{
    let mut r: Vec<Vec<char>> = Vec::new();
    let mut i: usize = 0;
    while i < s.len()
        invariant
            0 <= i <= s.len(),
            open.len() > 0,
            crate::text::views(r@) + env_bodies_from(s@, open@, close@, i as int) == env_bodies(
                s@,
                open@,
                close@,
            ),
        decreases s.len() - i,
    {
        proof {
            lemma_env_match_bounds(s@, open@, close@, i as int);
        }
        match env_match_exec(s, open, close, i) {
            Some((a, b, e)) => {
                let body = slice_chars(s, a, b);
                let ghost old_r = r@;
                r.push(body);
                proof {
                    crate::text::lemma_views_push(old_r, body);
                    assert(crate::text::views(r@) + env_bodies_from(s@, open@, close@, e as int)
                        =~= crate::text::views(old_r) + env_bodies_from(
                        s@,
                        open@,
                        close@,
                        i as int,
                    ));
                }
                i = e;
            },
            None => {
                i = i + 1;
            },
        }
    }
    assert(env_bodies_from(s@, open@, close@, i as int) =~= seq![]);
    assert(crate::text::views(r@) + seq![] =~= crate::text::views(r@));
    r
}

/// The body of the first `open ... close` span of `s`, if any.
pub open spec fn first_env_body(s: Seq<char>, open: Seq<char>, close: Seq<char>) -> Option<
    Seq<char>,
> {
    let b = env_bodies(s, open, close);
    if b.len() > 0 {
        Some(b[0])
    } else {
        None
    }
}

// ---------------------------------------------------------------------------
// Markdown bold
// ---------------------------------------------------------------------------

/// `**text**` at `i` (`\*\*([^*]+)\*\*`): the text's bounds and the end.
pub open spec fn bold_at(s: Seq<char>, i: int) -> Option<(int, int, int)> {
    if crate::text::has_at(s, i, "**"@) {
        match crate::text::find_char_from(s, '*', i + 2) {
            Some(r) => if r > i + 2 && crate::text::has_at(s, r, "**"@) {
                Some((i + 2, r, r + 2))
            } else {
                None
            },
            None => None,
        }
    } else {
        None
    }
}

/// The bold spans of `s` from `i` on, as (start, text start, text end, end).
pub open spec fn bolds_from(s: Seq<char>, i: int) -> Seq<(int, int, int, int)>
    decreases s.len() - i,
{
    if i < 0 || i >= s.len() {
        seq![]
    } else {
        proof {
            lemma_bold_bounds(s, i);
        }
        match bold_at(s, i) {
            Some((a, b, e)) => seq![(i, a, b, e)] + bolds_from(s, e),
            None => bolds_from(s, i + 1),
        }
    }
}

/// The texts of the bold spans of `s`, left to right.
pub open spec fn bold_texts(s: Seq<char>) -> Seq<Seq<char>> {
    bolds_from(s, 0).map_values(|m: (int, int, int, int)| s.subrange(m.1, m.2))
}

/// `s` from `i` on with each bold span replaced by one space.
pub open spec fn unbold_from(s: Seq<char>, i: int) -> Seq<char>
    decreases s.len() - i,
{
    if i < 0 || i >= s.len() {
        seq![]
    } else {
        proof {
            lemma_bold_bounds(s, i);
        }
        match bold_at(s, i) {
            Some((a, b, e)) => seq![' '] + unbold_from(s, e),
            None => seq![s[i]] + unbold_from(s, i + 1),
        }
    }
}

/// `s` with each bold span replaced by one space (`Regex::replace_all`).
pub open spec fn unbold(s: Seq<char>) -> Seq<char> {
    unbold_from(s, 0)
}

/// A bold span matched at `i` has a non-empty body between its two markers.
pub proof fn lemma_bold_bounds(s: Seq<char>, i: int)
    requires
        0 <= i,
    ensures
        match bold_at(s, i) {
            Some((a, b, e)) => a == i + 2 && a < b && e == b + 2 && e <= s.len(),
            None => true,
        },
{
    reveal_strlit("**");
    if crate::text::has_at(s, i, "**"@) {
        crate::text::lemma_find_char_from_props(s, '*', i + 2);
    }
}

fn bold_at_exec(s: &Vec<char>, stars: &Vec<char>, i: usize) -> (r: Option<(usize, usize, usize)>)
    requires
        stars@ == "**"@,
    ensures
        match r {
            Some((a, b, e)) => bold_at(s@, i as int) == Some((a as int, b as int, e as int)),
            None => bold_at(s@, i as int) is None,
        },
{
    proof {
        reveal_strlit("**");
    }
    if !has_at_exec(s, i, stars) {
        return None;
    }
    assert(stars@.len() == 2);
    assert(i + 2 <= s@.len());
    assert(i + 2 <= s.len());
    proof {
        crate::text::lemma_find_char_from_props(s@, '*', i + 2);
    }
    match find_char_exec(s, '*', i + 2) {
        Some(r) => if r > i + 2 && has_at_exec(s, r, stars) {
            assert(r + 2 <= s@.len());
            assert(r + 2 <= s.len());
            Some((i + 2, r, r + 2))
        } else {
            None
        },
        None => None,
    }
}

/// The texts of the bold spans, and the line with each replaced by a space.
pub fn bold_scan(s: &Vec<char>) -> (r: (Vec<Vec<char>>, Vec<char>))
    ensures
        crate::text::views(r.0@) == bold_texts(s@),
        r.1@ == unbold(s@),
{
    let stars = chars_of("**");
    let mut texts: Vec<Vec<char>> = Vec::new();
    let mut out: Vec<char> = Vec::new();
    let mut i: usize = 0;
    let ghost mut spans: Seq<(int, int, int, int)> = seq![];
    while i < s.len()
        invariant
            0 <= i <= s.len(),
            stars@ == "**"@,
            spans + bolds_from(s@, i as int) == bolds_from(s@, 0),
            crate::text::views(texts@) == spans.map_values(
                |m: (int, int, int, int)| s@.subrange(m.1, m.2),
            ),
            out@ + unbold_from(s@, i as int) == unbold(s@),
        decreases s.len() - i,
    {
        proof {
            lemma_bold_bounds(s@, i as int);
        }
        match bold_at_exec(s, &stars, i) {
            Some((a, b, e)) => {
                let t = slice_chars(s, a, b);
                let ghost old_t = texts@;
                let ghost old_spans = spans;
                texts.push(t);
                let ghost old_out = out@;
                out.push(' ');
                proof {
                    spans = spans.push((i as int, a as int, b as int, e as int));
                    crate::text::lemma_views_push(old_t, t);
                    assert(spans + bolds_from(s@, e as int) =~= old_spans + bolds_from(
                        s@,
                        i as int,
                    ));
                    assert(spans.map_values(|m: (int, int, int, int)| s@.subrange(m.1, m.2))
                        =~= old_spans.map_values(|m: (int, int, int, int)| s@.subrange(m.1, m.2)).push(
                        t@,
                    ));
                    assert(out@ + unbold_from(s@, e as int) =~= old_out + unbold_from(
                        s@,
                        i as int,
                    ));
                }
                i = e;
            },
            None => {
                let ghost old_out = out@;
                out.push(s[i]);
                proof {
                    assert(out@ + unbold_from(s@, i + 1) =~= old_out + unbold_from(s@, i as int));
                }
                i = i + 1;
            },
        }
    }
    proof {
        assert(bolds_from(s@, i as int) =~= seq![]);
        assert(spans =~= bolds_from(s@, 0));
        assert(unbold_from(s@, i as int) =~= seq![]);
        assert(out@ =~= unbold(s@));
    }
    (texts, out)
}

} // verus!
