//! Character-level text operations used across the crate: Unicode whitespace,
//! trimming, line splitting, searching and byte-length arithmetic, each with
//! a spec function that says what it computes.
use vstd::prelude::*;

verus! {

/// `String::push` appends one character.
pub assume_specification[ String::push ](s: &mut String, ch: char)
    ensures
        final(s)@ == old(s)@.push(ch),
;

// ---------------------------------------------------------------------------
// Specifications
// ---------------------------------------------------------------------------

/// The Unicode `White_Space` characters (what `char::is_whitespace` and the
/// regex class `\s` accept).
pub open spec fn is_ws(c: char) -> bool {
    let u: u32 = c as u32;
    ||| (0x09 <= u && u <= 0x0D)
    ||| u == 0x20
    ||| u == 0x85
    ||| u == 0xA0
    ||| u == 0x1680
    ||| (0x2000 <= u && u <= 0x200A)
    ||| u == 0x2028
    ||| u == 0x2029
    ||| u == 0x202F
    ||| u == 0x205F
    ||| u == 0x3000
}

/// Number of leading whitespace characters of `s`.
pub open spec fn lead_ws(s: Seq<char>) -> nat
    decreases s.len(),
{
    if s.len() > 0 && is_ws(s[0]) {
        1 + lead_ws(s.drop_first())
    } else {
        0
    }
}

/// Number of trailing whitespace characters of `s`.
pub open spec fn trail_ws(s: Seq<char>) -> nat
    decreases s.len(),
{
    if s.len() > 0 && is_ws(s.last()) {
        1 + trail_ws(s.drop_last())
    } else {
        0
    }
}

/// `str::trim_start`.
pub open spec fn trim_start(s: Seq<char>) -> Seq<char> {
    s.skip(lead_ws(s) as int)
}

/// `str::trim_end`.
pub open spec fn trim_end(s: Seq<char>) -> Seq<char> {
    s.take(s.len() - trail_ws(s))
}

/// `str::trim`.
pub open spec fn trim(s: Seq<char>) -> Seq<char> {
    trim_end(trim_start(s))
}

/// `s` has `p` at position `i`.
pub open spec fn has_at(s: Seq<char>, i: int, p: Seq<char>) -> bool {
    0 <= i && i + p.len() <= s.len() && s.subrange(i, i + p.len()) == p
}

/// `str::starts_with`.
pub open spec fn starts_with(s: Seq<char>, p: Seq<char>) -> bool {
    has_at(s, 0, p)
}

/// `str::contains` for a string pattern.
pub open spec fn contains(s: Seq<char>, p: Seq<char>) -> bool {
    exists|i: int| has_at(s, i, p)
}

/// The first position at or after `i` where `p` occurs in `s`, if any.
pub open spec fn find_from(s: Seq<char>, p: Seq<char>, i: int) -> Option<int>
    decreases s.len() + 1 - i,
{
    if i < 0 || i + p.len() > s.len() {
        None
    } else if has_at(s, i, p) {
        Some(i)
    } else {
        find_from(s, p, i + 1)
    }
}

/// The first position at or after `i` holding the character `c`, if any.
pub open spec fn find_char_from(s: Seq<char>, c: char, i: int) -> Option<int>
    decreases s.len() - i,
{
    if i < 0 || i >= s.len() {
        None
    } else if s[i] == c {
        Some(i)
    } else {
        find_char_from(s, c, i + 1)
    }
}

/// Bytes that `c` takes in UTF-8.
pub open spec fn utf8_width(c: char) -> nat {
    let u: u32 = c as u32;
    if u < 0x80 {
        1
    } else if u < 0x800 {
        2
    } else if u < 0x10000 {
        3
    } else {
        4
    }
}

/// Byte length of the UTF-8 encoding of `s` (what `str::len` returns).
pub open spec fn utf8_len(s: Seq<char>) -> nat
    decreases s.len(),
{
    if s.len() == 0 {
        0
    } else {
        utf8_len(s.drop_last()) + utf8_width(s.last())
    }
}

/// Byte offset `k` of the UTF-8 encoding of `s` falls between two characters
/// (`str::is_char_boundary`).
pub open spec fn is_boundary(s: Seq<char>, k: int) -> bool {
    exists|n: int| 0 <= n <= s.len() && utf8_len(#[trigger] s.take(n)) == k
}

/// `str::replace` of one character by another.
pub open spec fn replace_char(s: Seq<char>, from: char, to: char) -> Seq<char> {
    s.map_values(|c: char| if c == from { to } else { c })
}

/// ASCII lower-casing of one character.
pub open spec fn ascii_lower_char(c: char) -> char {
    if 'A' <= c && c <= 'Z' {
        (((c as u8) + 32) as u8) as char
    } else {
        c
    }
}

/// ASCII lower-casing of `s`.
pub open spec fn ascii_lower(s: Seq<char>) -> Seq<char> {
    s.map_values(|c: char| ascii_lower_char(c))
}

/// The line that starts at `i` ends (exclusive of the newline) at the first
/// newline at or after `i`, or at the end of `s`.
pub open spec fn line_end(s: Seq<char>, i: int) -> int {
    match find_char_from(s, '\n', i) {
        Some(j) => j,
        None => s.len() as int,
    }
}

/// A line as `str::lines` yields it: a trailing carriage return is dropped
/// only when the line was ended by a newline.
pub open spec fn line_at(s: Seq<char>, i: int) -> Seq<char> {
    let e = line_end(s, i);
    let raw = s.subrange(i, e);
    if e < s.len() && raw.len() > 0 && raw.last() == '\r' {
        raw.drop_last()
    } else {
        raw
    }
}

/// `str::lines` of the suffix of `s` that starts at `i`.
pub open spec fn lines_from(s: Seq<char>, i: int) -> Seq<Seq<char>>
    decreases s.len() + 1 - i,
{
    if i < 0 || i >= s.len() {
        seq![]
    } else {
        proof {
            lemma_find_char_from_props(s, '\n', i);
            assert(line_end(s, i) >= i);
        }
        seq![line_at(s, i)] + lines_from(s, line_end(s, i) + 1)
    }
}

/// `str::lines`.
pub open spec fn lines(s: Seq<char>) -> Seq<Seq<char>> {
    lines_from(s, 0)
}

/// `str::split` on the character `d`, for the suffix that starts at `i`.
pub open spec fn split_from(s: Seq<char>, d: char, i: int) -> Seq<Seq<char>>
    decreases s.len() - i,
{
    if i < 0 || i > s.len() {
        seq![]
    } else {
        proof {
            lemma_find_char_from_props(s, d, i);
        }
        match find_char_from(s, d, i) {
            Some(j) => seq![s.subrange(i, j)] + split_from(s, d, j + 1),
            None => seq![s.subrange(i, s.len() as int)],
        }
    }
}

/// `str::split` on the character `d`.
pub open spec fn split_char(s: Seq<char>, d: char) -> Seq<Seq<char>> {
    split_from(s, d, 0)
}

/// Concatenation of `parts` with `sep` between them (`[T]::join`).
pub open spec fn join(parts: Seq<Seq<char>>, sep: Seq<char>) -> Seq<char>
    decreases parts.len(),
{
    if parts.len() == 0 {
        seq![]
    } else if parts.len() == 1 {
        parts[0]
    } else {
        join(parts.drop_last(), sep) + sep + parts.last()
    }
}

// ---------------------------------------------------------------------------
// Lemmas
// ---------------------------------------------------------------------------

/// `lead_ws` counts whitespace characters only, and stops before one that is not.
pub proof fn lemma_lead_ws_bound(s: Seq<char>)
    ensures
        lead_ws(s) <= s.len(),
        forall|k: int| 0 <= k < lead_ws(s) ==> is_ws(#[trigger] s[k]),
        lead_ws(s) < s.len() ==> !is_ws(s[lead_ws(s) as int]),
    decreases s.len(),
{
    if s.len() > 0 && is_ws(s[0]) {
        lemma_lead_ws_bound(s.drop_first());
        assert forall|k: int| 0 <= k < lead_ws(s) implies is_ws(#[trigger] s[k]) by {
            if k > 0 {
                assert(s[k] == s.drop_first()[k - 1]);
            }
        }
    }
}

/// `trail_ws` counts whitespace characters only, and stops after one that is not.
pub proof fn lemma_trail_ws_bound(s: Seq<char>)
    ensures
        trail_ws(s) <= s.len(),
        forall|k: int| s.len() - trail_ws(s) <= k < s.len() ==> is_ws(#[trigger] s[k]),
        trail_ws(s) < s.len() ==> !is_ws(s[s.len() - trail_ws(s) - 1]),
    decreases s.len(),
{
    if s.len() > 0 && is_ws(s.last()) {
        lemma_trail_ws_bound(s.drop_last());
        assert forall|k: int| s.len() - trail_ws(s) <= k < s.len() implies is_ws(
            #[trigger] s[k],
        ) by {
            if k < s.len() - 1 {
                assert(s[k] == s.drop_last()[k]);
            }
        }
    }
}

/// `lead_ws` is the length of the maximal whitespace prefix.
pub proof fn lemma_lead_ws_unique(s: Seq<char>, n: int)
    requires
        0 <= n <= s.len(),
        forall|k: int| 0 <= k < n ==> is_ws(#[trigger] s[k]),
        n < s.len() ==> !is_ws(s[n]),
    ensures
        lead_ws(s) == n,
    decreases s.len(),
{
    if n > 0 {
        assert(is_ws(s[0]));
        assert forall|k: int| 0 <= k < n - 1 implies is_ws(#[trigger] s.drop_first()[k]) by {
            assert(s.drop_first()[k] == s[k + 1]);
        }
        lemma_lead_ws_unique(s.drop_first(), n - 1);
    }
}

/// `trail_ws` is the length of the maximal whitespace suffix.
pub proof fn lemma_trail_ws_unique(s: Seq<char>, n: int)
    requires
        0 <= n <= s.len(),
        forall|k: int| s.len() - n <= k < s.len() ==> is_ws(#[trigger] s[k]),
        n < s.len() ==> !is_ws(s[s.len() - n - 1]),
    ensures
        trail_ws(s) == n,
    decreases s.len(),
{
    if n > 0 {
        assert(is_ws(s[s.len() - 1]));
        assert forall|k: int| s.len() - 1 - (n - 1) <= k < s.len() - 1 implies is_ws(
            #[trigger] s.drop_last()[k],
        ) by {
            assert(s.drop_last()[k] == s[k]);
        }
        lemma_trail_ws_unique(s.drop_last(), n - 1);
    }
}

/// `find_char_from` gives the first position from `i` on that holds `c`, or `None` when there is none.
pub proof fn lemma_find_char_from_props(s: Seq<char>, c: char, i: int)
    requires
        0 <= i,
    ensures
        match find_char_from(s, c, i) {
            Some(j) => i <= j < s.len() && s[j] == c && forall|k: int| i <= k < j ==> s[k] != c,
            None => forall|k: int| i <= k < s.len() ==> s[k] != c,
        },
    decreases s.len() - i,
{
    if i < s.len() && s[i] != c {
        lemma_find_char_from_props(s, c, i + 1);
    }
}

/// Starting the search for `c` anywhere before its first occurrence gives the same answer.
pub proof fn lemma_find_char_from_unique(s: Seq<char>, c: char, i: int, j: int)
    requires
        0 <= i <= j <= s.len(),
        forall|k: int| i <= k < j ==> s[k] != c,
    ensures
        find_char_from(s, c, i) == find_char_from(s, c, j),
    decreases j - i,
{
    if i < j {
        lemma_find_char_from_unique(s, c, i + 1, j);
    }
}

/// `find_from` gives the first position from `i` on where `p` occurs, or `None` when there is none.
pub proof fn lemma_find_from_props(s: Seq<char>, p: Seq<char>, i: int)
    requires
        0 <= i,
    ensures
        match find_from(s, p, i) {
            Some(j) => i <= j && has_at(s, j, p) && forall|k: int| i <= k < j ==> !has_at(s, k, p),
            None => forall|k: int| i <= k ==> !has_at(s, k, p),
        },
    decreases s.len() + 1 - i,
{
    if i + p.len() <= s.len() && !has_at(s, i, p) {
        lemma_find_from_props(s, p, i + 1);
    }
}

/// Starting the search for `p` anywhere before its first occurrence gives the same answer.
pub proof fn lemma_find_from_skip(s: Seq<char>, p: Seq<char>, i: int, j: int)
    requires
        0 <= i <= j,
        forall|k: int| i <= k < j ==> !has_at(s, k, p),
    ensures
        find_from(s, p, i) == find_from(s, p, j),
    decreases j - i,
{
    if i < j {
        if i + p.len() > s.len() {
            // both none
            lemma_find_from_props(s, p, j);
            lemma_find_from_props(s, p, i);
            if find_from(s, p, j) is Some {
                assert(false);
            }
        } else {
            lemma_find_from_skip(s, p, i + 1, j);
        }
    }
}

// ---------------------------------------------------------------------------
// Executable operations
// ---------------------------------------------------------------------------

/// `char::is_whitespace`, written out.
pub fn is_ws_char(c: char) -> (r: bool)
    ensures
        r == is_ws(c),
{
    let u: u32 = c as u32;
    (0x09 <= u && u <= 0x0D) || u == 0x20 || u == 0x85 || u == 0xA0 || u == 0x1680 || (0x2000
        <= u && u <= 0x200A) || u == 0x2028 || u == 0x2029 || u == 0x202F || u == 0x205F || u
        == 0x3000
}

/// The characters of `s`, in order.
pub fn chars_of(s: &str) -> (r: Vec<char>)
    ensures
        r@ == s@,
{
    let mut r: Vec<char> = Vec::new();
    for c in it: s.chars()
        invariant
            r@ == it.seq().take(it.index() as int),
            it.seq() == s@,
    {
        r.push(c);
    }
    r
}

/// A `String` holding the characters `v[from..to]`.
pub fn string_of_range(v: &Vec<char>, from: usize, to: usize) -> (r: String)
    requires
        from <= to <= v.len(),
    ensures
        r@ == v@.subrange(from as int, to as int),
{
    let mut r = String::new();
    let mut i: usize = from;
    while i < to
        invariant
            from <= i <= to <= v.len(),
            r@ == v@.subrange(from as int, i as int),
        decreases to - i,
    {
        r.push(v[i]);
        i = i + 1;
        assert(r@ =~= v@.subrange(from as int, i as int));
    }
    r
}

/// A `String` holding the characters of `v`.
pub fn string_of(v: &Vec<char>) -> (r: String)
    ensures
        r@ == v@,
{
    let r = string_of_range(v, 0, v.len());
    assert(v@.subrange(0, v@.len() as int) =~= v@);
    r
}

/// Appends the characters of `t` to `out`.
pub fn push_all(out: &mut Vec<char>, t: &Vec<char>)
    ensures
        final(out)@ == old(out)@ + t@,
{
    let mut i: usize = 0;
    while i < t.len()
        invariant
            0 <= i <= t.len(),
            out@ == old(out)@ + t@.take(i as int),
        decreases t.len() - i,
    {
        out.push(t[i]);
        i = i + 1;
        assert(out@ =~= old(out)@ + t@.take(i as int));
    }
    assert(t@.take(t.len() as int) =~= t@);
}

/// Appends the characters of `t` to `out`.
pub fn push_str(out: &mut Vec<char>, t: &str)
    ensures
        final(out)@ == old(out)@ + t@,
{
    let tc = chars_of(t);
    push_all(out, &tc);
}

/// Whether `v` holds `p` at position `i`.
pub fn has_at_exec(v: &Vec<char>, i: usize, p: &Vec<char>) -> (r: bool)
    ensures
        r == has_at(v@, i as int, p@),
{
    if i > v.len() || p.len() > v.len() - i {
        return false;
    }
    let mut k: usize = 0;
    while k < p.len()
        invariant
            i + p.len() <= v.len(),
            0 <= k <= p.len(),
            forall|m: int| 0 <= m < k ==> v@[i + m] == p@[m],
        decreases p.len() - k,
    {
        if v[i + k] != p[k] {
            assert(v@.subrange(i as int, i + p.len())[k as int] != p@[k as int]);
            return false;
        }
        k = k + 1;
    }
    assert(v@.subrange(i as int, i + p.len()) =~= p@);
    true
}

/// Whether `v` holds the string `p` at position `i`.
pub fn has_str_at(v: &Vec<char>, i: usize, p: &str) -> (r: bool)
    ensures
        r == has_at(v@, i as int, p@),
{
    let pc = chars_of(p);
    has_at_exec(v, i, &pc)
}

/// `str::starts_with` on characters.
pub fn starts_with_str(v: &Vec<char>, p: &str) -> (r: bool)
    ensures
        r == starts_with(v@, p@),
{
    has_str_at(v, 0, p)
}

/// The first position at or after `i` where `p` occurs in `v`.
pub fn find_from_exec(v: &Vec<char>, p: &Vec<char>, i: usize) -> (r: Option<usize>)
    ensures
        match r {
            Some(j) => find_from(v@, p@, i as int) == Some(j as int),
            None => find_from(v@, p@, i as int) is None,
        },
{
    if p.len() == 0 {
        if i <= v.len() {
            assert(v@.subrange(i as int, i as int) =~= p@);
            return Some(i);
        } else {
            return None;
        }
    }
    let mut k: usize = i;
    while p.len() <= v.len() && k <= v.len() - p.len()
        invariant
            i <= k,
            p.len() > 0,
            find_from(v@, p@, i as int) == find_from(v@, p@, k as int),
        decreases v.len() + 1 - k,
    {
        if has_at_exec(v, k, p) {
            return Some(k);
        }
        k = k + 1;
    }
    None
}

/// The first position at or after `i` where the string `p` occurs in `v`.
pub fn find_str_from(v: &Vec<char>, p: &str, i: usize) -> (r: Option<usize>)
    ensures
        match r {
            Some(j) => find_from(v@, p@, i as int) == Some(j as int),
            None => find_from(v@, p@, i as int) is None,
        },
{
    let pc = chars_of(p);
    find_from_exec(v, &pc, i)
}

/// `str::contains`.
pub fn contains_exec(v: &Vec<char>, p: &Vec<char>) -> (r: bool)
    ensures
        r == contains(v@, p@),
{
    let f = find_from_exec(v, p, 0);
    proof {
        lemma_find_from_props(v@, p@, 0);
    }
    match f {
        Some(_) => true,
        None => {
            assert forall|k: int| !has_at(v@, k, p@) by {
                if k >= 0 {
                }
            }
            false
        },
    }
}

/// `str::contains` with a string pattern.
pub fn contains_str(v: &Vec<char>, p: &str) -> (r: bool)
    ensures
        r == contains(v@, p@),
{
    let pc = chars_of(p);
    contains_exec(v, &pc)
}

/// `str::contains` with a character pattern.
pub fn contains_char(v: &Vec<char>, c: char) -> (r: bool)
    ensures
        r == v@.contains(c),
{
    let mut k: usize = 0;
    while k < v.len()
        invariant
            0 <= k <= v.len(),
            forall|m: int| 0 <= m < k ==> v@[m] != c,
        decreases v.len() - k,
    {
        if v[k] == c {
            return true;
        }
        k = k + 1;
    }
    false
}

/// The first position at or after `i` holding `c`.
pub fn find_char_exec(v: &Vec<char>, c: char, i: usize) -> (r: Option<usize>)
    ensures
        match r {
            Some(j) => find_char_from(v@, c, i as int) == Some(j as int),
            None => find_char_from(v@, c, i as int) is None,
        },
{
    let mut k: usize = i;
    while k < v.len()
        invariant
            i <= k,
            find_char_from(v@, c, i as int) == find_char_from(v@, c, k as int),
        decreases v.len() - k,
    {
        if v[k] == c {
            return Some(k);
        }
        k = k + 1;
    }
    None
}

/// `str::trim` on characters.
pub fn trim_exec(v: &Vec<char>) -> (r: Vec<char>)
    ensures
        r@ == trim(v@),
{
    let n: usize = v.len();
    let mut a: usize = 0;
    while a < n && is_ws_char(v[a])
        invariant
            0 <= a <= n == v.len(),
            forall|k: int| 0 <= k < a ==> is_ws(#[trigger] v@[k]),
        decreases n - a,
    {
        a = a + 1;
    }
    proof {
        lemma_lead_ws_unique(v@, a as int);
    }
    let ghost t = v@.skip(a as int);
    let mut b: usize = n;
    while b > a && is_ws_char(v[b - 1])
        invariant
            a <= b <= n == v.len(),
            t == v@.skip(a as int),
            forall|k: int| b <= k < n ==> is_ws(#[trigger] v@[k]),
        decreases b - a,
    {
        b = b - 1;
    }
    proof {
        assert forall|k: int| t.len() - (n - b) <= k < t.len() implies is_ws(#[trigger] t[k]) by {
            assert(t[k] == v@[k + a]);
        }
        if n - b < t.len() {
            assert(t[t.len() - (n - b) - 1] == v@[b - 1]);
        }
        lemma_trail_ws_unique(t, (n - b) as int);
    }
    let mut r: Vec<char> = Vec::new();
    let mut k: usize = a;
    while k < b
        invariant
            a <= k <= b <= n == v.len(),
            r@ == v@.subrange(a as int, k as int),
        decreases b - k,
    {
        r.push(v[k]);
        k = k + 1;
        assert(r@ =~= v@.subrange(a as int, k as int));
    }
    assert(r@ =~= trim(v@));
    r
}

/// The width in bytes of `c` in UTF-8 (`char::len_utf8`).
pub fn utf8_width_exec(c: char) -> (r: usize)
    ensures
        r == utf8_width(c),
{
    let u: u32 = c as u32;
    if u < 0x80 {
        1
    } else if u < 0x800 {
        2
    } else if u < 0x10000 {
        3
    } else {
        4
    }
}

/// Whether the UTF-8 encoding of `v` is longer than `k` bytes.
pub fn utf8_len_gt(v: &Vec<char>, k: usize) -> (r: bool)
    requires
        k <= usize::MAX - 4,
    ensures
        r == (utf8_len(v@) > k),
{
    let mut acc: usize = 0;
    let mut i: usize = 0;
    while i < v.len()
        invariant
            0 <= i <= v.len(),
            k <= usize::MAX - 4,
            acc == utf8_len(v@.take(i as int)),
            acc <= k,
        decreases v.len() - i,
    {
        proof {
            assert(v@.take(i + 1).drop_last() =~= v@.take(i as int));
        }
        acc = acc + utf8_width_exec(v[i]);
        i = i + 1;
        if acc > k {
            proof {
                lemma_utf8_len_prefix_le(v@, i as int);
            }
            return true;
        }
    }
    assert(v@.take(v.len() as int) =~= v@);
    false
}

/// A prefix takes no more bytes than the whole text.
pub proof fn lemma_utf8_len_prefix_le(s: Seq<char>, i: int)
    requires
        0 <= i <= s.len(),
    ensures
        utf8_len(s.take(i)) <= utf8_len(s),
    decreases s.len() - i,
{
    if i < s.len() {
        lemma_utf8_len_prefix_le(s, i + 1);
        assert(s.take(i + 1).drop_last() =~= s.take(i));
    } else {
        assert(s.take(i) =~= s);
    }
}

/// The byte length of `v` in UTF-8 (`str::len`).
pub fn utf8_len_exec(v: &Vec<char>) -> (r: usize)
    requires
        utf8_len(v@) <= usize::MAX,
    ensures
        r == utf8_len(v@),
{
    let mut acc: usize = 0;
    let mut i: usize = 0;
    while i < v.len()
        invariant
            0 <= i <= v.len(),
            utf8_len(v@) <= usize::MAX,
            acc == utf8_len(v@.take(i as int)),
        decreases v.len() - i,
    {
        proof {
            assert(v@.take(i + 1).drop_last() =~= v@.take(i as int));
            lemma_utf8_len_prefix_le(v@, i + 1);
        }
        acc = acc + utf8_width_exec(v[i]);
        i = i + 1;
    }
    assert(v@.take(v.len() as int) =~= v@);
    acc
}


/// The character sequences held by a sequence of character vectors.
pub open spec fn views(v: Seq<Vec<char>>) -> Seq<Seq<char>> {
    v.map_values(|x: Vec<char>| x@)
}

/// The views of character vectors follow a push.
pub proof fn lemma_views_push(v: Seq<Vec<char>>, x: Vec<char>)
    ensures
        views(v.push(x)) == views(v).push(x@),
{
    assert(views(v.push(x)) =~= views(v).push(x@));
}

/// The characters `v[from..to]`.
pub fn slice_chars(v: &Vec<char>, from: usize, to: usize) -> (r: Vec<char>)
    requires
        from <= to <= v.len(),
    ensures
        r@ == v@.subrange(from as int, to as int),
{
    let mut r: Vec<char> = Vec::new();
    let mut k: usize = from;
    while k < to
        invariant
            from <= k <= to <= v.len(),
            r@ == v@.subrange(from as int, k as int),
        decreases to - k,
    {
        r.push(v[k]);
        k = k + 1;
        assert(r@ =~= v@.subrange(from as int, k as int));
    }
    r
}

/// `str::lines` on characters.
pub fn split_lines(v: &Vec<char>) -> (r: Vec<Vec<char>>)
    ensures
        views(r@) == lines(v@),
{
    let mut r: Vec<Vec<char>> = Vec::new();
    let mut i: usize = 0;
    while i < v.len()
        invariant
            0 <= i <= v.len(),
            views(r@) + lines_from(v@, i as int) == lines(v@),
        decreases v.len() - i,
    {
        let e: usize = match find_char_exec(v, '\n', i) {
            Some(j) => j,
            None => v.len(),
        };
        proof {
            lemma_find_char_from_props(v@, '\n', i as int);
        }
        assert(e as int == line_end(v@, i as int));
        let mut line = slice_chars(v, i, e);
        if e < v.len() && line.len() > 0 && line[line.len() - 1] == '\r' {
            line.pop();
            assert(line@ =~= v@.subrange(i as int, e as int).drop_last());
        }
        assert(line@ == line_at(v@, i as int));
        let ghost old_r = r@;
        r.push(line);
        proof {
            lemma_views_push(old_r, line);
            assert(lines_from(v@, i as int) == seq![line_at(v@, i as int)] + lines_from(v@, e + 1));
            assert(views(r@) + lines_from(v@, e + 1) =~= views(old_r) + lines_from(v@, i as int));
        }
        if e == v.len() {
            i = v.len();
            assert(lines_from(v@, e + 1) =~= seq![]);
            assert(lines_from(v@, i as int) =~= seq![]);
        } else {
            i = e + 1;
        }
    }
    assert(lines_from(v@, i as int) =~= seq![]);
    assert(views(r@) + seq![] =~= views(r@));
    r
}

/// `str::split` on a character, on characters.
pub fn split_char_exec(v: &Vec<char>, d: char) -> (r: Vec<Vec<char>>)
    ensures
        views(r@) == split_char(v@, d),
{
    let mut r: Vec<Vec<char>> = Vec::new();
    let mut i: usize = 0;
    loop
        invariant
            0 <= i <= v.len(),
            views(r@) + split_from(v@, d, i as int) == split_char(v@, d),
        decreases v.len() - i,
    {
        proof {
            lemma_find_char_from_props(v@, d, i as int);
        }
        let f = find_char_exec(v, d, i);
        match f {
            Some(j) => {
                let piece = slice_chars(v, i, j);
                let ghost old_r = r@;
                r.push(piece);
                proof {
                    lemma_views_push(old_r, piece);
                    assert(views(r@) + split_from(v@, d, j + 1) =~= views(old_r) + split_from(
                        v@,
                        d,
                        i as int,
                    ));
                }
                i = j + 1;
            },
            None => {
                let piece = slice_chars(v, i, v.len());
                let ghost old_r = r@;
                r.push(piece);
                proof {
                    lemma_views_push(old_r, piece);
                    assert(views(r@) =~= views(old_r) + split_from(v@, d, i as int));
                }
                return r;
            },
        }
    }
}


/// `Path::join` on Unix paths held as text: an absolute `rel` replaces
/// `base`; otherwise a `/` separates the two unless `base` is empty or
/// already ends in one.
pub open spec fn join_path(base: Seq<char>, rel: Seq<char>) -> Seq<char> {
    if rel.len() > 0 && rel[0] == '/' {
        rel
    } else if base.len() == 0 {
        rel
    } else if base.last() == '/' {
        base + rel
    } else {
        base + seq!['/'] + rel
    }
}

/// `Path::join` on Unix paths held as text.
pub fn join_path_exec(base: &Vec<char>, rel: &Vec<char>) -> (r: Vec<char>)
    ensures
        r@ == join_path(base@, rel@),
{
    if rel.len() > 0 && rel[0] == '/' {
        return rel.clone();
    }
    let mut out = base.clone();
    if base.len() > 0 && base[base.len() - 1] != '/' {
        out.push('/');
    }
    push_all(&mut out, rel);
    proof {
        if base@.len() > 0 && base@.last() != '/' {
            assert(out@ =~= base@ + seq!['/'] + rel@);
        } else {
            assert(out@ =~= base@ + rel@);
        }
    }
    out
}

/// Whether `v` and `p` hold the same characters.
pub fn equals_str(v: &Vec<char>, p: &str) -> (r: bool)
    ensures
        r == (v@ == p@),
{
    let pc = chars_of(p);
    if pc.len() != v.len() {
        return false;
    }
    let r = has_at_exec(v, 0, &pc);
    proof {
        assert(v@.subrange(0, pc@.len() as int) =~= v@);

    }
    r
}

/// ASCII lower-casing.
pub fn ascii_lower_exec(v: &Vec<char>) -> (r: Vec<char>)
    ensures
        r@ == ascii_lower(v@),
{
    let mut r: Vec<char> = Vec::new();
    let mut i: usize = 0;
    while i < v.len()
        invariant
            0 <= i <= v.len(),
            r@ == ascii_lower(v@.take(i as int)),
        decreases v.len() - i,
    {
        let c = v[i];
        let l = if 'A' <= c && c <= 'Z' {
            ((c as u8) + 32u8) as char
        } else {
            c
        };
        r.push(l);
        i = i + 1;
        assert(r@ =~= ascii_lower(v@.take(i as int)));
    }
    assert(v@.take(v.len() as int) =~= v@);
    r
}


/// Each character takes at least one byte.
pub proof fn lemma_utf8_len_take_mono(s: Seq<char>, a: int, b: int)
    requires
        0 <= a <= b <= s.len(),
    ensures
        utf8_len(s.take(a)) + (b - a) <= utf8_len(s.take(b)),
    decreases b - a,
{
    if a < b {
        lemma_utf8_len_take_mono(s, a, b - 1);
        assert(s.take(b).drop_last() =~= s.take(b - 1));
    }
}

/// The prefix of `v` whose encoding is exactly `k` bytes long, when `k` falls
/// between two characters.
pub fn byte_prefix(v: &Vec<char>, k: usize) -> (r: Option<Vec<char>>)
    ensures
        match r {
            Some(p) => p@.is_prefix_of(v@) && utf8_len(p@) == k,
            None => !is_boundary(v@, k as int),
        },
{
    let mut acc: usize = 0;
    let mut i: usize = 0;
    while i < v.len() && acc < k
        invariant
            0 <= i <= v.len(),
            acc == utf8_len(v@.take(i as int)),
            acc <= k,
        decreases v.len() - i,
    {
        proof {
            assert(v@.take(i + 1).drop_last() =~= v@.take(i as int));
        }
        let w = utf8_width_exec(v[i]);
        if w > k - acc {
            proof {
                assert forall|n: int| 0 <= n <= v@.len() implies utf8_len(#[trigger] v@.take(n))
                    != k by {
                    if n <= i {
                        lemma_utf8_len_take_mono(v@, n, i as int);
                        if n < i {
                        } else {
                        }
                        if utf8_len(v@.take(n)) == k {
                            assert(acc >= k);
                            assert(false);
                        }
                    } else {
                        lemma_utf8_len_take_mono(v@, i + 1, n);
                    }
                }
            }
            return None;
        }
        acc = acc + w;
        i = i + 1;
    }
    if acc == k {
        let p = slice_chars(v, 0, i);
        assert(p@ =~= v@.take(i as int));
        Some(p)
    } else {
        proof {
            assert(i == v.len());
            assert forall|n: int| 0 <= n <= v@.len() implies utf8_len(#[trigger] v@.take(n))
                != k by {
                lemma_utf8_len_take_mono(v@, n, i as int);
            }
        }
        None
    }
}


/// The byte length of a text is that of its first character plus that of the rest.
pub proof fn lemma_utf8_len_front(s: Seq<char>)
    requires
        s.len() > 0,
    ensures
        utf8_len(s) == utf8_width(s[0]) + utf8_len(s.drop_first()),
    decreases s.len(),
{
    if s.len() == 1 {
        assert(s.drop_last() =~= seq![]);
        assert(s.drop_first() =~= seq![]);
    } else {
        lemma_utf8_len_front(s.drop_last());
        assert(s.drop_last().drop_first() =~= s.drop_first().drop_last());
        assert(s.drop_last()[0] == s[0]);
        assert(s.drop_first().last() == s.last());
    }
}

/// `utf8_len` is the length of the UTF-8 encoding.
pub proof fn lemma_encode_len(s: Seq<char>)
    ensures
        vstd::utf8::encode_utf8(s).len() == utf8_len(s),
    decreases s.len(),
{
    broadcast use vstd::utf8::char_is_scalar;

    if s.len() > 0 {
        lemma_encode_len(s.drop_first());
        lemma_utf8_len_front(s);
        vstd::utf8::char_is_scalar(s[0]);
    }
}

/// `str::len`: the byte length of `s`.
pub fn byte_len(s: &str) -> (r: usize)
    requires
        utf8_len(s@) <= usize::MAX,
    ensures
        r == utf8_len(s@),
{
    proof {
        lemma_encode_len(s@);
    }
    s.len()
}

/// The prefix of `s` that is `k` bytes long (`&s[..k]`), when `k` falls
/// between two characters.
pub open spec fn byte_take(s: Seq<char>, k: int) -> Seq<char> {
    s.take(choose|n: int| 0 <= n <= s.len() && utf8_len(#[trigger] s.take(n)) == k)
}

/// The prefix of `s` that takes `k` bytes ends between two characters, and it is `byte_take(s, k)`.
pub proof fn lemma_byte_take_unique(s: Seq<char>, p: Seq<char>, k: int)
    requires
        p.is_prefix_of(s),
        utf8_len(p) == k,
    ensures
        is_boundary(s, k),
        byte_take(s, k) == p,
{
    assert(s.take(p.len() as int) =~= p);
    let n = choose|n: int| 0 <= n <= s.len() && utf8_len(#[trigger] s.take(n)) == k;
    if n < p.len() {
        lemma_utf8_len_take_mono(s, n, p.len() as int);
    } else if n > p.len() {
        lemma_utf8_len_take_mono(s, p.len() as int, n);
    }
}

/// `&v[..k]`, for a `k` that falls between two characters.
pub fn cut_bytes(v: &Vec<char>, k: usize) -> (r: Vec<char>)
    requires
        is_boundary(v@, k as int),
    ensures
        r@ == byte_take(v@, k as int),
{
    match byte_prefix(v, k) {
        Some(p) => {
            proof {
                lemma_byte_take_unique(v@, p@, k as int);
            }
            p
        },
        None => {
            assert(false);
            Vec::new()
        },
    }
}

/// Whether byte offset `k` falls between two characters of `v`.
pub fn is_boundary_exec(v: &Vec<char>, k: usize) -> (r: bool)
    ensures
        r == is_boundary(v@, k as int),
{
    match byte_prefix(v, k) {
        Some(p) => {
            proof {
                lemma_byte_take_unique(v@, p@, k as int);
            }
            true
        },
        None => false,
    }
}

/// The pieces of `s` from `i` on, split at each occurrence of the non-empty
/// pattern `p` (`str::split` with a string pattern).
pub open spec fn split_str_from(s: Seq<char>, p: Seq<char>, i: int) -> Seq<Seq<char>>
    decreases s.len() + 1 - i,
{
    if i < 0 || i > s.len() || p.len() == 0 {
        seq![]
    } else {
        proof {
            lemma_find_from_props(s, p, i);
        }
        match find_from(s, p, i) {
            Some(j) => seq![s.subrange(i, j)] + split_str_from(s, p, j + p.len()),
            None => seq![s.subrange(i, s.len() as int)],
        }
    }
}

/// `str::split` with a non-empty string pattern.
pub open spec fn split_str(s: Seq<char>, p: Seq<char>) -> Seq<Seq<char>> {
    split_str_from(s, p, 0)
}

/// `str::split` with a non-empty string pattern, on characters.
pub fn split_str_exec(v: &Vec<char>, p: &Vec<char>) -> (r: Vec<Vec<char>>)
    requires
        p.len() > 0,
    ensures
        views(r@) == split_str(v@, p@),
{
    let mut r: Vec<Vec<char>> = Vec::new();
    let mut i: usize = 0;
    loop
        invariant
            0 <= i <= v.len(),
            p.len() > 0,
            views(r@) + split_str_from(v@, p@, i as int) == split_str(v@, p@),
        decreases v.len() + 1 - i,
    {
        proof {
            lemma_find_from_props(v@, p@, i as int);
        }
        let f = find_from_exec(v, p, i);
        match f {
            Some(j) => {
                let piece = slice_chars(v, i, j);
                let ghost old_r = r@;
                r.push(piece);
                proof {
                    lemma_views_push(old_r, piece);
                    assert(views(r@) + split_str_from(v@, p@, j + p@.len()) =~= views(old_r)
                        + split_str_from(v@, p@, i as int));
                }
                i = j + p.len();
            },
            None => {
                let piece = slice_chars(v, i, v.len());
                let ghost old_r = r@;
                r.push(piece);
                proof {
                    lemma_views_push(old_r, piece);
                    assert(views(r@) =~= views(old_r) + split_str_from(v@, p@, i as int));
                }
                return r;
            },
        }
    }
}

/// Joins `parts` with `sep` between them.
pub fn join_exec(parts: &Vec<Vec<char>>, sep: &Vec<char>) -> (r: Vec<char>)
    ensures
        r@ == join(views(parts@), sep@),
{
    let mut out: Vec<char> = Vec::new();
    let mut i: usize = 0;
    while i < parts.len()
        invariant
            0 <= i <= parts.len(),
            out@ == join(views(parts@).take(i as int), sep@),
        decreases parts.len() - i,
    {
        proof {
            assert(views(parts@).take(i + 1).drop_last() =~= views(parts@).take(i as int));
            assert(views(parts@).take(i + 1).last() == parts@[i as int]@);
        }
        if i > 0 {
            push_all(&mut out, sep);
        }
        push_all(&mut out, &parts[i]);
        proof {
            if i == 0 {
                assert(views(parts@).take(1) =~= seq![parts@[0]@]);
                assert(out@ =~= parts@[0]@);
            }
        }
        i = i + 1;
    }
    assert(views(parts@).take(parts.len() as int) =~= views(parts@));
    out
}


/// Byte lengths add up under concatenation.
pub proof fn lemma_utf8_len_concat(a: Seq<char>, b: Seq<char>)
    ensures
        utf8_len(a + b) == utf8_len(a) + utf8_len(b),
    decreases b.len(),
{
    if b.len() == 0 {
        assert(a + b =~= a);
    } else {
        lemma_utf8_len_concat(a, b.drop_last());
        assert((a + b).drop_last() =~= a + b.drop_last());
    }
}

/// A piece of a text takes no more bytes than the whole text.
pub proof fn lemma_utf8_len_subrange(s: Seq<char>, i: int, j: int)
    requires
        0 <= i <= j <= s.len(),
    ensures
        utf8_len(s.subrange(i, j)) <= utf8_len(s),
{
    lemma_utf8_len_concat(s.take(i), s.subrange(i, j));
    assert(s.take(i) + s.subrange(i, j) =~= s.take(j));
    lemma_utf8_len_prefix_le(s, j);
}


/// `str::replace` of one character by another.
pub fn replace_char_exec(v: &Vec<char>, from: char, to: char) -> (r: Vec<char>)
    ensures
        r@ == replace_char(v@, from, to),
{
    let mut out: Vec<char> = Vec::new();
    let mut i: usize = 0;
    while i < v.len()
        invariant
            0 <= i <= v.len(),
            out@ == replace_char(v@.take(i as int), from, to),
        decreases v.len() - i,
    {
        let c = v[i];
        out.push(if c == from { to } else { c });
        assert(replace_char(v@.take(i + 1), from, to) =~= replace_char(v@.take(i as int), from, to).push(
            if c == from { to } else { c },
        ));
        i = i + 1;
    }
    assert(v@.take(v.len() as int) =~= v@);
    out
}

} // verus!
