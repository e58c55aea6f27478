//! Which other files a LaTeX document names: the files it pulls in with
//! `\input{...}` / `\include{...}`, and its `\bibliography{...}` database.
//! Paths are joined as Unix paths onto the directory of the naming file;
//! whether they exist, and reading them, is left to the caller.
use vstd::prelude::*;
use crate::latex::{cmd_args_exec, Cmd};
use crate::text::{chars_of, has_str_at, join_path_exec, push_str, split_lines, string_of, trim_exec};

verus! {

/// `str::ends_with`.
pub open spec fn ends_with(s: Seq<char>, p: Seq<char>) -> bool {
    crate::text::has_at(s, s.len() - p.len(), p)
}

/// `name` with `ext` appended unless it already ends with it.
pub open spec fn with_ext(name: Seq<char>, ext: Seq<char>) -> Seq<char> {
    if ends_with(name, ext) {
        name
    } else {
        name + ext
    }
}

/// The path that one `\input` argument names, relative to `dir`.
pub open spec fn input_path(dir: Seq<char>, arg: Seq<char>) -> Seq<char> {
    crate::text::join_path(dir, with_ext(crate::text::trim(arg), ".tex"@))
}

/// The `\input` / `\include` arguments of one line; none on a comment line.
pub open spec fn line_inputs(l: Seq<char>) -> Seq<Seq<char>> {
    let t = crate::text::trim(l);
    if crate::text::starts_with(t, "%"@) {
        seq![]
    } else {
        crate::latex::cmd_args(t, Cmd::Input)
    }
}

/// The paths that the lines `ls` pull in, in order.
pub open spec fn lines_inputs(dir: Seq<char>, ls: Seq<Seq<char>>) -> Seq<Seq<char>>
    decreases ls.len(),
{
    if ls.len() == 0 {
        seq![]
    } else {
        lines_inputs(dir, ls.drop_last()) + line_inputs(ls.last()).map_values(
            |a: Seq<char>| input_path(dir, a),
        )
    }
}

/// The paths that a file in directory `dir` holding `content` pulls in.
pub open spec fn input_paths(dir: Seq<char>, content: Seq<char>) -> Seq<Seq<char>> {
    lines_inputs(dir, crate::text::lines(content))
}

/// The views of a sequence of strings.
pub open spec fn strings_view(v: Seq<String>) -> Seq<Seq<char>> {
    v.map_values(|s: String| s@)
}

fn with_ext_exec(name: &Vec<char>, ext: &str) -> (r: Vec<char>)
    ensures
        r@ == with_ext(name@, ext@),
{
    let e = chars_of(ext);
    if name.len() >= e.len() && has_str_at(name, name.len() - e.len(), ext) {
        name.clone()
    } else {
        let mut out = name.clone();
        push_str(&mut out, ext);
        out
    }
}

/// The paths, joined onto `dir` (the directory of the file), of the files
/// that `content` pulls in with `\input{...}` or `\include{...}`, in order
/// of appearance. Comment lines pull in nothing; a name without the
/// `.tex` extension gets it.
pub fn input_targets(dir: &str, content: &str) -> (r: Vec<String>)
    ensures
        strings_view(r@) == input_paths(dir@, content@),
{
    let d = chars_of(dir);
    let lines = split_lines(&chars_of(content));
    let ghost ls = crate::text::lines(content@);
    let mut out: Vec<String> = Vec::new();
    let mut i: usize = 0;
    while i < lines.len()
        invariant
            0 <= i <= lines.len(),
            d@ == dir@,
            crate::text::views(lines@) == ls,
            ls == crate::text::lines(content@),
            strings_view(out@) == lines_inputs(dir@, ls.take(i as int)),
        decreases lines.len() - i,
    {
        let line = &lines[i];
        proof {
            assert(ls.take(i + 1).drop_last() =~= ls.take(i as int));
            assert(ls.take(i + 1).last() == line@);
        }
        let t = trim_exec(line);
        let ghost before = strings_view(out@);
        if !crate::text::starts_with_str(&t, "%") {
            let args = cmd_args_exec(&t, Cmd::Input);
            let mut j: usize = 0;
            while j < args.len()
                invariant
                    0 <= j <= args.len(),
                    d@ == dir@,
                    crate::text::views(args@) == crate::latex::cmd_args(t@, Cmd::Input),
                    strings_view(out@) == before + crate::text::views(args@).take(
                        j as int,
                    ).map_values(|a: Seq<char>| input_path(dir@, a)),
                decreases args.len() - j,
            {
                let rel = with_ext_exec(&trim_exec(&args[j]), ".tex");
                let p = join_path_exec(&d, &rel);
                let ghost o = out@;
                out.push(string_of(&p));
                proof {
                    assert(crate::text::views(args@).take(j + 1) =~= crate::text::views(
                        args@,
                    ).take(j as int).push(args@[j as int]@));
                    assert(strings_view(out@) =~= strings_view(o).push(p@));
                    assert(crate::text::views(args@).take(j + 1).map_values(
                        |a: Seq<char>| input_path(dir@, a),
                    ) =~= crate::text::views(args@).take(j as int).map_values(
                        |a: Seq<char>| input_path(dir@, a),
                    ).push(input_path(dir@, args@[j as int]@)));
                }
                j = j + 1;
            }
            proof {
                assert(crate::text::views(args@).take(args.len() as int) =~= crate::text::views(
                    args@,
                ));
            }
        } else {
            assert(line_inputs(line@) =~= seq![]);
            assert(strings_view(out@) =~= before + line_inputs(line@).map_values(
                |a: Seq<char>| input_path(dir@, a),
            ));
        }
        i = i + 1;
    }
    assert(ls.take(lines.len() as int) =~= ls);
    out
}

/// The bibliography that a file in directory `dir` holding `content`
/// names: the argument of its first `\bibliography{...}` (comments are not
/// skipped), trimmed, with `.bib` added if missing, joined onto `dir`.
pub open spec fn bib_path(dir: Seq<char>, content: Seq<char>) -> Option<Seq<char>> {
    let names = crate::latex::cmd_args(content, Cmd::Bibliography);
    if names.len() == 0 {
        None
    } else {
        Some(crate::text::join_path(dir, with_ext(crate::text::trim(names[0]), ".bib"@)))
    }
}

/// The path of the bibliography that `content` names with
/// `\bibliography{...}`, joined onto `dir`; `None` when it names none.
pub fn bib_target(dir: &str, content: &str) -> (r: Option<String>)
    ensures
        match r {
            Some(p) => bib_path(dir@, content@) == Some(p@),
            None => bib_path(dir@, content@) is None,
        },
{
    let names = cmd_args_exec(&chars_of(content), Cmd::Bibliography);
    if names.len() == 0 {
        None
    } else {
        let file = with_ext_exec(&trim_exec(&names[0]), ".bib");
        let p = join_path_exec(&chars_of(dir), &file);
        Some(string_of(&p))
    }
}

} // verus!
