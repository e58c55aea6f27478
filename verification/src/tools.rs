//! The agent's tools: reading a tool call out of the model's JSON arguments,
//! the tool catalog offered to the model, and the text each tool reports.
//!
//! Running a tool (the file system, processes, the network) happens outside
//! this library; the functions here take what the run produced and build the
//! [`ToolResult`] the model sees.
use vstd::prelude::*;
use crate::fmt::push_decimal;
use crate::json::read_string_member;
use crate::llm::{ParamProperty, ParamSchema, ToolDef, ToolFunction};
use crate::text::{
    byte_len, chars_of, contains_str, cut_bytes, find_str_from, is_boundary_exec, join_exec,
    join_path_exec, push_all, push_str, slice_chars, split_str_exec, string_of, trim_exec,
    utf8_len_gt,
};

verus! {

/// A call of one of the built-in tools. Paths are already joined to the
/// working directory.
#[derive(Debug)]
pub enum ToolCall {
    ReadFile { path: String },
    WriteFile { path: String, content: String },
    ListDir { path: String },
    RunCommand { command: String },
    Search { pattern: String, path: String },
    FetchNews { query: String },
}

/// The plain value of a tool call.
pub enum ToolCallView {
    ReadFile(Seq<char>),
    WriteFile(Seq<char>, Seq<char>),
    ListDir(Seq<char>),
    RunCommand(Seq<char>),
    Search(Seq<char>, Seq<char>),
    FetchNews(Seq<char>),
}

impl View for ToolCall {
    type V = ToolCallView;

    open spec fn view(&self) -> ToolCallView {
        match self {
            ToolCall::ReadFile { path } => ToolCallView::ReadFile(path@),
            ToolCall::WriteFile { path, content } => ToolCallView::WriteFile(path@, content@),
            ToolCall::ListDir { path } => ToolCallView::ListDir(path@),
            ToolCall::RunCommand { command } => ToolCallView::RunCommand(command@),
            ToolCall::Search { pattern, path } => ToolCallView::Search(pattern@, path@),
            ToolCall::FetchNews { query } => ToolCallView::FetchNews(query@),
        }
    }
}

/// What a tool reports back.
#[derive(Debug)]
pub struct ToolResult {
    pub success: bool,
    pub output: String,
}

/// A tool call that names no known tool.
#[derive(Debug)]
pub struct ToolCallError {
    pub message: String,
}

/// The string a member lookup found: `None` when the arguments are not
/// JSON, lack the member, or hold something other than a string there.
pub open spec fn member_string(r: Result<Option<Seq<char>>, Seq<char>>) -> Option<Seq<char>> {
    match r {
        Ok(Some(s)) => Some(s),
        _ => None,
    }
}

/// `m`'s string, or `default` when there is none.
pub open spec fn or_default(m: Option<Seq<char>>, default: Seq<char>) -> Seq<char> {
    match m {
        Some(s) => s,
        None => default,
    }
}

/// The string argument `key`, or `default` when the arguments are not JSON
/// or hold no such string.
pub open spec fn arg_or(args: Seq<char>, key: Seq<char>, default: Seq<char>) -> Seq<char> {
    or_default(member_string(crate::json::json_string_member(args, key)), default)
}

/// The arguments that the tool `name` reads, in order (none for an unknown
/// tool).
pub open spec fn tool_arg_keys(name: Seq<char>) -> Seq<Seq<char>> {
    if name == "read_file"@ {
        seq!["path"@]
    } else if name == "write_file"@ {
        seq!["path"@, "content"@]
    } else if name == "list_dir"@ {
        seq!["path"@]
    } else if name == "run_command"@ {
        seq!["command"@]
    } else if name == "search"@ {
        seq!["pattern"@, "path"@]
    } else if name == "fetch_news"@ {
        seq!["query"@]
    } else {
        seq![]
    }
}

/// The `i`-th of the strings found for a tool's arguments; none past the end.
pub open spec fn member_at(ms: Seq<Option<Seq<char>>>, i: int) -> Option<Seq<char>> {
    if 0 <= i < ms.len() {
        ms[i]
    } else {
        None
    }
}

/// The call that the tool `name` makes, relative to `workdir`, from the
/// strings `ms` found for its arguments (one for each of
/// [`tool_arg_keys`]); a missing argument is empty, or `.` for a directory.
/// `None` for an unknown tool.
pub open spec fn tool_call_of(name: Seq<char>, ms: Seq<Option<Seq<char>>>, workdir: Seq<char>) -> Option<
    ToolCallView,
> {
    let a = or_default(member_at(ms, 0), ""@);
    let b = or_default(member_at(ms, 1), ""@);
    let da = or_default(member_at(ms, 0), "."@);
    let db = or_default(member_at(ms, 1), "."@);
    if name == "read_file"@ {
        Some(ToolCallView::ReadFile(crate::text::join_path(workdir, a)))
    } else if name == "write_file"@ {
        Some(ToolCallView::WriteFile(crate::text::join_path(workdir, a), b))
    } else if name == "list_dir"@ {
        Some(ToolCallView::ListDir(crate::text::join_path(workdir, da)))
    } else if name == "run_command"@ {
        Some(ToolCallView::RunCommand(a))
    } else if name == "search"@ {
        Some(ToolCallView::Search(a, crate::text::join_path(workdir, db)))
    } else if name == "fetch_news"@ {
        Some(ToolCallView::FetchNews(a))
    } else {
        None
    }
}

/// The strings that JSON arguments `args` hold for the members `keys`.
pub open spec fn arg_members(args: Seq<char>, keys: Seq<Seq<char>>) -> Seq<Option<Seq<char>>> {
    keys.map_values(|k: Seq<char>| member_string(crate::json::json_string_member(args, k)))
}

/// The call that the tool `name` with JSON arguments `args` makes, relative
/// to `workdir`; `None` for an unknown tool.
pub open spec fn tool_call_for(name: Seq<char>, args: Seq<char>, workdir: Seq<char>) -> Option<
    ToolCallView,
> {
    tool_call_of(name, arg_members(args, tool_arg_keys(name)), workdir)
}

/// The plain values of optional strings.
pub open spec fn opt_views(ms: Seq<Option<String>>) -> Seq<Option<Seq<char>>> {
    ms.map_values(
        |m: Option<String>|
            match m {
                Some(s) => Some(s@),
                None => None,
            },
    )
}

/// The arguments that the tool `name` reads (see [`tool_arg_keys`]).
pub fn tool_arg_names(name: &str) -> (r: Vec<String>)
    ensures
        r@.map_values(|k: String| k@) == tool_arg_keys(name@),
{
    let n = chars_of(name);
    let ghost nm = name@;
    let mut r: Vec<String> = Vec::new();
    proof {
        reveal_strlit("read_file");
        reveal_strlit("write_file");
        reveal_strlit("list_dir");
        reveal_strlit("run_command");
        reveal_strlit("search");
        reveal_strlit("fetch_news");
        assert("read_file"@.len() == 9);
        assert("write_file"@.len() == 10);
        assert("list_dir"@.len() == 8);
        assert("run_command"@.len() == 11);
        assert("search"@.len() == 6);
        assert("fetch_news"@.len() == 10);
        assert("write_file"@[0] != "fetch_news"@[0]);
    }
    if crate::text::equals_str(&n, "read_file") {
        let k = String::from_str("path");
        r.push(k);
        assert(r@ =~= seq![k]);
        assert(r@.map_values(|k: String| k@) =~= seq!["path"@]);
        assert(nm == "read_file"@);
        assert(tool_arg_keys(nm) =~= seq!["path"@]);
    } else if crate::text::equals_str(&n, "list_dir") {
        let k = String::from_str("path");
        r.push(k);
        assert(r@ =~= seq![k]);
        assert(r@.map_values(|k: String| k@) =~= seq!["path"@]);
        assert(nm == "list_dir"@);
        assert(tool_arg_keys(nm) =~= seq!["path"@]);
    } else if crate::text::equals_str(&n, "write_file") {
        let k1 = String::from_str("path");
        let k2 = String::from_str("content");
        r.push(k1);
        r.push(k2);
        assert(r@ =~= seq![k1, k2]);
        assert(r@.map_values(|k: String| k@) =~= seq!["path"@, "content"@]);
        assert(nm == "write_file"@);
        assert(tool_arg_keys(nm) =~= seq!["path"@, "content"@]);
    } else if crate::text::equals_str(&n, "run_command") {
        let k = String::from_str("command");
        r.push(k);
        assert(r@ =~= seq![k]);
        assert(r@.map_values(|k: String| k@) =~= seq!["command"@]);
        assert(nm == "run_command"@);
        assert(tool_arg_keys(nm) =~= seq!["command"@]);
    } else if crate::text::equals_str(&n, "search") {
        let k1 = String::from_str("pattern");
        let k2 = String::from_str("path");
        r.push(k1);
        r.push(k2);
        assert(r@ =~= seq![k1, k2]);
        assert(r@.map_values(|k: String| k@) =~= seq!["pattern"@, "path"@]);
        assert(nm == "search"@);
        assert(tool_arg_keys(nm) =~= seq!["pattern"@, "path"@]);
    } else if crate::text::equals_str(&n, "fetch_news") {
        let k = String::from_str("query");
        r.push(k);
        assert(r@ =~= seq![k]);
        assert(r@.map_values(|k: String| k@) =~= seq!["query"@]);
        assert(nm == "fetch_news"@);
        assert(tool_arg_keys(nm) =~= seq!["query"@]);
    } else {
        assert(tool_arg_keys(nm) =~= seq![]);
    }
    assert(r@.map_values(|k: String| k@) =~= tool_arg_keys(nm));
    r
}

fn member_or(ms: &Vec<Option<String>>, i: usize, default: &str) -> (r: Vec<char>)
    ensures
        r@ == or_default(member_at(opt_views(ms@), i as int), default@),
{
    if i < ms.len() {
        match &ms[i] {
            Some(s) => chars_of(s.as_str()),
            None => chars_of(default),
        }
    } else {
        chars_of(default)
    }
}

fn joined(workdir: &Vec<char>, rel: &Vec<char>) -> (r: String)
    ensures
        r@ == crate::text::join_path(workdir@, rel@),
{
    string_of(&join_path_exec(workdir, rel))
}

/// Builds the call of the tool `name` from the strings found for its
/// arguments (see [`tool_call_of`]), or the error for an unknown tool.
pub fn build_tool_call(name: &str, members: &Vec<Option<String>>, workdir: &str) -> (r: Result<
    ToolCall,
    ToolCallError,
>)
    ensures
        match r {
            Ok(c) => tool_call_of(name@, opt_views(members@), workdir@) == Some(c@),
            Err(e) => tool_call_of(name@, opt_views(members@), workdir@) is None && e.message@
                == "Unknown tool: "@ + name@,
        },
{
    let n = chars_of(name);
    let w = chars_of(workdir);
    if crate::text::equals_str(&n, "read_file") {
        let p = member_or(members, 0, "");
        Ok(ToolCall::ReadFile { path: joined(&w, &p) })
    } else if crate::text::equals_str(&n, "write_file") {
        let p = member_or(members, 0, "");
        let c = member_or(members, 1, "");
        Ok(ToolCall::WriteFile { path: joined(&w, &p), content: string_of(&c) })
    } else if crate::text::equals_str(&n, "list_dir") {
        let p = member_or(members, 0, ".");
        Ok(ToolCall::ListDir { path: joined(&w, &p) })
    } else if crate::text::equals_str(&n, "run_command") {
        let c = member_or(members, 0, "");
        Ok(ToolCall::RunCommand { command: string_of(&c) })
    } else if crate::text::equals_str(&n, "search") {
        let pat = member_or(members, 0, "");
        let p = member_or(members, 1, ".");
        Ok(ToolCall::Search { pattern: string_of(&pat), path: joined(&w, &p) })
    } else if crate::text::equals_str(&n, "fetch_news") {
        let q = member_or(members, 0, "");
        Ok(ToolCall::FetchNews { query: string_of(&q) })
    } else {
        let mut m = chars_of("Unknown tool: ");
        push_all(&mut m, &n);
        Err(ToolCallError { message: string_of(&m) })
    }
}

/// Reads a tool call from the model's JSON arguments. Arguments that are
/// not JSON count as an empty object; a missing argument is empty, or `.`
/// for a directory.
pub fn parse_tool_call(name: &str, args_json: &str, workdir: &str) -> (r: Result<
    ToolCall,
    ToolCallError,
>)
    ensures
        match r {
            Ok(c) => tool_call_for(name@, args_json@, workdir@) == Some(c@),
            Err(e) => tool_call_for(name@, args_json@, workdir@) is None && e.message@
                == "Unknown tool: "@ + name@,
        },
{
    let keys = tool_arg_names(name);
    let ghost kv = keys@.map_values(|k: String| k@);
    let mut members: Vec<Option<String>> = Vec::new();
    let mut i: usize = 0;
    while i < keys.len()
        invariant
            0 <= i <= keys.len(),
            kv == keys@.map_values(|k: String| k@),
            opt_views(members@) == arg_members(args_json@, kv.take(i as int)),
        decreases keys.len() - i,
    {
        let found = read_string_member(args_json, keys[i].as_str());
        assert(keys[i as int]@ == kv[i as int]);
        let m = match found {
            Ok(Some(s)) => Some(s),
            _ => None,
        };
        assert(match m {
            Some(s) => Some(s@),
            None => None,
        } == member_string(crate::json::json_string_member(args_json@, kv[i as int])));
        let ghost before = members@;
        members.push(m);
        assert(members@ == before.push(m));
        assert(opt_views(before.push(m)) =~= opt_views(before).push(
            member_string(crate::json::json_string_member(args_json@, kv[i as int])),
        ));
        assert(arg_members(args_json@, kv.take(i + 1)) =~= arg_members(args_json@, kv.take(i as int)).push(
            member_string(crate::json::json_string_member(args_json@, kv[i as int])),
        ));
        assert(kv.take(i + 1) =~= kv.take(i as int).push(kv[i as int]));
        assert(opt_views(members@) =~= arg_members(args_json@, kv.take(i + 1)));
        i = i + 1;
    }
    assert(kv.take(keys.len() as int) =~= kv);
    build_tool_call(name, &members, workdir)
}

// ---------------------------------------------------------------------------
// The tool catalog
// ---------------------------------------------------------------------------

/// The plain value of a tool definition: type, name, description, string
/// properties (name and description) and required properties.
pub open spec fn tool_def_view(d: ToolDef) -> (
    Seq<char>,
    Seq<char>,
    Seq<char>,
    Seq<(Seq<char>, Seq<char>)>,
    Seq<Seq<char>>,
) {
    (
        d.tool_type@,
        d.function.name@,
        d.function.description@,
        d.function.parameters.properties@.map_values(
            |p: ParamProperty| (p.name@, p.description@),
        ),
        d.function.parameters.required@.map_values(|s: String| s@),
    )
}

/// The built-in tools offered to the model, in order: `read_file`,
/// `write_file`, `list_dir`, `run_command` and `search`.
pub open spec fn tool_catalog() -> Seq<
    (Seq<char>, Seq<char>, Seq<char>, Seq<(Seq<char>, Seq<char>)>, Seq<Seq<char>>),
> {
    seq![
        (
            "function"@,
            "read_file"@,
            "Read the contents of a file"@,
            seq![("path"@, "Relative path to the file"@)],
            seq!["path"@],
        ),
        (
            "function"@,
            "write_file"@,
            "Write content to a file (creates or overwrites)"@,
            seq![("path"@, "Relative path to the file"@), ("content"@, "Content to write"@)],
            seq!["path"@, "content"@],
        ),
        (
            "function"@,
            "list_dir"@,
            "List files and directories in a path"@,
            seq![("path"@, "Relative path to list (default: current directory)"@)],
            seq![],
        ),
        (
            "function"@,
            "run_command"@,
            "Run a shell command and return its output"@,
            seq![("command"@, "The shell command to execute"@)],
            seq!["command"@],
        ),
        (
            "function"@,
            "search"@,
            "Search for a pattern in files (grep)"@,
            seq![
                ("pattern"@, "The regex pattern to search for"@),
                ("path"@, "Directory to search in (default: current directory)"@),
            ],
            seq!["pattern"@],
        ),
    ]
}

/// The names of a definition's properties.
pub open spec fn prop_names(ps: Seq<(Seq<char>, Seq<char>)>) -> Seq<Seq<char>> {
    ps.map_values(|p: (Seq<char>, Seq<char>)| p.0)
}

/// The built-in catalogue is consistent with the tools it names: the names
/// are pairwise distinct, each definition's properties are exactly the
/// arguments its tool reads, its required properties are among them, and a
/// call of each name, with any arguments, is a known tool call.
pub proof fn lemma_catalog_consistent()
    ensures
        tool_catalog().len() == 5,
        forall|i: int, j: int|
            0 <= i < j < 5 ==> #[trigger] tool_catalog()[i].1 != #[trigger] tool_catalog()[j].1,
        forall|i: int|
            0 <= i < 5 ==> prop_names(#[trigger] tool_catalog()[i].3) == tool_arg_keys(
                tool_catalog()[i].1,
            ),
        forall|i: int, k: int|
            0 <= i < 5 && 0 <= k < tool_catalog()[i].4.len() ==> prop_names(
                tool_catalog()[i].3,
            ).contains(#[trigger] tool_catalog()[i].4[k]),
        forall|i: int, args: Seq<char>, workdir: Seq<char>|
            0 <= i < 5 ==> (#[trigger] tool_call_for(tool_catalog()[i].1, args, workdir)) is Some,
{
    reveal_strlit("read_file");
    reveal_strlit("write_file");
    reveal_strlit("list_dir");
    reveal_strlit("run_command");
    reveal_strlit("search");
    reveal_strlit("fetch_news");
    reveal_strlit("path");
    reveal_strlit("content");
    reveal_strlit("command");
    reveal_strlit("pattern");
    assert("read_file"@.len() == 9);
    assert("write_file"@.len() == 10);
    assert("list_dir"@.len() == 8);
    assert("run_command"@.len() == 11);
    assert("search"@.len() == 6);
    assert("fetch_news"@.len() == 10);
    assert("write_file"@[0] != "fetch_news"@[0]);
    let c = tool_catalog();
    assert(c[0].1 == "read_file"@);
    assert(c[1].1 == "write_file"@);
    assert(c[2].1 == "list_dir"@);
    assert(c[3].1 == "run_command"@);
    assert(c[4].1 == "search"@);
    assert(prop_names(c[0].3) =~= tool_arg_keys(c[0].1));
    assert(prop_names(c[1].3) =~= tool_arg_keys(c[1].1));
    assert(prop_names(c[2].3) =~= tool_arg_keys(c[2].1));
    assert(prop_names(c[3].3) =~= tool_arg_keys(c[3].1));
    assert(prop_names(c[4].3) =~= tool_arg_keys(c[4].1));
    assert forall|i: int, k: int|
        0 <= i < 5 && 0 <= k < tool_catalog()[i].4.len() implies prop_names(
            tool_catalog()[i].3,
        ).contains(#[trigger] tool_catalog()[i].4[k]) by {
        let ns = prop_names(c[i].3);
        if i == 0 {
            assert(ns[0] == c[i].4[k]);
        } else if i == 1 {
            assert(ns[k] == c[i].4[k]);
        } else if i == 3 {
            assert(ns[0] == c[i].4[k]);
        } else if i == 4 {
            assert(ns[0] == c[i].4[k]);
        }
    }
}

fn prop(name: &str, description: &str) -> (r: ParamProperty)
    ensures
        r.name@ == name@,
        r.value_type@ == "string"@,
        r.description@ == description@,
{
    ParamProperty {
        name: String::from_str(name),
        value_type: String::from_str("string"),
        description: String::from_str(description),
    }
}

fn def(name: &str, description: &str, properties: Vec<ParamProperty>, required: Vec<String>) -> (r:
    ToolDef)
    ensures
        r.function.parameters.schema_type@ == "object"@,
        r.function.parameters.properties@ == properties@,
        tool_def_view(r) == (
            "function"@,
            name@,
            description@,
            properties@.map_values(|p: ParamProperty| (p.name@, p.description@)),
            required@.map_values(|s: String| s@),
        ),
{
    ToolDef {
        tool_type: String::from_str("function"),
        function: ToolFunction {
            name: String::from_str(name),
            description: String::from_str(description),
            parameters: ParamSchema { schema_type: String::from_str("object"), properties, required },
        },
    }
}

/// Whether a definition's arguments form a JSON object of string values.
pub open spec fn typed_schema(d: ToolDef) -> bool {
    &&& d.function.parameters.schema_type@ == "object"@
    &&& forall|k: int|
        0 <= k < d.function.parameters.properties@.len()
            ==> (#[trigger] d.function.parameters.properties@[k]).value_type@ == "string"@
}

/// The definitions of the five built-in tools offered to the model.
pub fn tool_definitions() -> (r: Vec<ToolDef>)
    ensures
        r@.map_values(|d: ToolDef| tool_def_view(d)) == tool_catalog(),
        forall|i: int| 0 <= i < r@.len() ==> typed_schema(#[trigger] r@[i]),
{
    let mut r: Vec<ToolDef> = Vec::new();
    let p1 = vec![prop("path", "Relative path to the file")];
    let q1 = vec![String::from_str("path")];
    let d1 = def("read_file", "Read the contents of a file", p1, q1);
    let p2 = vec![prop("path", "Relative path to the file"), prop("content", "Content to write")];
    let q2 = vec![String::from_str("path"), String::from_str("content")];
    let d2 = def("write_file", "Write content to a file (creates or overwrites)", p2, q2);
    let p3 = vec![prop("path", "Relative path to list (default: current directory)")];
    let q3: Vec<String> = Vec::new();
    let d3 = def("list_dir", "List files and directories in a path", p3, q3);
    let p4 = vec![prop("command", "The shell command to execute")];
    let q4 = vec![String::from_str("command")];
    let d4 = def("run_command", "Run a shell command and return its output", p4, q4);
    let p5 = vec![
        prop("pattern", "The regex pattern to search for"),
        prop("path", "Directory to search in (default: current directory)"),
    ];
    let q5 = vec![String::from_str("pattern")];
    let d5 = def("search", "Search for a pattern in files (grep)", p5, q5);
    proof {
        assert(tool_def_view(d1).3 =~= tool_catalog()[0].3);
        assert(tool_def_view(d1).4 =~= tool_catalog()[0].4);
        assert(tool_def_view(d2).3 =~= tool_catalog()[1].3);
        assert(tool_def_view(d2).4 =~= tool_catalog()[1].4);
        assert(tool_def_view(d3).3 =~= tool_catalog()[2].3);
        assert(tool_def_view(d3).4 =~= tool_catalog()[2].4);
        assert(tool_def_view(d4).3 =~= tool_catalog()[3].3);
        assert(tool_def_view(d4).4 =~= tool_catalog()[3].4);
        assert(tool_def_view(d5).3 =~= tool_catalog()[4].3);
        assert(tool_def_view(d5).4 =~= tool_catalog()[4].4);
        assert(typed_schema(d1));
        assert(typed_schema(d2));
        assert(typed_schema(d3));
        assert(typed_schema(d4));
        assert(typed_schema(d5));
    }
    r.push(d1);
    r.push(d2);
    r.push(d3);
    r.push(d4);
    r.push(d5);
    assert(r@.map_values(|d: ToolDef| tool_def_view(d)) =~= tool_catalog());
    assert(r@ =~= seq![d1, d2, d3, d4, d5]);
    r
}

// ---------------------------------------------------------------------------
// Tool output
// ---------------------------------------------------------------------------

/// `text` cut to its first `limit` bytes followed by `...` and `tail`, when it
/// is longer than `limit` bytes; `text` itself otherwise.
pub open spec fn clipped(text: Seq<char>, limit: int, tail: Seq<char>) -> Seq<char> {
    if crate::text::utf8_len(text) > limit {
        crate::text::byte_take(text, limit) + "..."@ + tail
    } else {
        text
    }
}

/// What [`clipped`] needs: a text that is cut is cut between two characters.
pub open spec fn clip_ok(text: Seq<char>, limit: int) -> bool {
    crate::text::utf8_len(text) > limit ==> crate::text::is_boundary(text, limit)
}

/// Cuts `text` to `limit` bytes, followed by `...` and `tail`, when it is
/// longer.
pub fn clip(text: &Vec<char>, limit: usize, tail: &Vec<char>) -> (r: Vec<char>)
    requires
        limit <= usize::MAX - 4,
        clip_ok(text@, limit as int),
    ensures
        r@ == clipped(text@, limit as int, tail@),
{
    if utf8_len_gt(text, limit) {
        let mut out = cut_bytes(text, limit);
        push_str(&mut out, "...");
        push_all(&mut out, tail);
        out
    } else {
        text.clone()
    }
}

/// Whether `text` can be clipped at `limit` bytes without splitting a
/// character.
pub fn clip_ok_exec(text: &str, limit: usize) -> (r: bool)
    requires
        limit <= usize::MAX - 4,
    ensures
        r == clip_ok(text@, limit as int),
{
    let t = chars_of(text);
    !utf8_len_gt(&t, limit) || is_boundary_exec(&t, limit)
}

/// The report of a file that was read: its content, cut to 8000 bytes with a
/// note of its full length when it is longer.
pub fn read_file_output(content: &str) -> (r: ToolResult)
    requires
        clip_ok(content@, 8000),
        crate::text::utf8_len(content@) <= usize::MAX,
    ensures
        r.success,
        r.output@ == clipped(
            content@,
            8000,
            "\n[truncated, "@ + crate::fmt::decimal(crate::text::utf8_len(content@))
                + " total bytes]"@,
        ),
{
    let t = chars_of(content);
    let mut tail = chars_of("\n[truncated, ");
    push_decimal(&mut tail, byte_len(content) as u64);
    push_str(&mut tail, " total bytes]");
    ToolResult { success: true, output: string_of(&clip(&t, 8000, &tail)) }
}

fn failure(prefix: &str, subject: &str, err: &str) -> (r: ToolResult)
    ensures
        !r.success,
        r.output@ == prefix@ + subject@ + ": "@ + err@,
{
    let mut o = chars_of(prefix);
    push_str(&mut o, subject);
    push_str(&mut o, ": ");
    push_str(&mut o, err);
    ToolResult { success: false, output: string_of(&o) }
}

/// The report of a file that could not be read.
pub fn read_error_output(path: &str, err: &str) -> (r: ToolResult)
    ensures
        !r.success,
        r.output@ == "Error reading "@ + path@ + ": "@ + err@,
{
    failure("Error reading ", path, err)
}

/// The report of a file that was written.
pub fn write_file_output(content: &str, path: &str) -> (r: ToolResult)
    requires
        crate::text::utf8_len(content@) <= usize::MAX,
    ensures
        r.success,
        r.output@ == "Wrote "@ + crate::fmt::decimal(crate::text::utf8_len(content@)) + " bytes to "@
            + path@,
{
    let mut o = chars_of("Wrote ");
    push_decimal(&mut o, byte_len(content) as u64);
    push_str(&mut o, " bytes to ");
    push_str(&mut o, path);
    ToolResult { success: true, output: string_of(&o) }
}

/// The report of a file that could not be written.
pub fn write_error_output(path: &str, err: &str) -> (r: ToolResult)
    ensures
        !r.success,
        r.output@ == "Error writing "@ + path@ + ": "@ + err@,
{
    failure("Error writing ", path, err)
}

/// The report of a directory that could not be listed.
pub fn list_error_output(path: &str, err: &str) -> (r: ToolResult)
    ensures
        !r.success,
        r.output@ == "Error listing "@ + path@ + ": "@ + err@,
{
    failure("Error listing ", path, err)
}

/// One entry of a directory listing.
pub struct DirEntryInfo {
    pub name: String,
    pub is_dir: bool,
}

/// The line that lists one entry: its kind padded to four columns, a space
/// and its name.
pub open spec fn listing_line(e: DirEntryInfo) -> Seq<char> {
    (if e.is_dir {
        "dir "@
    } else {
        "file"@
    }) + " "@ + e.name@
}

/// `a` sorts no later than `b`, comparing characters by code point as
/// `String`'s ordering does.
pub open spec fn lex_le(a: Seq<char>, b: Seq<char>) -> bool
    decreases a.len(),
{
    if a.len() == 0 {
        true
    } else if b.len() == 0 {
        false
    } else if a[0] != b[0] {
        (a[0] as u32) < (b[0] as u32)
    } else {
        lex_le(a.drop_first(), b.drop_first())
    }
}

/// The first position at or after `i` whose element sorts after `x`.
pub open spec fn first_after(s: Seq<Seq<char>>, x: Seq<char>, i: int) -> int
    decreases s.len() - i,
{
    if i < 0 || i >= s.len() {
        s.len() as int
    } else if !lex_le(s[i], x) {
        i
    } else {
        first_after(s, x, i + 1)
    }
}

/// Stable insertion sort in `String` order.
pub open spec fn sort_lex(s: Seq<Seq<char>>) -> Seq<Seq<char>>
    decreases s.len(),
{
    if s.len() == 0 {
        s
    } else {
        let t = sort_lex(s.drop_last());
        t.insert(first_after(t, s.last(), 0), s.last())
    }
}

fn lex_le_exec(a: &Vec<char>, b: &Vec<char>) -> (r: bool)
    ensures
        r == lex_le(a@, b@),
{
    let mut i: usize = 0;
    assert(a@.skip(0) =~= a@);
    assert(b@.skip(0) =~= b@);
    while i < a.len() && i < b.len() && a[i] == b[i]
        invariant
            0 <= i <= a.len(),
            i <= b.len(),
            lex_le(a@, b@) == lex_le(a@.skip(i as int), b@.skip(i as int)),
        decreases a.len() - i,
    {
        proof {
            assert(a@.skip(i as int).drop_first() =~= a@.skip(i + 1));
            assert(b@.skip(i as int).drop_first() =~= b@.skip(i + 1));
        }
        i = i + 1;
    }
    if i == a.len() {
        true
    } else if i == b.len() {
        false
    } else {
        (a[i] as u32) < (b[i] as u32)
    }
}

/// Sorts lines in `String` order.
pub fn sort_lines(v: Vec<Vec<char>>) -> (r: Vec<Vec<char>>)
    ensures
        crate::text::views(r@) == sort_lex(crate::text::views(v@)),
{
    let mut out: Vec<Vec<char>> = Vec::new();
    let mut i: usize = 0;
    while i < v.len()
        invariant
            0 <= i <= v.len(),
            crate::text::views(out@) == sort_lex(crate::text::views(v@).take(i as int)),
        decreases v.len() - i,
    {
        let x = v[i].clone();
        let mut p: usize = 0;
        while p < out.len() && lex_le_exec(&out[p], &x)
            invariant
                0 <= p <= out.len(),
                first_after(crate::text::views(out@), x@, 0) == first_after(
                    crate::text::views(out@),
                    x@,
                    p as int,
                ),
            decreases out.len() - p,
        {
            p = p + 1;
        }
        let ghost old_out = out@;
        out.insert(p, x);
        proof {
            assert(crate::text::views(v@).take(i + 1).drop_last() =~= crate::text::views(v@).take(
                i as int,
            ));
            assert(crate::text::views(v@).take(i + 1).last() == x@);
            assert(crate::text::views(out@) =~= crate::text::views(old_out).insert(p as int, x@));
        }
        i = i + 1;
    }
    assert(crate::text::views(v@).take(v.len() as int) =~= crate::text::views(v@));
    out
}

/// The report of a directory listing: one line per entry, sorted, joined by
/// newlines.
pub fn list_dir_output(entries: &Vec<DirEntryInfo>) -> (r: ToolResult)
    ensures
        r.success,
        r.output@ == crate::text::join(
            sort_lex(entries@.map_values(|e: DirEntryInfo| listing_line(e))),
            "\n"@,
        ),
{
    let mut lines: Vec<Vec<char>> = Vec::new();
    let mut i: usize = 0;
    while i < entries.len()
        invariant
            0 <= i <= entries.len(),
            crate::text::views(lines@) == entries@.take(i as int).map_values(
                |e: DirEntryInfo| listing_line(e),
            ),
        decreases entries.len() - i,
    {
        let e = &entries[i];
        let mut l = if e.is_dir {
            chars_of("dir ")
        } else {
            chars_of("file")
        };
        push_str(&mut l, " ");
        push_str(&mut l, e.name.as_str());
        let ghost old_lines = lines@;
        lines.push(l);
        proof {
            crate::text::lemma_views_push(old_lines, l);
            assert(entries@.take(i + 1).map_values(|e: DirEntryInfo| listing_line(e)) =~= entries@.take(
                i as int,
            ).map_values(|e: DirEntryInfo| listing_line(e)).push(listing_line(*e)));
        }
        i = i + 1;
    }
    assert(entries@.take(entries.len() as int) =~= entries@);
    let sorted = sort_lines(lines);
    let out = join_exec(&sorted, &chars_of("\n"));
    ToolResult { success: true, output: string_of(&out) }
}

/// The output of a command: its standard output, then its standard error
/// under a `STDERR:` heading when there is any.
pub open spec fn combined_output(stdout: Seq<char>, stderr: Seq<char>) -> Seq<char> {
    if stderr.len() == 0 {
        stdout
    } else {
        stdout + "\nSTDERR:\n"@ + stderr
    }
}

/// The report of a command that ran: its combined output cut to 4000 bytes,
/// and whether it exited successfully.
pub fn command_output(stdout: &str, stderr: &str, exit_success: bool) -> (r: ToolResult)
    requires
        clip_ok(combined_output(stdout@, stderr@), 4000),
    ensures
        r.success == exit_success,
        r.output@ == clipped(combined_output(stdout@, stderr@), 4000, "\n[truncated]"@),
{
    let mut c = chars_of(stdout);
    let e = chars_of(stderr);
    if e.len() > 0 {
        push_str(&mut c, "\nSTDERR:\n");
        push_all(&mut c, &e);
    }
    let o = clip(&c, 4000, &chars_of("\n[truncated]"));
    ToolResult { success: exit_success, output: string_of(&o) }
}

/// Whether [`command_output`] can cut the combined output of a command
/// between two characters.
pub fn command_output_ok(stdout: &str, stderr: &str) -> (r: bool)
    ensures
        r == clip_ok(combined_output(stdout@, stderr@), 4000),
{
    let mut c = chars_of(stdout);
    let e = chars_of(stderr);
    if e.len() > 0 {
        push_str(&mut c, "\nSTDERR:\n");
        push_all(&mut c, &e);
    }
    !utf8_len_gt(&c, 4000) || is_boundary_exec(&c, 4000)
}

/// The report of a command that could not be started.
pub fn command_error_output(err: &str) -> (r: ToolResult)
    ensures
        !r.success,
        r.output@ == "Error running command: "@ + err@,
{
    let mut o = chars_of("Error running command: ");
    push_str(&mut o, err);
    ToolResult { success: false, output: string_of(&o) }
}

/// The report of a search: the matches cut to 4000 bytes, or a note that
/// there were none.
pub fn search_output(stdout: &str) -> (r: ToolResult)
    requires
        clip_ok(stdout@, 4000),
    ensures
        r.success,
        r.output@ == if stdout@.len() == 0 {
            "No matches found."@
        } else {
            clipped(stdout@, 4000, "\n[truncated]"@)
        },
{
    let c = chars_of(stdout);
    let o = clip(&c, 4000, &chars_of("\n[truncated]"));
    if o.len() == 0 {
        ToolResult { success: true, output: String::from_str("No matches found.") }
    } else {
        ToolResult { success: true, output: string_of(&o) }
    }
}

/// The report of a search that could not be started.
pub fn search_error_output(err: &str) -> (r: ToolResult)
    ensures
        !r.success,
        r.output@ == "Error searching: "@ + err@,
{
    let mut o = chars_of("Error searching: ");
    push_str(&mut o, err);
    ToolResult { success: false, output: string_of(&o) }
}

/// The report of a paper search: its text, or the error that stopped it.
pub fn news_output(fetched: Result<String, String>) -> (r: ToolResult)
    ensures
        match fetched {
            Ok(t) => r.success && r.output@ == t@,
            Err(e) => !r.success && r.output@ == "Error fetching news: "@ + e@,
        },
{
    match fetched {
        Ok(t) => ToolResult { success: true, output: t },
        Err(e) => {
            let mut o = chars_of("Error fetching news: ");
            push_str(&mut o, e.as_str());
            ToolResult { success: false, output: string_of(&o) }
        },
    }
}

// ---------------------------------------------------------------------------
// arXiv feeds
// ---------------------------------------------------------------------------

/// Where the body of `<tag>...</tag>` lies in `src`: after the first opening
/// tag, up to the first closing tag.
pub open spec fn tag_bounds(src: Seq<char>, tag: Seq<char>) -> Option<(int, int)> {
    let open = "<"@ + tag + ">"@;
    let close = "</"@ + tag + ">"@;
    match (crate::text::find_from(src, open, 0), crate::text::find_from(src, close, 0)) {
        (Some(a), Some(b)) => Some((a + open.len(), b)),
        _ => None,
    }
}

/// Extraction does not slice backwards: the first closing tag does not come
/// before the end of the first opening tag.
pub open spec fn tag_ok(src: Seq<char>, tag: Seq<char>) -> bool {
    match tag_bounds(src, tag) {
        Some((a, b)) => a <= b,
        None => true,
    }
}

/// The body of `<tag>...</tag>` in `src`.
pub open spec fn tag_body(src: Seq<char>, tag: Seq<char>) -> Option<Seq<char>> {
    match tag_bounds(src, tag) {
        Some((a, b)) => Some(src.subrange(a, b)),
        None => None,
    }
}

/// `<tag>`, then `x`, then `</tag>`.
pub open spec fn wrapped(tag: Seq<char>, x: Seq<char>) -> Seq<char> {
    "<"@ + tag + ">"@ + x + "</"@ + tag + ">"@
}

/// Extraction gives back what was wrapped: for a tag without `<` or `/`
/// and a text without `<`, reading the tag from `<tag>x</tag>` is possible
/// and yields `x`.
pub proof fn lemma_tag_round_trip(tag: Seq<char>, x: Seq<char>)
    requires
        forall|i: int| 0 <= i < tag.len() ==> tag[i] != '<' && tag[i] != '/',
        forall|i: int| 0 <= i < x.len() ==> x[i] != '<',
    ensures
        tag_ok(wrapped(tag, x), tag),
        tag_body(wrapped(tag, x), tag) == Some(x),
{
    let open = "<"@ + tag + ">"@;
    let close = "</"@ + tag + ">"@;
    let src = wrapped(tag, x);
    reveal_strlit("<");
    reveal_strlit(">");
    reveal_strlit("</");
    let p: int = (open.len() + x.len()) as int;
    assert(src =~= open + x + close);
    assert(src.subrange(0, open.len() as int) =~= open);
    assert(src.subrange(p, p + close.len() as int) =~= close);
    assert(crate::text::has_at(src, 0, open));
    assert(crate::text::has_at(src, p, close));
    assert forall|k: int| 0 <= k < p implies !crate::text::has_at(src, k, close) by {
        if crate::text::has_at(src, k, close) {
            assert(src.subrange(k, k + close.len())[0] == close[0]);
            assert(src[k] == '<');
            if k == 0 {
                assert(src.subrange(k, k + close.len())[1] == close[1]);
                assert(src[1] == '/');
                if tag.len() > 0 {
                    assert(src[1] == tag[0]);
                } else {
                    assert(src[1] == '>');
                }
            } else if k <= tag.len() {
                assert(src[k] == tag[k - 1]);
            } else if k == tag.len() + 1 {
                assert(src[k] == '>');
            } else {
                assert(src[k] == x[k - open.len()]);
            }
        }
    }
    crate::text::lemma_find_from_props(src, open, 0);
    crate::text::lemma_find_from_props(src, close, 0);
    assert(src.subrange(open.len() as int, p) =~= x);
}

/// A tag that could not be found.
#[derive(Debug)]
pub struct TagError {
    pub message: String,
}

fn tag_positions(source: &Vec<char>, tag: &str) -> (r: (Option<usize>, usize))
    ensures
        match tag_bounds(source@, tag@) {
            Some((a, b)) => r.0 is Some && r.0->0 as int == a && r.1 as int == b && a
                <= source@.len() && b <= source@.len(),
            None => r.0 is None,
        },
{
    let mut open = chars_of("<");
    push_str(&mut open, tag);
    push_str(&mut open, ">");
    let mut close = chars_of("</");
    push_str(&mut close, tag);
    push_str(&mut close, ">");
    assert(open@ =~= "<"@ + tag@ + ">"@);
    assert(close@ =~= "</"@ + tag@ + ">"@);
    proof {
        crate::text::lemma_find_from_props(source@, open@, 0);
        crate::text::lemma_find_from_props(source@, close@, 0);
    }
    let fa = crate::text::find_from_exec(source, &open, 0);
    let fb = crate::text::find_from_exec(source, &close, 0);
    match fa {
        Some(a) => match fb {
            Some(b) => {
                assert(crate::text::has_at(source@, a as int, open@));
                assert(crate::text::has_at(source@, b as int, close@));
                assert(a + open@.len() <= source@.len());
                assert(a + open.len() <= source.len());
                (Some(a + open.len()), b)
            },
            None => (None, 0),
        },
        None => (None, 0),
    }
}

/// The text between the first `<tag>` and the first `</tag>` of `source`.
pub fn extract_tag(source: &str, tag: &str) -> (r: Result<String, TagError>)
    requires
        tag_ok(source@, tag@),
    ensures
        match r {
            Ok(s) => tag_body(source@, tag@) == Some(s@),
            Err(e) => tag_body(source@, tag@) is None && e.message@ == "Tag not found: "@ + tag@,
        },
{
    let s = chars_of(source);
    let (a, b) = tag_positions(&s, tag);
    match a {
        Some(a) => Ok(string_of(&slice_chars(&s, a, b))),
        None => {
            let mut m = chars_of("Tag not found: ");
            push_str(&mut m, tag);
            Err(TagError { message: string_of(&m) })
        },
    }
}

/// Whether [`extract_tag`] can read `tag` from `source` without slicing
/// backwards.
pub fn tag_ok_exec(source: &Vec<char>, tag: &str) -> (r: bool)
    ensures
        r == tag_ok(source@, tag@),
{
    let (a, b) = tag_positions(source, tag);
    match a {
        Some(a) => a <= b,
        None => true,
    }
}

/// The address of the arXiv query for `query`, spaces written as `+`.
pub fn arxiv_query_url(query: &str) -> (r: String)
    ensures
        r@ == "http://export.arxiv.org/api/query?search_query=all:"@ + crate::text::replace_char(
            query@,
            ' ',
            '+',
        ) + "&max_results=3"@,
{
    let q = chars_of(query);
    let mut o = chars_of("http://export.arxiv.org/api/query?search_query=all:");
    let ghost start = o@;
    let mut i: usize = 0;
    while i < q.len()
        invariant
            0 <= i <= q.len(),
            o@ == start + crate::text::replace_char(q@.take(i as int), ' ', '+'),
        decreases q.len() - i,
    {
        if q[i] == ' ' {
            o.push('+');
        } else {
            o.push(q[i]);
        }
        i = i + 1;
        assert(o@ =~= start + crate::text::replace_char(q@.take(i as int), ' ', '+'));
    }
    assert(q@.take(q.len() as int) =~= q@);
    push_str(&mut o, "&max_results=3");
    string_of(&o)
}

/// The summary of one feed entry.
pub open spec fn entry_summary(entry: Seq<char>) -> Seq<char> {
    let title = match tag_body(entry, "title"@) {
        Some(t) => t,
        None => "No Title"@,
    };
    let summary = match tag_body(entry, "summary"@) {
        Some(t) => t,
        None => "No Summary"@,
    };
    let author = match tag_body(entry, "author"@) {
        Some(a) => match tag_body(a, "name"@) {
            Some(n) => n,
            None => "Unknown"@,
        },
        None => "Unknown"@,
    };
    "Title: "@ + crate::text::trim(title) + "\nAuthor: "@ + crate::text::trim(author)
        + "\nSummary: "@ + crate::text::trim(summary) + "\n"@
}

/// The summaries of the pieces that hold a closing `</entry>`.
pub open spec fn entry_summaries(pieces: Seq<Seq<char>>) -> Seq<Seq<char>>
    decreases pieces.len(),
{
    if pieces.len() == 0 {
        seq![]
    } else {
        let rest = entry_summaries(pieces.drop_last());
        if crate::text::contains(pieces.last(), "</entry>"@) {
            rest.push(entry_summary(pieces.last()))
        } else {
            rest
        }
    }
}

/// The text reported for an arXiv feed: the summaries of its entries
/// separated by `---` rules, or a note that there were none.
pub open spec fn feed_report(feed: Seq<char>) -> Seq<char> {
    let s = entry_summaries(crate::text::split_str(feed, "<entry>"@));
    if s.len() == 0 {
        "No papers found on arXiv."@
    } else {
        crate::text::join(s, "\n---\n\n"@)
    }
}

/// Each entry of the feed can be read without slicing backwards.
pub open spec fn entry_ok(entry: Seq<char>) -> bool {
    crate::text::contains(entry, "</entry>"@) ==> {
        &&& tag_ok(entry, "title"@)
        &&& tag_ok(entry, "summary"@)
        &&& tag_ok(entry, "author"@)
        &&& match tag_body(entry, "author"@) {
            Some(a) => tag_ok(a, "name"@),
            None => true,
        }
    }
}

/// Every piece of the feed can be read without slicing backwards.
pub open spec fn feed_ok(feed: Seq<char>) -> bool {
    forall|i: int|
        0 <= i < crate::text::split_str(feed, "<entry>"@).len() ==> entry_ok(
            #[trigger] crate::text::split_str(feed, "<entry>"@)[i],
        )
}

fn entry_ok_exec(entry: &Vec<char>) -> (r: bool)
    ensures
        r == entry_ok(entry@),
{
    if !contains_str(entry, "</entry>") {
        return true;
    }
    if !tag_ok_exec(entry, "title") || !tag_ok_exec(entry, "summary") || !tag_ok_exec(
        entry,
        "author",
    ) {
        return false;
    }
    let (a, b) = tag_positions(entry, "author");
    match a {
        Some(a) => {
            let body = slice_chars(entry, a, b);
            tag_ok_exec(&body, "name")
        },
        None => true,
    }
}

/// Whether every entry of `feed` can be read without slicing backwards.
pub fn feed_ok_exec(feed: &str) -> (r: bool)
    ensures
        r == feed_ok(feed@),
{
    let f = chars_of(feed);
    proof {
        reveal_strlit("<entry>");
    }
    let pieces = split_str_exec(&f, &chars_of("<entry>"));
    let mut i: usize = 0;
    while i < pieces.len()
        invariant
            0 <= i <= pieces.len(),
            crate::text::views(pieces@) == crate::text::split_str(feed@, "<entry>"@),
            forall|k: int| 0 <= k < i ==> entry_ok(#[trigger] crate::text::views(pieces@)[k]),
        decreases pieces.len() - i,
    {
        if !entry_ok_exec(&pieces[i]) {
            assert(crate::text::views(pieces@)[i as int] == pieces@[i as int]@);
            return false;
        }
        i = i + 1;
    }
    true
}

fn tag_or(src: &Vec<char>, tag: &str, default: &str) -> (r: Vec<char>)
    requires
        tag_ok(src@, tag@),
    ensures
        r@ == match tag_body(src@, tag@) {
            Some(t) => t,
            None => default@,
        },
{
    let (a, b) = tag_positions(src, tag);
    match a {
        Some(a) => slice_chars(src, a, b),
        None => chars_of(default),
    }
}

fn entry_summary_exec(entry: &Vec<char>) -> (r: Vec<char>)
    requires
        entry_ok(entry@),
        crate::text::contains(entry@, "</entry>"@),
    ensures
        r@ == entry_summary(entry@),
{
    let title = tag_or(entry, "title", "No Title");
    let summary = tag_or(entry, "summary", "No Summary");
    let (a, b) = tag_positions(entry, "author");
    let author = match a {
        Some(a) => {
            let body = slice_chars(entry, a, b);
            tag_or(&body, "name", "Unknown")
        },
        None => chars_of("Unknown"),
    };
    let mut o = chars_of("Title: ");
    push_all(&mut o, &trim_exec(&title));
    push_str(&mut o, "\nAuthor: ");
    push_all(&mut o, &trim_exec(&author));
    push_str(&mut o, "\nSummary: ");
    push_all(&mut o, &trim_exec(&summary));
    push_str(&mut o, "\n");
    o
}

/// The text reported for an arXiv feed.
pub fn arxiv_feed_report(feed: &str) -> (r: String)
    requires
        feed_ok(feed@),
    ensures
        r@ == feed_report(feed@),
{
    let f = chars_of(feed);
    proof {
        reveal_strlit("<entry>");
    }
    let pieces = split_str_exec(&f, &chars_of("<entry>"));
    let mut results: Vec<Vec<char>> = Vec::new();
    let mut i: usize = 0;
    while i < pieces.len()
        invariant
            0 <= i <= pieces.len(),
            crate::text::views(pieces@) == crate::text::split_str(feed@, "<entry>"@),
            feed_ok(feed@),
            crate::text::views(results@) == entry_summaries(
                crate::text::views(pieces@).take(i as int),
            ),
        decreases pieces.len() - i,
    {
        proof {
            assert(crate::text::views(pieces@).take(i + 1).drop_last() =~= crate::text::views(
                pieces@,
            ).take(i as int));
            assert(crate::text::views(pieces@).take(i + 1).last() == pieces@[i as int]@);
            assert(entry_ok(crate::text::views(pieces@)[i as int]));
        }
        if contains_str(&pieces[i], "</entry>") {
            let s = entry_summary_exec(&pieces[i]);
            let ghost old_r = results@;
            results.push(s);
            proof {
                crate::text::lemma_views_push(old_r, s);
            }
        }
        i = i + 1;
    }
    assert(crate::text::views(pieces@).take(pieces.len() as int) =~= crate::text::views(pieces@));
    if results.len() == 0 {
        String::from_str("No papers found on arXiv.")
    } else {
        string_of(&join_exec(&results, &chars_of("\n---\n\n")))
    }
}

} // verus!
