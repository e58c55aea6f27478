//! Model Context Protocol servers: their configuration, the registry of
//! the tools they offer (which server answers for which tool), and the
//! text of a tool call's result. Starting the servers and speaking
//! JSON-RPC to them happen outside this library.
use vstd::prelude::*;
use crate::text::{chars_of, equals_str, join_exec, push_str, string_of};

verus! {

/// How to start one MCP server.
#[derive(Debug, Clone)]
pub struct McpServerConfig {
    pub command: String,
    pub args: Vec<String>,
    /// Environment variables for the server, by name.
    pub env: Vec<(String, String)>,
}

/// The MCP servers to start, by name (`mcpServers` in the configuration
/// file).
#[derive(Debug, Clone)]
pub struct McpConfig {
    pub mcp_servers: Vec<(String, McpServerConfig)>,
}

/// A tool that an MCP server offers.
#[derive(Debug)]
pub struct McpTool {
    pub name: String,
    pub description: String,
    /// The JSON schema of its arguments, as JSON text.
    pub input_schema: String,
}

/// A tool as plain values: name, description, schema.
pub type ToolView = (Seq<char>, Seq<char>, Seq<char>);

pub open spec fn tool_view(t: McpTool) -> ToolView {
    (t.name@, t.description@, t.input_schema@)
}

/// A registered tool: the server that offers it, and the tool.
pub type EntryView = (Seq<char>, ToolView);

/// No two entries are for tools of the same name.
pub open spec fn unique_names(es: Seq<EntryView>) -> bool {
    forall|i: int, j: int| 0 <= i < j < es.len() ==> (#[trigger] es[i]).1.0 != (#[trigger] es[j]).1.0
}

/// Whether a tool of this name is registered.
pub open spec fn has_name(es: Seq<EntryView>, name: Seq<char>) -> bool {
    exists|i: int| 0 <= i < es.len() && (#[trigger] es[i]).1.0 == name
}

/// Where the tool of this name is registered.
pub open spec fn index_of(es: Seq<EntryView>, name: Seq<char>) -> int {
    choose|i: int| 0 <= i < es.len() && (#[trigger] es[i]).1.0 == name
}

/// The entry of the tool of this name.
pub open spec fn lookup(es: Seq<EntryView>, name: Seq<char>) -> Option<EntryView> {
    if has_name(es, name) {
        Some(es[index_of(es, name)])
    } else {
        None
    }
}

/// Registering an entry: it replaces the entry of a tool of the same name,
/// or is added after the others.
pub open spec fn registered(es: Seq<EntryView>, e: EntryView) -> Seq<EntryView> {
    if has_name(es, e.1.0) {
        es.update(index_of(es, e.1.0), e)
    } else {
        es.push(e)
    }
}

/// Registering keeps names unique; afterwards the tool's name leads to the
/// new entry, and every other name leads where it led before.
pub proof fn lemma_register_lookup(es: Seq<EntryView>, e: EntryView, other: Seq<char>)
    requires
        unique_names(es),
    ensures
        unique_names(registered(es, e)),
        lookup(registered(es, e), e.1.0) == Some(e),
        other != e.1.0 ==> lookup(registered(es, e), other) == lookup(es, other),
{
    let r = registered(es, e);
    if has_name(es, e.1.0) {
        let k = index_of(es, e.1.0);
        assert(0 <= k < es.len() && es[k].1.0 == e.1.0);
        assert(r[k] == e);
        assert forall|i: int, j: int| 0 <= i < j < r.len() implies (#[trigger] r[i]).1.0 != (
        #[trigger] r[j]).1.0 by {
            if i == k {
                assert(es[j].1.0 != es[k].1.0);
            } else if j == k {
                assert(es[i].1.0 != es[k].1.0);
            } else {
                assert(es[i].1.0 != es[j].1.0);
            }
        }
        assert(has_name(r, e.1.0));
        let k2 = index_of(r, e.1.0);
        if k2 != k {
            if k2 < k {
                assert(r[k2].1.0 != r[k].1.0);
            } else {
                assert(r[k].1.0 != r[k2].1.0);
            }
        }
        if other != e.1.0 {
            if has_name(es, other) {
                let m = index_of(es, other);
                assert(m != k);
                assert(r[m] == es[m]);
                assert(has_name(r, other));
                let m2 = index_of(r, other);
                if m2 != m {
                    if m2 < m {
                        assert(r[m2].1.0 != r[m].1.0);
                    } else {
                        assert(r[m].1.0 != r[m2].1.0);
                    }
                }
            } else {
                assert(!has_name(r, other)) by {
                    if has_name(r, other) {
                        let m2 = index_of(r, other);
                        assert(m2 != k);
                        assert(r[m2] == es[m2]);
                    }
                }
            }
        }
    } else {
        let k = es.len() as int;
        assert(r[k] == e);
        assert forall|i: int, j: int| 0 <= i < j < r.len() implies (#[trigger] r[i]).1.0 != (
        #[trigger] r[j]).1.0 by {
            if j == k {
                assert(r[i] == es[i]);
                assert(!(es[i].1.0 == e.1.0));
            } else {
                assert(es[i].1.0 != es[j].1.0);
            }
        }
        assert(has_name(r, e.1.0));
        let k2 = index_of(r, e.1.0);
        if k2 != k {
            assert(r[k2] == es[k2]);
        }
        if other != e.1.0 {
            if has_name(es, other) {
                let m = index_of(es, other);
                assert(r[m] == es[m]);
                assert(has_name(r, other));
                let m2 = index_of(r, other);
                if m2 != m {
                    if m2 < m {
                        assert(r[m2].1.0 != r[m].1.0);
                    } else {
                        assert(r[m].1.0 != r[m2].1.0);
                    }
                }
            } else {
                assert(!has_name(r, other)) by {
                    if has_name(r, other) {
                        let m2 = index_of(r, other);
                        assert(m2 != k);
                        assert(r[m2] == es[m2]);
                    }
                }
            }
        }
    }
}

/// The tools that the running MCP servers offer, each under the server
/// that offers it; a tool registered again replaces the earlier one.
pub struct McpRegistry {
    entries: Vec<(String, McpTool)>,
}

pub open spec fn entry_view(e: (String, McpTool)) -> EntryView {
    (e.0@, tool_view(e.1))
}

impl McpRegistry {
    /// The entries, in order of first registration.
    pub closed spec fn view_entries(&self) -> Seq<EntryView> {
        self.entries@.map_values(|e: (String, McpTool)| entry_view(e))
    }

    /// Tool names are unique.
    pub closed spec fn wf(&self) -> bool {
        unique_names(self.view_entries())
    }

    pub fn new() -> (r: McpRegistry)
        ensures
            r.wf(),
            r.view_entries() == Seq::<EntryView>::empty(),
    {
        let r = McpRegistry { entries: Vec::new() };
        assert(r.view_entries() =~= Seq::<EntryView>::empty());
        r
    }

    fn find(&self, name: &str) -> (r: Option<usize>)
        requires
            self.wf(),
        ensures
            match r {
                Some(k) => k < self.view_entries().len() && has_name(self.view_entries(), name@)
                    && index_of(self.view_entries(), name@) == k,
                None => !has_name(self.view_entries(), name@),
            },
    {
        let ghost es = self.view_entries();
        let n = chars_of(name);
        let mut i: usize = 0;
        while i < self.entries.len()
            invariant
                0 <= i <= self.entries.len(),
                es == self.view_entries(),
                es.len() == self.entries.len(),
                unique_names(es),
                n@ == name@,
                forall|k: int| 0 <= k < i ==> (#[trigger] es[k]).1.0 != name@,
            decreases self.entries.len() - i,
        {
            assert(es[i as int].1.0 == self.entries@[i as int].1.name@);
            if equals_str(&n, self.entries[i].1.name.as_str()) {
                proof {
                    assert(has_name(es, name@));
                    let k = index_of(es, name@);
                    if k != i {
                        if k < i {
                            assert(es[k].1.0 != name@);
                        } else {
                            assert(es[i as int].1.0 != es[k].1.0);
                        }
                    }
                }
                return Some(i);
            }
            i = i + 1;
        }
        None
    }

    /// Registers `tool` as offered by `server`, replacing any tool of the
    /// same name.
    pub fn register(&mut self, server: &str, tool: McpTool)
        requires
            old(self).wf(),
        ensures
            final(self).wf(),
            final(self).view_entries() == registered(
                old(self).view_entries(),
                (server@, tool_view(tool)),
            ),
    {
        let ghost es = self.view_entries();
        let ghost e = (server@, tool_view(tool));
        proof {
            lemma_register_lookup(es, e, seq![]);
        }
        match self.find(tool.name.as_str()) {
            Some(k) => {
                self.entries.set(k, (String::from_str(server), tool));
                assert(self.view_entries() =~= es.update(k as int, e));
            },
            None => {
                self.entries.push((String::from_str(server), tool));
                assert(self.view_entries() =~= es.push(e));
            },
        }
    }

    /// The server that offers the tool `name`, if any.
    pub fn server_of(&self, name: &str) -> (r: Option<String>)
        requires
            self.wf(),
        ensures
            match lookup(self.view_entries(), name@) {
                Some(e) => r matches Some(s) && s@ == e.0,
                None => r is None,
            },
    {
        match self.find(name) {
            Some(k) => Some(self.entries[k].0.clone()),
            None => None,
        }
    }

    /// Whether some server offers the tool `name`.
    pub fn has_tool(&self, name: &str) -> (r: bool)
        requires
            self.wf(),
        ensures
            r == has_name(self.view_entries(), name@),
    {
        self.find(name).is_some()
    }

    /// The server to call for the tool `name`, or the error that no server
    /// offers it.
    pub fn route(&self, name: &str) -> (r: Result<String, String>)
        requires
            self.wf(),
        ensures
            match lookup(self.view_entries(), name@) {
                Some(e) => r matches Ok(s) && s@ == e.0,
                None => r matches Err(m) && m@ == "Unknown MCP tool: "@ + name@,
            },
    {
        match self.server_of(name) {
            Some(s) => Ok(s),
            None => {
                let mut m = chars_of("Unknown MCP tool: ");
                push_str(&mut m, name);
                Err(string_of(&m))
            },
        }
    }

    /// Every registered tool, in order of first registration.
    pub fn list_all_tools(&self) -> (r: Vec<McpTool>)
        ensures
            r@.map_values(|t: McpTool| tool_view(t)) == self.view_entries().map_values(
                |e: EntryView| e.1,
            ),
    {
        let ghost es = self.view_entries();
        let mut r: Vec<McpTool> = Vec::new();
        let mut i: usize = 0;
        while i < self.entries.len()
            invariant
                0 <= i <= self.entries.len(),
                es == self.view_entries(),
                r@.map_values(|t: McpTool| tool_view(t)) == es.take(i as int).map_values(
                    |e: EntryView| e.1,
                ),
            decreases self.entries.len() - i,
        {
            let t = &self.entries[i].1;
            let c = McpTool {
                name: t.name.clone(),
                description: t.description.clone(),
                input_schema: t.input_schema.clone(),
            };
            let ghost before = r@;
            r.push(c);
            assert(r@.map_values(|x: McpTool| tool_view(x)) =~= before.map_values(
                |x: McpTool| tool_view(x),
            ).push(tool_view(c)));
            assert(es.take(i + 1).map_values(|e: EntryView| e.1) =~= es.take(i as int).map_values(
                |e: EntryView| e.1,
            ).push(es[i as int].1));
            i = i + 1;
        }
        assert(es.take(self.entries.len() as int) =~= es);
        r
    }
}

// ---------------------------------------------------------------------------
// Tool results
// ---------------------------------------------------------------------------

/// One block of a tool call's `content`: its `type` and `text`, when they
/// are strings.
#[derive(Debug, Clone)]
pub struct ContentBlock {
    pub kind: Option<String>,
    pub text: Option<String>,
}

/// The texts of the `text` blocks, in order.
pub open spec fn block_texts(bs: Seq<ContentBlock>) -> Seq<Seq<char>>
    decreases bs.len(),
{
    if bs.len() == 0 {
        seq![]
    } else {
        let rest = block_texts(bs.drop_last());
        let b = bs.last();
        match (b.kind, b.text) {
            (Some(k), Some(t)) => if k@ == "text"@ {
                rest.push(t@)
            } else {
                rest
            },
            _ => rest,
        }
    }
}

/// The output of a tool call: the texts of its `text` content blocks, one
/// per line; an error when the result has no content array.
pub fn tool_output(content: &Option<Vec<ContentBlock>>) -> (r: Result<String, String>)
    ensures
        match content {
            Some(bs) => r matches Ok(s) && s@ == crate::text::join(block_texts(bs@), "\n"@),
            None => r matches Err(m) && m@
                == "Invalid response format from tool call (missing content array)"@,
        },
{
    match content {
        Some(bs) => {
            let mut texts: Vec<Vec<char>> = Vec::new();
            let mut i: usize = 0;
            while i < bs.len()
                invariant
                    0 <= i <= bs.len(),
                    crate::text::views(texts@) == block_texts(bs@.take(i as int)),
                decreases bs.len() - i,
            {
                let b = &bs[i];
                assert(bs@.take(i + 1).drop_last() =~= bs@.take(i as int));
                match (&b.kind, &b.text) {
                    (Some(k), Some(t)) => {
                        if equals_str(&chars_of(k.as_str()), "text") {
                            let ghost tb = texts@;
                            let tc = chars_of(t.as_str());
                            texts.push(tc);
                            proof {
                                crate::text::lemma_views_push(tb, tc);
                            }
                        }
                    },
                    _ => {},
                }
                i = i + 1;
            }
            assert(bs@.take(bs.len() as int) =~= bs@);
            Ok(string_of(&join_exec(&texts, &chars_of("\n"))))
        },
        None => Err(String::from_str("Invalid response format from tool call (missing content array)")),
    }
}

} // verus!
