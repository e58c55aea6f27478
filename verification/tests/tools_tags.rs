use kota::tools::{build_tool_call, extract_tag, parse_tool_call, tool_arg_names, tool_definitions, ToolCall};

#[test]
fn test_extract_tag() {
    let xml = "<entry><title>Test Title</title><summary>Test Abstract</summary></entry>";
    let title = extract_tag(xml, "title").unwrap();
    assert_eq!(title, "Test Title");
    let summary = extract_tag(xml, "summary").unwrap();
    assert_eq!(summary, "Test Abstract");
}

#[test]
fn test_extract_tag_missing() {
    let xml = "<entry><summary>Test Abstract</summary></entry>";
    let res = extract_tag(xml, "title");
    assert!(res.is_err());
    assert_eq!(res.unwrap_err().message, "Tag not found: title");
}

#[test]
fn parse_read_file_joins_workdir() {
    match parse_tool_call("read_file", r#"{"path": "src/main.rs"}"#, "/work").unwrap() {
        ToolCall::ReadFile { path } => assert_eq!(path, "/work/src/main.rs"),
        other => panic!("unexpected {:?}", other),
    }
}

#[test]
fn parse_bad_json_uses_defaults() {
    match parse_tool_call("list_dir", "not json", "w").unwrap() {
        ToolCall::ListDir { path } => assert_eq!(path, "w/."),
        other => panic!("unexpected {:?}", other),
    }
    match parse_tool_call("search", r#"{"pattern": "fn main"}"#, "w/").unwrap() {
        ToolCall::Search { pattern, path } => {
            assert_eq!(pattern, "fn main");
            assert_eq!(path, "w/.");
        }
        other => panic!("unexpected {:?}", other),
    }
}

#[test]
fn parse_absolute_path_replaces_workdir() {
    match parse_tool_call("write_file", r#"{"path": "/tmp/x", "content": "hi"}"#, "w").unwrap() {
        ToolCall::WriteFile { path, content } => {
            assert_eq!(path, "/tmp/x");
            assert_eq!(content, "hi");
        }
        other => panic!("unexpected {:?}", other),
    }
}

#[test]
fn parse_unknown_tool() {
    let e = parse_tool_call("launch_rocket", "{}", ".").unwrap_err();
    assert_eq!(e.message, "Unknown tool: launch_rocket");
}

#[test]
fn catalog_lists_the_five_built_in_tools() {
    let defs = tool_definitions();
    let names: Vec<&str> = defs.iter().map(|d| d.function.name.as_str()).collect();
    assert_eq!(names, vec!["read_file", "write_file", "list_dir", "run_command", "search"]);
    for d in &defs {
        assert_eq!(d.function.parameters.schema_type, "object");
        assert!(d.function.parameters.properties.iter().all(|p| p.value_type == "string"));
        for r in &d.function.parameters.required {
            assert!(d.function.parameters.properties.iter().any(|p| &p.name == r));
        }
        assert!(parse_tool_call(&d.function.name, "{}", "w").is_ok());
    }
    assert_eq!(defs[1].function.parameters.required, vec!["path".to_string(), "content".to_string()]);
    assert!(defs[2].function.parameters.required.is_empty());
}

#[test]
fn extract_tag_gives_back_what_was_wrapped() {
    for (tag, body) in [("summary", "An abstract > with symbols & more"), ("t", ""), ("id", "http://arxiv.org/abs/1")] {
        let src = format!("<{}>{}</{}>", tag, body, tag);
        assert_eq!(extract_tag(&src, tag).unwrap(), body);
    }
}

#[test]
fn tool_call_from_found_arguments() {
    let found = vec![Some("notes.txt".to_string()), None];
    match build_tool_call("write_file", &found, "w").unwrap() {
        ToolCall::WriteFile { path, content } => {
            assert_eq!(path, "w/notes.txt");
            assert_eq!(content, "");
        }
        other => panic!("unexpected {:?}", other),
    }
    match build_tool_call("list_dir", &vec![], "w").unwrap() {
        ToolCall::ListDir { path } => assert_eq!(path, "w/."),
        other => panic!("unexpected {:?}", other),
    }
    assert_eq!(tool_arg_names("search"), vec!["pattern".to_string(), "path".to_string()]);
    assert!(tool_arg_names("launch_rocket").is_empty());
    assert_eq!(build_tool_call("launch_rocket", &vec![], ".").unwrap_err().message, "Unknown tool: launch_rocket");
}
