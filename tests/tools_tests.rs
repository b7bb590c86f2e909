use agent_tools::execute_cmd::{command_output, command_output_text, shell_name, ExecuteCmd};
use agent_tools::tools::{
    built_in_tool_names, BuiltInTool, BuiltInToolName, CanonicalToolName, McpTool, Tool, ToolExecutionOutput,
    ToolExecutionOutputItem, ToolKind, ToolParseErrorKind,
};
use agent_tools::tools::{tool_from_parts, AgentError, FsRead, ToolParseError, ToolUseBlock};

const ALL: [BuiltInToolName; 5] = [
    BuiltInToolName::FsRead,
    BuiltInToolName::FsWrite,
    BuiltInToolName::ExecuteCmd,
    BuiltInToolName::ImageRead,
    BuiltInToolName::Ls,
];

#[test]
fn test_tool_schemas() {
    for name in ALL.iter() {
        let schema = BuiltInTool::generate_tool_spec(name);
        println!("{} {} {}", schema.name, schema.description, schema.input_schema);
        assert_eq!(schema.name, name.as_str());
        assert!(serde_json::from_str::<serde_json::Value>(&schema.input_schema).unwrap().is_object());
    }
}

#[test]
fn test_built_in_tools() {
    built_in_tool_names();
}

#[test]
fn catalog_has_one_name_per_built_in() {
    let names = built_in_tool_names();
    assert_eq!(names.len(), 5);
    for (n, expected) in names.iter().zip(ALL.iter()) {
        match n {
            CanonicalToolName::BuiltIn(b) => assert_eq!(b, expected),
            _ => panic!("not a built-in name"),
        }
    }
}

#[test]
fn tool_names_and_context() {
    let tool = Tool {
        tool_use_purpose: None,
        kind: ToolKind::BuiltIn(BuiltInTool::ExecuteCmd(ExecuteCmd { command: "ls".to_string() })),
    };
    assert_eq!(tool.builtin_tool_name(), Some(BuiltInToolName::ExecuteCmd));
    assert_eq!(tool.mcp_server_name(), None);
    assert!(tool.get_context().is_none());
    let mcp = Tool {
        tool_use_purpose: Some("why".to_string()),
        kind: ToolKind::Mcp(McpTool {
            server_name: "srv".to_string(),
            tool_name: "t".to_string(),
            params: None,
        }),
    };
    assert_eq!(mcp.builtin_tool_name(), None);
    assert_eq!(mcp.mcp_server_name(), Some("srv"));
    assert_eq!(mcp.mcp_tool_name(), Some("t"));
    match mcp.canonical_tool_name() {
        CanonicalToolName::Mcp { server_name, tool_name } => {
            assert_eq!(server_name, "srv");
            assert_eq!(tool_name, "t");
        },
        _ => panic!("not an external name"),
    }
}

#[test]
fn default_output_has_one_empty_text() {
    let out = ToolExecutionOutput::default();
    assert_eq!(out.items.len(), 1);
    assert!(matches!(&out.items[0], ToolExecutionOutputItem::Text(t) if t.is_empty()));
}

#[test]
fn parse_error_kinds() {
    assert!(matches!(ToolParseErrorKind::invalid_args("x".to_string()), ToolParseErrorKind::InvalidArgs(m) if m == "x"));
    assert!(matches!(ToolParseErrorKind::schema_failure("y".to_string()), ToolParseErrorKind::SchemaFailure(m) if m == "y"));
}

#[test]
fn test_validate_empty_command() {
    let tool = ExecuteCmd { command: String::new() };
    assert!(tool.validate().is_err());
    assert!(ExecuteCmd { command: "echo 'hello world'".to_string() }.validate().is_ok());
}

#[test]
fn test_execute_with_exit_code() {
    let text = command_output_text("", "", 42);
    assert!(text.contains("42"));
    assert_eq!(text, "Command exited with code 42");
    assert_eq!(command_output(&vec![], &vec![], None), "Command exited with code -1");
}

#[test]
fn command_output_joins_streams() {
    assert_eq!(command_output_text("out", "err", 1), "out\n\nerr");
    assert_eq!(command_output_text("out", "", 1), "out");
    assert_eq!(command_output_text("", "err", 1), "err");
    assert_eq!(command_output(&b"hello world\n".to_vec(), &vec![0xff], Some(0)), "hello world\n\n\n\u{FFFD}");
}

#[test]
fn command_environment_and_shell() {
    let env = ExecuteCmd::command_env(&vec![]);
    assert_eq!(env.len(), 2);
    assert_eq!(env[0].0, "AWS_EXECUTION_ENV");
    assert_eq!(shell_name(None), "pwsh");
    assert_eq!(shell_name(Some("bash".to_string())), "bash");
    let args = ExecuteCmd { command: "exit 42".to_string() }.shell_args();
    assert_eq!(args, vec!["-NoProfile", "-NonInteractive", "-Command", "exit 42"]);
}

#[test]
fn parse_error_messages() {
    assert_eq!(
        ToolParseErrorKind::NameDoesNotExist("x".to_string()).message(),
        "A tool with the name 'x' does not exist"
    );
    assert_eq!(
        ToolParseErrorKind::Other(AgentError::Custom("Unimplemented".to_string())).message(),
        "An unexpected error occurred parsing the tools: Unimplemented"
    );
    let e = ToolParseError::new(
        ToolUseBlock { tool_use_id: "1".to_string(), name: "ls".to_string(), input: serde_json::Value::Null },
        ToolParseErrorKind::invalid_args("bad".to_string()),
    );
    assert_eq!(e.message(), "Failed to parse the tool use: The tool arguments failed validation: bad");
}

#[test]
fn parse_decides_by_name_class() {
    let agent = CanonicalToolName::Agent { agent_name: "a".to_string() };
    assert!(matches!(
        tool_from_parts(&agent, None, None, None, "{}"),
        Err(ToolParseErrorKind::Other(AgentError::Custom(m))) if m == "Unimplemented"
    ));
    let mcp = CanonicalToolName::Mcp { server_name: "s".to_string(), tool_name: "t".to_string() };
    assert!(matches!(
        tool_from_parts(&mcp, None, None, None, "Array []"),
        Err(ToolParseErrorKind::InvalidArgs(m)) if m == "Arguments must be an object, instead found Array []"
    ));
    let tool = tool_from_parts(&mcp, Some("why".to_string()), None, Some(serde_json::Map::new()), "Object {}").unwrap();
    assert_eq!(tool.tool_use_purpose.as_deref(), Some("why"));
    assert_eq!(tool.mcp_server_name(), Some("s"));
    let ls = CanonicalToolName::BuiltIn(BuiltInToolName::FsRead);
    let ok = tool_from_parts(&ls, None, Some(Ok(BuiltInTool::FileRead(FsRead { args: serde_json::Value::Null }))), None, "");
    assert_eq!(ok.unwrap().builtin_tool_name(), Some(BuiltInToolName::FsRead));
    let bad = tool_from_parts(&ls, Some("p".to_string()), Some(Err(ToolParseErrorKind::schema_failure("x".to_string()))), None, "");
    assert!(matches!(bad, Err(ToolParseErrorKind::SchemaFailure(m)) if m == "x"));
}
