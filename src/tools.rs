//! Tool identity, the built-in catalog, parsed tool values and the
//! execution result and error model.
use std::sync::Arc;
use vstd::prelude::*;

use crate::execute_cmd::ExecuteCmd;
use crate::fs_write::{FsWrite, FsWriteContext, FsWriteState};
use crate::image_read::{make_tool_description, ImageBlock, ImageRead};
use crate::ls::Ls;
use crate::text::concat;

verus! {

/// Declares serde_json's JSON value so that it can be carried through the
/// library unread.
#[verifier::external_type_specification]
#[verifier::external_body]
pub struct ExJsonValue(serde_json::Value);

/// Declares serde_json's JSON object map, carried unread.
#[verifier::external_type_specification]
#[verifier::external_body]
#[verifier::reject_recursive_types(K)]
#[verifier::reject_recursive_types(V)]
pub struct ExJsonMap<K, V>(serde_json::Map<K, V>);

/// Relies on serde_json's `Clone` for `Value`, which copies the value.
pub assume_specification[ <serde_json::Value as Clone>::clone ](v: &serde_json::Value) -> serde_json::Value;

/// Relies on serde_json's `Clone` for `Map`, which copies the map.
pub assume_specification[ <serde_json::Map<String, serde_json::Value> as Clone>::clone ](
    m: &serde_json::Map<String, serde_json::Value>,
) -> serde_json::Map<String, serde_json::Value>;

/// Declares std's I/O error, kept as the cause of an execution failure.
#[verifier::external_type_specification]
#[verifier::external_body]
pub struct ExIoError(std::io::Error);

/// The built-in tools, under their wire-visible names.
#[derive(Debug, Clone, Copy, PartialEq, Eq, Hash, Structural)]
pub enum BuiltInToolName {
    FsRead,
    FsWrite,
    ExecuteCmd,
    ImageRead,
    Ls,
}

/// Every built-in tool name, in catalog order.
pub open spec fn all_builtin_names() -> Seq<BuiltInToolName> {
    seq![
        BuiltInToolName::FsRead,
        BuiltInToolName::FsWrite,
        BuiltInToolName::ExecuteCmd,
        BuiltInToolName::ImageRead,
        BuiltInToolName::Ls,
    ]
}

impl BuiltInToolName {
    /// The camel-case identifier used on the wire.
    pub open spec fn spec_name(self) -> Seq<char> {
        match self {
            BuiltInToolName::FsRead => "fsRead"@,
            BuiltInToolName::FsWrite => "fsWrite"@,
            BuiltInToolName::ExecuteCmd => "executeCmd"@,
            BuiltInToolName::ImageRead => "imageRead"@,
            BuiltInToolName::Ls => "ls"@,
        }
    }

    pub fn as_str(&self) -> (r: &'static str)
        ensures
            r@ == self.spec_name(),
    {
        match self {
            BuiltInToolName::FsRead => "fsRead",
            BuiltInToolName::FsWrite => "fsWrite",
            BuiltInToolName::ExecuteCmd => "executeCmd",
            BuiltInToolName::ImageRead => "imageRead",
            BuiltInToolName::Ls => "ls",
        }
    }
}

/// The one addressing scheme for built-in and externally registered tools.
#[derive(Debug, Clone)]
pub enum CanonicalToolName {
    BuiltIn(BuiltInToolName),
    Mcp { server_name: String, tool_name: String },
    Agent { agent_name: String },
}

impl From<BuiltInToolName> for CanonicalToolName {
    fn from(name: BuiltInToolName) -> (r: Self) {
        CanonicalToolName::BuiltIn(name)
    }
}

impl vstd::std_specs::convert::FromSpecImpl<BuiltInToolName> for CanonicalToolName {
    open spec fn obeys_from_spec() -> bool {
        true
    }

    open spec fn from_spec(name: BuiltInToolName) -> Self {
        CanonicalToolName::BuiltIn(name)
    }
}

/// One canonical name for each built-in tool, in catalog order.
pub fn built_in_tool_names() -> (r: Vec<CanonicalToolName>)
    ensures
        r@.len() == all_builtin_names().len(),
        forall|i: int|
            0 <= i < r@.len() ==> r@[i] == CanonicalToolName::BuiltIn(
                #[trigger] all_builtin_names()[i],
            ),
{
    vec![
        CanonicalToolName::BuiltIn(BuiltInToolName::FsRead),
        CanonicalToolName::BuiltIn(BuiltInToolName::FsWrite),
        CanonicalToolName::BuiltIn(BuiltInToolName::ExecuteCmd),
        CanonicalToolName::BuiltIn(BuiltInToolName::ImageRead),
        CanonicalToolName::BuiltIn(BuiltInToolName::Ls),
    ]
}

/// A machine-readable description of a tool: its name, a prose description
/// and the JSON schema of its input, as JSON text.
#[derive(Debug, Clone)]
pub struct ToolSpec {
    pub name: String,
    pub description: String,
    pub input_schema: String,
}

/// A call of a tool that the library leaves to an external registry.
#[derive(Debug, Clone)]
pub struct McpTool {
    pub server_name: String,
    pub tool_name: String,
    pub params: Option<serde_json::Map<String, serde_json::Value>>,
}

impl McpTool {
    pub fn canonical_tool_name(&self) -> (r: CanonicalToolName)
        ensures
            r matches CanonicalToolName::Mcp { server_name, tool_name } && server_name@
                == self.server_name@ && tool_name@ == self.tool_name@,
    {
        CanonicalToolName::Mcp {
            server_name: self.server_name.clone(),
            tool_name: self.tool_name.clone(),
        }
    }
}

/// Reading files is served outside this core; its arguments are kept as given.
#[derive(Debug, Clone)]
pub struct FsRead {
    pub args: serde_json::Value,
}

/// Declared tools that dispatch does not serve yet.
#[derive(Debug, Clone)]
pub struct Grep {
    pub args: serde_json::Value,
}

#[derive(Debug, Clone)]
pub struct Mkdir {
    pub args: serde_json::Value,
}

#[derive(Debug, Clone)]
pub struct Introspect {
    pub args: serde_json::Value,
}

/// The typed payload of a built-in tool call.
#[derive(Debug, Clone)]
pub enum BuiltInTool {
    FileRead(FsRead),
    FileWrite(FsWrite),
    Grep(Grep),
    Ls(Ls),
    Mkdir(Mkdir),
    ImageRead(ImageRead),
    ExecuteCmd(ExecuteCmd),
    Introspect(Introspect),
    SpawnSubagent,
}

pub const FS_READ_TOOL_DESCRIPTION: &'static str = "
A tool for reading files and directories.

HOW TO USE:
- Provide the path of the file to read
";

pub const FS_READ_SCHEMA: &'static str = r#"
{
    "type": "object",
    "properties": {
        "path": {
            "type": "string",
            "description": "Path to the file"
        }
    },
    "required": [
        "path"
    ]
}
"#;

/// The prose description of each built-in tool.
pub open spec fn tool_description(name: BuiltInToolName) -> Seq<char> {
    match name {
        BuiltInToolName::FsRead => FS_READ_TOOL_DESCRIPTION@,
        BuiltInToolName::FsWrite => crate::fs_write::FS_WRITE_TOOL_DESCRIPTION@,
        BuiltInToolName::ExecuteCmd => crate::execute_cmd::EXECUTE_CMD_TOOL_DESCRIPTION@,
        BuiltInToolName::ImageRead => crate::image_read::image_read_description(),
        BuiltInToolName::Ls => crate::ls::LS_TOOL_DESCRIPTION@,
    }
}

/// The JSON schema text of each built-in tool's input.
pub open spec fn tool_input_schema(name: BuiltInToolName) -> Seq<char> {
    match name {
        BuiltInToolName::FsRead => FS_READ_SCHEMA@,
        BuiltInToolName::FsWrite => crate::fs_write::FS_WRITE_SCHEMA@,
        BuiltInToolName::ExecuteCmd => crate::execute_cmd::EXECUTE_CMD_SCHEMA@,
        BuiltInToolName::ImageRead => crate::image_read::IMAGE_READ_SCHEMA@,
        BuiltInToolName::Ls => crate::ls::LS_SCHEMA@,
    }
}

impl BuiltInTool {
    /// Whether dispatch serves this variant.
    pub open spec fn is_wired(&self) -> bool {
        match self {
            BuiltInTool::FileRead(_) | BuiltInTool::FileWrite(_) | BuiltInTool::Ls(_)
            | BuiltInTool::ImageRead(_) | BuiltInTool::ExecuteCmd(_) => true,
            _ => false,
        }
    }

    pub open spec fn spec_tool_name(&self) -> BuiltInToolName {
        match self {
            BuiltInTool::FileRead(_) => BuiltInToolName::FsRead,
            BuiltInTool::FileWrite(_) => BuiltInToolName::FsWrite,
            BuiltInTool::Ls(_) => BuiltInToolName::Ls,
            BuiltInTool::ImageRead(_) => BuiltInToolName::ImageRead,
            _ => BuiltInToolName::ExecuteCmd,
        }
    }

    /// The description and input schema of a built-in tool. Each name has one.
    pub fn generate_tool_spec(name: &BuiltInToolName) -> (r: ToolSpec)
        ensures
            r.name@ == name.spec_name(),
            r.description@ == tool_description(*name),
            r.input_schema@ == tool_input_schema(*name),
    {
        let (description, input_schema) = match name {
            BuiltInToolName::FsRead => (
                FS_READ_TOOL_DESCRIPTION.to_owned(),
                FS_READ_SCHEMA.to_owned(),
            ),
            BuiltInToolName::FsWrite => (
                crate::fs_write::FS_WRITE_TOOL_DESCRIPTION.to_owned(),
                crate::fs_write::FS_WRITE_SCHEMA.to_owned(),
            ),
            BuiltInToolName::ExecuteCmd => (
                crate::execute_cmd::EXECUTE_CMD_TOOL_DESCRIPTION.to_owned(),
                crate::execute_cmd::EXECUTE_CMD_SCHEMA.to_owned(),
            ),
            BuiltInToolName::ImageRead => (
                make_tool_description(),
                crate::image_read::IMAGE_READ_SCHEMA.to_owned(),
            ),
            BuiltInToolName::Ls => (
                crate::ls::LS_TOOL_DESCRIPTION.to_owned(),
                crate::ls::LS_SCHEMA.to_owned(),
            ),
        };
        ToolSpec { name: name.as_str().to_owned(), description, input_schema }
    }

    /// The name of a wired built-in tool; the others are not served.
    pub fn tool_name(&self) -> (r: BuiltInToolName)
        requires
            self.is_wired(),
        ensures
            r == self.spec_tool_name(),
    {
        match self {
            BuiltInTool::FileRead(_) => BuiltInToolName::FsRead,
            BuiltInTool::FileWrite(_) => BuiltInToolName::FsWrite,
            BuiltInTool::Ls(_) => BuiltInToolName::Ls,
            BuiltInTool::ImageRead(_) => BuiltInToolName::ImageRead,
            _ => BuiltInToolName::ExecuteCmd,
        }
    }

    pub fn canonical_tool_name(&self) -> (r: CanonicalToolName)
        requires
            self.is_wired(),
        ensures
            r == CanonicalToolName::BuiltIn(self.spec_tool_name()),
    {
        CanonicalToolName::from(self.tool_name())
    }
}

/// What the metadata of a path says: whether it is a regular file or a
/// directory, and its size in bytes.
#[derive(Debug, Clone, Copy, PartialEq, Eq, Structural)]
pub struct FileFacts {
    pub is_file: bool,
    pub is_dir: bool,
    pub len: u64,
}

/// A parsed call: a built-in tool or one forwarded to an external registry.
#[derive(Debug, Clone)]
pub enum ToolKind {
    BuiltIn(BuiltInTool),
    Mcp(McpTool),
}

impl ToolKind {
    /// Whether the call names a tool that dispatch serves.
    pub open spec fn is_wired(&self) -> bool {
        match self {
            ToolKind::BuiltIn(b) => b.is_wired(),
            ToolKind::Mcp(_) => true,
        }
    }

    pub fn canonical_tool_name(&self) -> (r: CanonicalToolName)
        requires
            self.is_wired(),
        ensures
            self matches ToolKind::BuiltIn(b) ==> r == CanonicalToolName::BuiltIn(
                b.spec_tool_name(),
            ),
            self matches ToolKind::Mcp(m) ==> r matches CanonicalToolName::Mcp {
                server_name,
                tool_name,
            } && server_name@ == m.server_name@ && tool_name@ == m.tool_name@,
    {
        match self {
            ToolKind::BuiltIn(built_in) => built_in.canonical_tool_name(),
            ToolKind::Mcp(mcp) => mcp.canonical_tool_name(),
        }
    }

    /// The tool name if this is a built-in tool.
    pub fn builtin_tool_name(&self) -> (r: Option<BuiltInToolName>)
        requires
            self.is_wired(),
        ensures
            self matches ToolKind::BuiltIn(b) ==> r == Some(b.spec_tool_name()),
            self matches ToolKind::Mcp(_) ==> r is None,
    {
        match self {
            ToolKind::BuiltIn(v) => Some(v.tool_name()),
            ToolKind::Mcp(_) => None,
        }
    }

    /// The server name if this is an externally registered tool.
    pub fn mcp_server_name(&self) -> (r: Option<&str>)
        ensures
            self matches ToolKind::Mcp(m) ==> r matches Some(s) && s@ == m.server_name@,
            self matches ToolKind::BuiltIn(_) ==> r is None,
    {
        match self {
            ToolKind::BuiltIn(_) => None,
            ToolKind::Mcp(mcp) => Some(mcp.server_name.as_str()),
        }
    }

    /// The tool name if this is an externally registered tool.
    pub fn mcp_tool_name(&self) -> (r: Option<&str>)
        ensures
            self matches ToolKind::Mcp(m) ==> r matches Some(s) && s@ == m.tool_name@,
            self matches ToolKind::BuiltIn(_) ==> r is None,
    {
        match self {
            ToolKind::BuiltIn(_) => None,
            ToolKind::Mcp(mcp) => Some(mcp.tool_name.as_str()),
        }
    }

    /// Context shown before running the call: the target of a file write.
    pub fn get_context(&self) -> (r: Option<ToolContext>)
        ensures
            self matches ToolKind::BuiltIn(BuiltInTool::FileWrite(fw)) ==> r matches Some(
                ToolContext::FileWrite(c),
            ) && c.path@ == fw.spec_path(),
            !(self matches ToolKind::BuiltIn(BuiltInTool::FileWrite(_))) ==> r is None,
    {
        match self {
            ToolKind::BuiltIn(BuiltInTool::FileWrite(fw)) => Some(
                ToolContext::FileWrite(fw.make_context()),
            ),
            _ => None,
        }
    }
}

/// A call ready to run: an optional statement of its purpose and the tool.
#[derive(Debug, Clone)]
pub struct Tool {
    pub tool_use_purpose: Option<String>,
    pub kind: ToolKind,
}

impl Tool {
    pub fn kind(&self) -> (r: &ToolKind)
        ensures
            r == &self.kind,
    {
        &self.kind
    }

    pub fn canonical_tool_name(&self) -> (r: CanonicalToolName)
        requires
            self.kind.is_wired(),
        ensures
            self.kind matches ToolKind::BuiltIn(b) ==> r == CanonicalToolName::BuiltIn(
                b.spec_tool_name(),
            ),
            self.kind matches ToolKind::Mcp(m) ==> r matches CanonicalToolName::Mcp {
                server_name,
                tool_name,
            } && server_name@ == m.server_name@ && tool_name@ == m.tool_name@,
    {
        self.kind.canonical_tool_name()
    }

    /// The tool name if this is a built-in tool.
    pub fn builtin_tool_name(&self) -> (r: Option<BuiltInToolName>)
        requires
            self.kind.is_wired(),
        ensures
            self.kind matches ToolKind::BuiltIn(b) ==> r == Some(b.spec_tool_name()),
            self.kind matches ToolKind::Mcp(_) ==> r is None,
    {
        self.kind.builtin_tool_name()
    }

    /// The server name if this is an externally registered tool.
    pub fn mcp_server_name(&self) -> (r: Option<&str>)
        ensures
            self.kind matches ToolKind::Mcp(m) ==> r matches Some(s) && s@ == m.server_name@,
            self.kind matches ToolKind::BuiltIn(_) ==> r is None,
    {
        self.kind.mcp_server_name()
    }

    /// The tool name if this is an externally registered tool.
    pub fn mcp_tool_name(&self) -> (r: Option<&str>)
        ensures
            self.kind matches ToolKind::Mcp(m) ==> r matches Some(s) && s@ == m.tool_name@,
            self.kind matches ToolKind::BuiltIn(_) ==> r is None,
    {
        self.kind.mcp_tool_name()
    }

    pub fn get_context(&self) -> (r: Option<ToolContext>)
        ensures
            self.kind matches ToolKind::BuiltIn(BuiltInTool::FileWrite(fw)) ==> r matches Some(
                ToolContext::FileWrite(c),
            ) && c.path@ == fw.spec_path(),
            !(self.kind matches ToolKind::BuiltIn(BuiltInTool::FileWrite(_))) ==> r is None,
    {
        self.kind.get_context()
    }
}

#[derive(Debug, Clone)]
pub enum ToolContext {
    FileRead,
    FileWrite(FsWriteContext),
}

/// An image handed back to the caller: its format and its bytes.
#[derive(Debug, Clone)]
pub enum ToolExecutionOutputItem {
    Text(String),
    Json(serde_json::Value),
    Image(ImageBlock),
}

impl From<String> for ToolExecutionOutputItem {
    fn from(value: String) -> (r: Self) {
        Self::Text(value)
    }
}

impl vstd::std_specs::convert::FromSpecImpl<String> for ToolExecutionOutputItem {
    open spec fn obeys_from_spec() -> bool {
        true
    }

    open spec fn from_spec(value: String) -> Self {
        ToolExecutionOutputItem::Text(value)
    }
}

/// What a successful execution returns: at least one item.
#[derive(Debug, Clone)]
pub struct ToolExecutionOutput {
    pub items: Vec<ToolExecutionOutputItem>,
}

impl ToolExecutionOutput {
    pub fn new(items: Vec<ToolExecutionOutputItem>) -> (r: Self)
        ensures
            r.items@ == items@,
    {
        Self { items }
    }

    /// A single text item.
    pub fn text(s: String) -> (r: Self)
        ensures
            r.items@.len() == 1,
            r.items@[0] matches ToolExecutionOutputItem::Text(t) && t@ == s@,
    {
        Self { items: vec![ToolExecutionOutputItem::Text(s)] }
    }
}

impl Default for ToolExecutionOutput {
    /// One empty text item: callers may rely on at least one item.
    fn default() -> (r: Self)
        ensures
            r.items@.len() == 1,
            r.items@[0] matches ToolExecutionOutputItem::Text(t) && t@.len() == 0,
    {
        Self::text(String::new())
    }
}

/// State kept across calls for the tools that need it.
#[derive(Debug, Clone)]
pub struct ToolState {
    pub file_write: Option<FsWriteState>,
}

impl Default for ToolState {
    fn default() -> (r: Self)
        ensures
            r.file_write is None,
    {
        ToolState { file_write: None }
    }
}

/// Why an execution failed: an I/O step, with what was attempted, or a
/// domain failure described in words.
#[derive(Debug, Clone)]
pub enum ToolExecutionError {
    Io { context: String, source: Option<Arc<std::io::Error>> },
    Custom(String),
}

impl ToolExecutionError {
    pub fn io(context: String, source: std::io::Error) -> (r: Self)
        ensures
            r matches ToolExecutionError::Io { context: c, source: Some(a) } && c@ == context@ && *a
                == source,
    {
        Self::Io { context, source: Some(Arc::new(source)) }
    }
}

impl From<String> for ToolExecutionError {
    fn from(value: String) -> (r: Self) {
        Self::Custom(value)
    }
}

impl vstd::std_specs::convert::FromSpecImpl<String> for ToolExecutionError {
    open spec fn obeys_from_spec() -> bool {
        true
    }

    open spec fn from_spec(value: String) -> Self {
        ToolExecutionError::Custom(value)
    }
}

/// Builds a parsed call from its name and what was decoded from its
/// arguments: `purpose` is the stated purpose, taken out of the arguments
/// beforehand; `decoded` is a built-in tool's typed payload or its schema
/// error; `params` is the argument object of an externally registered tool,
/// absent when the arguments are not an object; `shown` is how those
/// arguments print. Calls to agents are not served.
pub fn tool_from_parts(
    name: &CanonicalToolName,
    purpose: Option<String>,
    decoded: Option<Result<BuiltInTool, ToolParseErrorKind>>,
    params: Option<serde_json::Map<String, serde_json::Value>>,
    shown: &str,
) -> (r: Result<Tool, ToolParseErrorKind>)
    requires
        name is BuiltIn ==> decoded is Some,
    ensures
        name is Agent ==> (r matches Err(ToolParseErrorKind::Other(AgentError::Custom(m))) && m@
            == "Unimplemented"@),
        (name is Mcp && params is None) ==> (r matches Err(ToolParseErrorKind::InvalidArgs(m)) && m@
            == "Arguments must be an object, instead found "@ + shown@),
        (name is Mcp && params is Some) ==> (r is Ok && r->Ok_0.tool_use_purpose == purpose
            && r->Ok_0.kind is Mcp && r->Ok_0.kind->Mcp_0.server_name@ == name->server_name@
            && r->Ok_0.kind->Mcp_0.tool_name@ == name->tool_name@ && r->Ok_0.kind->Mcp_0.params
            == params),
        (name is BuiltIn && decoded->0 is Ok) ==> r == Ok::<Tool, ToolParseErrorKind>(
            Tool { tool_use_purpose: purpose, kind: ToolKind::BuiltIn(decoded->0->Ok_0) },
        ),
        (name is BuiltIn && decoded->0 is Err) ==> r == Err::<Tool, ToolParseErrorKind>(
            decoded->0->Err_0,
        ),
{
    match name {
        CanonicalToolName::BuiltIn(_) => match decoded {
            Some(Ok(tool)) => Ok(Tool { tool_use_purpose: purpose, kind: ToolKind::BuiltIn(tool) }),
            Some(Err(e)) => Err(e),
            None => Err(ToolParseErrorKind::Other(AgentError::Custom("Unimplemented".to_owned()))),
        },
        CanonicalToolName::Mcp { server_name, tool_name } => match params {
            Some(p) => Ok(
                Tool {
                    tool_use_purpose: purpose,
                    kind: ToolKind::Mcp(
                        McpTool {
                            server_name: server_name.clone(),
                            tool_name: tool_name.clone(),
                            params: Some(p),
                        },
                    ),
                },
            ),
            None => Err(
                ToolParseErrorKind::InvalidArgs(
                    concat("Arguments must be an object, instead found ", shown),
                ),
            ),
        },
        CanonicalToolName::Agent { .. } => Err(
            ToolParseErrorKind::Other(AgentError::Custom("Unimplemented".to_owned())),
        ),
    }
}

/// An error raised by the agent's own machinery.
#[derive(Debug, Clone)]
pub enum AgentError {
    Custom(String),
}

/// A tool call as the model issued it.
#[derive(Debug, Clone)]
pub struct ToolUseBlock {
    pub tool_use_id: String,
    pub name: String,
    pub input: serde_json::Value,
}

/// Why a tool call could not be turned into a tool ready to run.
#[derive(Debug, Clone)]
pub enum ToolParseErrorKind {
    NameDoesNotExist(String),
    SchemaFailure(String),
    InvalidArgs(String),
    Other(AgentError),
}

impl AgentError {
    pub fn message(&self) -> (r: String)
        ensures
            self matches AgentError::Custom(m) && r@ == m@,
    {
        match self {
            AgentError::Custom(m) => m.clone(),
        }
    }
}

/// The text of a parse failure.
pub open spec fn parse_error_text(k: ToolParseErrorKind) -> Seq<char> {
    match k {
        ToolParseErrorKind::NameDoesNotExist(n) => "A tool with the name '"@ + n@ + "' does not exist"@,
        ToolParseErrorKind::SchemaFailure(m) => "The tool input does not match the tool schema: "@ + m@,
        ToolParseErrorKind::InvalidArgs(m) => "The tool arguments failed validation: "@ + m@,
        ToolParseErrorKind::Other(AgentError::Custom(m)) => "An unexpected error occurred parsing the tools: "@
            + m@,
    }
}

impl ToolParseErrorKind {
    /// The failure in words.
    pub fn message(&self) -> (r: String)
        ensures
            r@ == parse_error_text(*self),
    {
        match self {
            ToolParseErrorKind::NameDoesNotExist(n) => {
                let a = concat("A tool with the name '", n.as_str());
                concat(a.as_str(), "' does not exist")
            },
            ToolParseErrorKind::SchemaFailure(m) => concat(
                "The tool input does not match the tool schema: ",
                m.as_str(),
            ),
            ToolParseErrorKind::InvalidArgs(m) => concat("The tool arguments failed validation: ", m.as_str()),
            ToolParseErrorKind::Other(e) => concat(
                "An unexpected error occurred parsing the tools: ",
                e.message().as_str(),
            ),
        }
    }

    /// The arguments do not have the tool's shape; `message` says how.
    pub fn schema_failure(message: String) -> (r: Self)
        ensures
            r matches ToolParseErrorKind::SchemaFailure(m) && m@ == message@,
    {
        Self::SchemaFailure(message)
    }

    pub fn invalid_args(error_message: String) -> (r: Self)
        ensures
            r matches ToolParseErrorKind::InvalidArgs(m) && m@ == error_message@,
    {
        Self::InvalidArgs(error_message)
    }
}

/// A failed parse, with the call that caused it.
#[derive(Debug, Clone)]
pub struct ToolParseError {
    pub tool_use: ToolUseBlock,
    pub kind: ToolParseErrorKind,
}

impl ToolParseError {
    /// The failure in words.
    pub fn message(&self) -> (r: String)
        ensures
            r@ == "Failed to parse the tool use: "@ + parse_error_text(self.kind),
    {
        concat("Failed to parse the tool use: ", self.kind.message().as_str())
    }

    pub fn new(tool_use: ToolUseBlock, kind: ToolParseErrorKind) -> (r: Self)
        ensures
            r.tool_use == tool_use,
            r.kind == kind,
    {
        Self { tool_use, kind }
    }
}

} // verus!
