//! The request model of the tool server and the routing of its requests.

use crate::text::same_text;
use vstd::prelude::*;
use vstd::string::StringExecFns;

verus! {

/// The tool server. It holds no state: every request is answered from the
/// request alone.
#[derive(Clone, Copy, Debug, PartialEq, Eq, Structural)]
pub struct McpServer;

/// Arguments of the `dedupe` tool.
#[derive(Clone, Debug)]
pub struct DedupeArgs {
    pub path: String,
    pub pattern: String,
    pub pattern_type: String,
    pub hidden: bool,
    pub no_ignore: bool,
    pub max_depth: Option<usize>,
    pub similarity: Option<u32>,
}

/// Arguments of the `search` tool.
#[derive(Clone, Debug)]
pub struct SearchArgs {
    pub path: String,
    pub pattern: String,
    pub pattern_type: String,
    pub hidden: bool,
    pub no_ignore: bool,
    pub max_depth: Option<usize>,
}

/// Arguments of the `count` tool.
#[derive(Clone, Debug)]
pub struct CountArgs {
    pub path: String,
    pub pattern: String,
    pub pattern_type: String,
    pub hidden: bool,
    pub no_ignore: bool,
    pub max_depth: Option<usize>,
}

/// How a directory is walked.
#[derive(Clone, Copy, Debug, PartialEq, Eq, Structural)]
pub struct WalkOptions {
    /// Include hidden files.
    pub include_hidden: bool,
    /// Respect `.gitignore` files.
    pub respect_gitignore: bool,
    /// Respect `.ignore` files.
    pub respect_ignore: bool,
    /// Maximum depth to traverse.
    pub max_depth: Option<usize>,
}

impl Default for WalkOptions {
    /// Hidden files are skipped, ignore files are respected, and the depth
    /// is unlimited.
    fn default() -> (options: WalkOptions)
        ensures
            options == (WalkOptions {
                include_hidden: false,
                respect_gitignore: true,
                respect_ignore: true,
                max_depth: None,
            }),
    {
        WalkOptions {
            include_hidden: false,
            respect_gitignore: true,
            respect_ignore: true,
            max_depth: None,
        }
    }
}

/// The walk that a request asks for: `no_ignore` switches off both kinds of
/// ignore file.
pub fn create_walk_options(hidden: bool, no_ignore: bool, max_depth: Option<usize>) -> (options:
    WalkOptions)
    ensures
        options == (WalkOptions {
            include_hidden: hidden,
            respect_gitignore: !no_ignore,
            respect_ignore: !no_ignore,
            max_depth,
        }),
{
    WalkOptions {
        include_hidden: hidden,
        respect_gitignore: !no_ignore,
        respect_ignore: !no_ignore,
        max_depth,
    }
}

/// The number of outliers reported where a request names none.
pub fn default_top_n() -> (n: usize)
    ensures
        n == 20,
{
    20
}

/// The value of a switch that is on unless a request turns it off.
pub fn default_true() -> (on: bool)
    ensures
        on,
{
    true
}

/// What a request asks the server to do.
#[derive(Clone, Copy, Debug, PartialEq, Eq, Structural)]
pub enum McpMethod {
    Initialize,
    ToolsList,
    ToolsCall,
    /// A method the server does not offer.
    Unknown,
}

/// A tool of the server.
#[derive(Clone, Copy, Debug, PartialEq, Eq, Structural)]
pub enum Tool {
    Dedupe,
    Search,
    Count,
    Outliers,
    AnalyzeFileClusters,
    /// A tool the server does not have.
    Unknown,
}

/// How the pattern of a request is to be read.
#[derive(Clone, Copy, Debug, PartialEq, Eq, Structural)]
pub enum PatternKind {
    Literal,
    Glob,
    Regex,
}

/// The method that the name `method` stands for.
pub open spec fn method_named(method: Seq<char>) -> McpMethod {
    if method == "initialize"@ {
        McpMethod::Initialize
    } else if method == "tools/list"@ {
        McpMethod::ToolsList
    } else if method == "tools/call"@ {
        McpMethod::ToolsCall
    } else {
        McpMethod::Unknown
    }
}

/// The tool that the name `name` stands for.
pub open spec fn tool_named(name: Seq<char>) -> Tool {
    if name == "dedupe"@ {
        Tool::Dedupe
    } else if name == "search"@ {
        Tool::Search
    } else if name == "count"@ {
        Tool::Count
    } else if name == "outliers"@ {
        Tool::Outliers
    } else if name == "analyze_file_clusters"@ {
        Tool::AnalyzeFileClusters
    } else {
        Tool::Unknown
    }
}

/// The kind of pattern that `pattern_type` names: the empty name stands for
/// a literal pattern, and an unknown name for none.
pub open spec fn pattern_kind_named(pattern_type: Seq<char>) -> Option<PatternKind> {
    if pattern_type == "literal"@ || pattern_type == ""@ {
        Some(PatternKind::Literal)
    } else if pattern_type == "glob"@ {
        Some(PatternKind::Glob)
    } else if pattern_type == "regex"@ {
        Some(PatternKind::Regex)
    } else {
        None
    }
}

impl McpServer {
    /// A server ready to answer requests.
    pub fn new() -> (server: McpServer)
        ensures
            server == McpServer,
    {
        McpServer
    }

    /// Decides what the request method `method` asks for.
    pub fn route(&self, method: &str) -> (target: McpMethod)
        ensures
            target == method_named(method@),
    {
        if same_text(method, "initialize") {
            McpMethod::Initialize
        } else if same_text(method, "tools/list") {
            McpMethod::ToolsList
        } else if same_text(method, "tools/call") {
            McpMethod::ToolsCall
        } else {
            McpMethod::Unknown
        }
    }

    /// Decides which tool a `tools/call` request names.
    pub fn route_tool(&self, name: &str) -> (tool: Tool)
        ensures
            tool == tool_named(name@),
    {
        if same_text(name, "dedupe") {
            Tool::Dedupe
        } else if same_text(name, "search") {
            Tool::Search
        } else if same_text(name, "count") {
            Tool::Count
        } else if same_text(name, "outliers") {
            Tool::Outliers
        } else if same_text(name, "analyze_file_clusters") {
            Tool::AnalyzeFileClusters
        } else {
            Tool::Unknown
        }
    }
}

impl Default for McpServer {
    fn default() -> (server: McpServer)
        ensures
            server == McpServer,
    {
        McpServer
    }
}

/// Reads the pattern type of a request.
pub fn pattern_kind(pattern_type: &str) -> (kind: Option<PatternKind>)
    ensures
        kind == pattern_kind_named(pattern_type@),
{
    if same_text(pattern_type, "literal") || same_text(pattern_type, "") {
        Some(PatternKind::Literal)
    } else if same_text(pattern_type, "glob") {
        Some(PatternKind::Glob)
    } else if same_text(pattern_type, "regex") {
        Some(PatternKind::Regex)
    } else {
        None
    }
}

/// The error code for a method that the server does not offer.
pub const METHOD_NOT_FOUND: i32 = -32601;

/// The error code for parameters that cannot be used.
pub const INVALID_PARAMS: i32 = -32602;

/// The error code for a failure while a request was carried out.
pub const INTERNAL_ERROR: i32 = -32603;

/// The error code for a request that is no JSON.
pub const PARSE_ERROR: i32 = -32700;

/// A request to the server.
#[derive(Debug)]
pub struct McpRequest {
    pub jsonrpc: String,
    pub id: serde_json::Value,
    pub method: String,
    pub params: Option<serde_json::Value>,
}

/// Why a request failed.
#[derive(Debug)]
pub struct McpError {
    pub code: i32,
    pub message: String,
    pub data: Option<serde_json::Value>,
}

/// The answer to a request: a result or an error, never both.
#[derive(Debug)]
pub struct McpResponse {
    pub jsonrpc: String,
    pub id: serde_json::Value,
    pub result: Option<serde_json::Value>,
    pub error: Option<McpError>,
}

/// The parameters of a `tools/call` request.
#[derive(Debug)]
pub struct ToolCallParams {
    pub name: String,
    pub arguments: serde_json::Value,
}

impl McpResponse {
    /// The response carries protocol version 2.0, the id `id` and the error
    /// `code` with `message`, and no result.
    pub open spec fn is_error(&self, id: serde_json::Value, code: i32, message: Seq<char>) -> bool {
        &&& self.jsonrpc@ == "2.0"@
        &&& self.id == id
        &&& self.result is None
        &&& self.error is Some
        &&& self.error->0.code == code
        &&& self.error->0.message@ == message
        &&& self.error->0.data is None
    }

    /// A successful response to the request `id`.
    pub fn success(id: serde_json::Value, result: serde_json::Value) -> (response: McpResponse)
        ensures
            response.jsonrpc@ == "2.0"@,
            response.id == id,
            response.result == Some(result),
            response.error is None,
    {
        McpResponse { jsonrpc: String::from_str("2.0"), id, result: Some(result), error: None }
    }

    /// An error response to the request `id`.
    pub fn error(id: serde_json::Value, code: i32, message: String) -> (response: McpResponse)
        ensures
            response.is_error(id, code, message@),
    {
        McpResponse {
            jsonrpc: String::from_str("2.0"),
            id,
            result: None,
            error: Some(McpError { code, message, data: None }),
        }
    }

    /// The response to a request for a method that the server does not offer.
    pub fn method_not_found(id: serde_json::Value, method: &str) -> (response: McpResponse)
        ensures
            response.is_error(id, METHOD_NOT_FOUND, "Method not found: "@ + method@),
    {
        McpResponse::error(id, METHOD_NOT_FOUND, String::from_str("Method not found: ").concat(method))
    }

    /// The response to a call of a tool that the server does not have.
    pub fn unknown_tool(id: serde_json::Value, name: &str) -> (response: McpResponse)
        ensures
            response.is_error(id, INVALID_PARAMS, "Unknown tool: "@ + name@),
    {
        McpResponse::error(id, INVALID_PARAMS, String::from_str("Unknown tool: ").concat(name))
    }

    /// The response to a `tools/call` request without parameters.
    pub fn missing_params(id: serde_json::Value) -> (response: McpResponse)
        ensures
            response.is_error(
                id,
                INVALID_PARAMS,
                "Invalid params: missing tool call parameters"@,
            ),
    {
        McpResponse::error(
            id,
            INVALID_PARAMS,
            String::from_str("Invalid params: missing tool call parameters"),
        )
    }

    /// The response to a line that is no request.
    pub fn parse_error(id: serde_json::Value) -> (response: McpResponse)
        ensures
            response.is_error(id, PARSE_ERROR, "Parse error"@),
    {
        McpResponse::error(id, PARSE_ERROR, String::from_str("Parse error"))
    }
}

} // verus!
