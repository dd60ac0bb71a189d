use rclean::mcp::{
    create_walk_options, default_top_n, default_true, pattern_kind, McpError, McpMethod,
    McpResponse, McpServer, PatternKind, Tool, WalkOptions,
};
use serde_json::Value;

#[test]
fn test_mcp_server_new() {
    let _server = McpServer::new();
    // Just ensure it can be created
    let _default_server = McpServer;
}

#[test]
fn test_walk_options_default() {
    let options = WalkOptions::default();
    assert!(!options.include_hidden);
    assert!(options.respect_gitignore);
    assert!(options.respect_ignore);
    assert!(options.max_depth.is_none());
}

#[test]
fn routes_known_methods() {
    let server = McpServer::new();
    assert_eq!(server.route("initialize"), McpMethod::Initialize);
    assert_eq!(server.route("tools/list"), McpMethod::ToolsList);
    assert_eq!(server.route("tools/call"), McpMethod::ToolsCall);
    assert_eq!(server.route("unknown/method"), McpMethod::Unknown);
    assert_eq!(server.route(""), McpMethod::Unknown);
}

#[test]
fn routes_tools_by_name() {
    let server = McpServer::default();
    assert_eq!(server.route_tool("dedupe"), Tool::Dedupe);
    assert_eq!(server.route_tool("search"), Tool::Search);
    assert_eq!(server.route_tool("count"), Tool::Count);
    assert_eq!(server.route_tool("outliers"), Tool::Outliers);
    assert_eq!(server.route_tool("analyze_file_clusters"), Tool::AnalyzeFileClusters);
    assert_eq!(server.route_tool("Dedupe"), Tool::Unknown);
}

#[test]
fn reads_pattern_kinds() {
    assert_eq!(pattern_kind("literal"), Some(PatternKind::Literal));
    assert_eq!(pattern_kind(""), Some(PatternKind::Literal));
    assert_eq!(pattern_kind("glob"), Some(PatternKind::Glob));
    assert_eq!(pattern_kind("regex"), Some(PatternKind::Regex));
    assert_eq!(pattern_kind("fuzzy"), None);
}

#[test]
fn walk_options_follow_the_request() {
    let options = create_walk_options(true, true, Some(3));
    assert!(options.include_hidden);
    assert!(!options.respect_gitignore);
    assert!(!options.respect_ignore);
    assert_eq!(options.max_depth, Some(3));
    assert_eq!(default_top_n(), 20);
    assert!(default_true());
}

fn object(key: &str, value: &str) -> Value {
    let mut map = serde_json::Map::new();
    map.insert(key.to_string(), Value::from(value));
    Value::Object(map)
}

#[test]
fn mcp_integration_test_mcp_response_success() {
    let response = McpResponse::success(Value::from(1), object("result", "ok"));

    assert_eq!(response.jsonrpc, "2.0");
    assert_eq!(response.id, Value::from(1));
    assert!(response.result.is_some());
    assert!(response.error.is_none());
}

#[test]
fn mcp_integration_test_mcp_response_error() {
    let response = McpResponse::error(Value::from(1), -32601, "Method not found".to_string());

    assert_eq!(response.jsonrpc, "2.0");
    assert_eq!(response.id, Value::from(1));
    assert!(response.result.is_none());
    assert!(response.error.is_some());

    let error = response.error.unwrap();
    assert_eq!(error.code, -32601);
    assert_eq!(error.message, "Method not found");
}

#[test]
fn test_mcp_error_creation() {
    let error = McpError { code: -32600, message: "Invalid Request".to_string(), data: None };

    assert_eq!(error.code, -32600);
    assert_eq!(error.message, "Invalid Request");
}

#[test]
fn mcp_handlers_coverage_test_mcp_response_success() {
    let response = McpResponse::success(Value::from(1), object("test", "data"));
    assert!(response.result.is_some());
    assert!(response.error.is_none());
    assert_eq!(response.id, Value::from(1));
    assert_eq!(response.jsonrpc, "2.0");
    assert_eq!(response.result, Some(object("test", "data")));
}

#[test]
fn mcp_handlers_coverage_test_mcp_response_error() {
    let response = McpResponse::error(Value::from(1), -32600, "Invalid Request".to_string());
    assert!(response.result.is_none());
    assert!(response.error.is_some());
    assert_eq!(response.id, Value::from(1));
    assert_eq!(response.jsonrpc, "2.0");

    let error = response.error.unwrap();
    assert_eq!(error.code, -32600);
    assert_eq!(error.message, "Invalid Request");
}

#[test]
fn refusals_carry_their_code_and_message() {
    let error = McpResponse::method_not_found(Value::from(7), "unknown/method").error.unwrap();
    assert_eq!((error.code, error.message.as_str()), (-32601, "Method not found: unknown/method"));
    assert!(error.data.is_none());

    let error = McpResponse::unknown_tool(Value::Null, "shred").error.unwrap();
    assert_eq!((error.code, error.message.as_str()), (-32602, "Unknown tool: shred"));

    let response = McpResponse::missing_params(Value::from("a"));
    assert_eq!(response.id, Value::from("a"));
    let error = response.error.unwrap();
    assert_eq!(
        (error.code, error.message.as_str()),
        (-32602, "Invalid params: missing tool call parameters")
    );

    let response = McpResponse::parse_error(Value::Null);
    assert!(response.result.is_none());
    let error = response.error.unwrap();
    assert_eq!((error.code, error.message.as_str()), (-32700, "Parse error"));
}
