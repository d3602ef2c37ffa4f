use aion_tui::tool_search::{ToolDef, ToolSearchTool};

fn defs() -> Vec<ToolDef> {
    vec![
        ToolDef {
            name: "WebFetch".to_string(),
            description: "Fetch a URL".to_string(),
            input_schema: serde_json::from_str("{\"type\":\"object\"}").unwrap(),
            deferred: true,
        },
        ToolDef {
            name: "Read".to_string(),
            description: "Read a file".to_string(),
            input_schema: serde_json::from_str("{}").unwrap(),
            deferred: false,
        },
        ToolDef {
            name: "NotebookEdit".to_string(),
            description: "Edit a notebook cell".to_string(),
            input_schema: serde_json::from_str("{}").unwrap(),
            deferred: true,
        },
    ]
}

#[test]
fn a_missing_query_is_an_error() {
    let tool = ToolSearchTool::new(defs());
    let outcome = tool.execute(None);
    assert!(outcome.result.is_error);
    assert_eq!(outcome.result.content, "Error: query is required");
    assert!(tool.execute(Some("")).result.is_error);
}

#[test]
fn matches_deferred_tools_by_name_or_description_in_any_case() {
    let tool = ToolSearchTool::with_loaded_schemas(defs());
    let outcome = tool.execute(Some("URL"));
    assert!(!outcome.result.is_error);
    assert!(outcome.result.content.contains("\"name\": \"WebFetch\""));
    assert!(outcome.result.content.contains("\"parameters\""));
    assert!(!outcome.result.content.contains("NotebookEdit"));
    assert_eq!(outcome.promoted, vec!["WebFetch".to_string()]);
    let plain = ToolSearchTool::new(defs());
    let outcome = plain.execute(Some("webfetch"));
    assert!(outcome.result.content.contains("WebFetch"));
    assert!(outcome.promoted.is_empty());
}

#[test]
fn non_deferred_tools_are_not_found() {
    let tool = ToolSearchTool::new(defs());
    let outcome = tool.execute(Some("read a file"));
    assert!(!outcome.result.is_error);
    assert!(outcome.result.content.starts_with("No deferred tools matching \"read a file\" found. "));
    assert!(outcome.result.content.contains("The only deferred tools in this session are: WebFetch, NotebookEdit."));
    assert_eq!(tool.deferred_names(), "WebFetch, NotebookEdit");
}

#[test]
fn a_miss_without_deferred_tools_says_so() {
    let tool = ToolSearchTool::new(Vec::new());
    let outcome = tool.execute(Some("x"));
    assert!(outcome.result.content.contains("There are no deferred tools in this session at all"));
    assert!(outcome.result.content.ends_with("invoke skills with the Skill tool."));
    assert_eq!(tool.name(), "ToolSearch");
    assert!(tool.is_concurrency_safe());
}

#[test]
fn input_schema_requires_a_string_query() {
    let tool = ToolSearchTool::new(defs());
    let schema: serde_json::Value = serde_json::from_str(&tool.input_schema()).unwrap();
    assert_eq!(schema["type"], "object");
    assert_eq!(schema["properties"]["query"]["type"], "string");
    assert_eq!(schema["required"][0], "query");
}

#[test]
fn a_deeply_nested_schema_is_returned_whole() {
    let mut schema = serde_json::Value::Bool(true);
    for _ in 0..200 {
        let mut object = serde_json::Map::new();
        object.insert("items".to_string(), schema);
        schema = serde_json::Value::Object(object);
    }
    let tool = ToolSearchTool::new(vec![ToolDef {
        name: "Deep".to_string(),
        description: "A deep schema".to_string(),
        input_schema: schema,
        deferred: true,
    }]);
    let content = tool.execute(Some("deep")).result.content;
    assert_eq!(content.matches("\"items\"").count(), 200);
    assert!(content.contains("true"));
}
