use workflow_core::definition::{
    build_execution_context, sequence_step_from_json, validate_variables, DefinitionError,
    ValidationError, VariableDefinition, VariableType,
};
use workflow_core::helpers::{
    extract_content_json, extract_required_tools, generate_step_description,
    get_selectors_tried, get_selectors_tried_all, get_wait_condition, infer_expected_outcomes,
    is_state_changing_action, parse_alternative_selectors, should_add_focus_check,
    should_capture_tree, suggested_selector, short_tool_name, build_element_not_found_error,
    is_valid_extraction, build_element_info, ElementFacts,
};
use workflow_core::definition::variables_from_json;
use workflow_core::json::JsonValue;
use workflow_core::sequence::{SequenceItem, ToolCall};
use workflow_core::json::decimal_text;

fn text(s: &str) -> JsonValue {
    JsonValue::Str(s.to_string())
}

fn obj(members: Vec<(&str, JsonValue)>) -> JsonValue {
    JsonValue::Object(members.into_iter().map(|(k, v)| (k.to_string(), v)).collect())
}

fn call(name: &str, args: JsonValue) -> ToolCall {
    ToolCall { tool_name: name.to_string(), arguments: args, continue_on_error: None, delay_ms: None, id: None }
}

#[test]
fn alternatives_trimmed_and_empty_dropped() {
    assert_eq!(parse_alternative_selectors(Some(" a ,, b,  ")), vec!["a".to_string(), "b".to_string()]);
    assert!(parse_alternative_selectors(None).is_empty());
    assert!(parse_alternative_selectors(Some("")).is_empty());
}

#[test]
fn selectors_tried_in_order() {
    assert_eq!(get_selectors_tried("p", Some("x,y")), vec!["p", "x", "y"]);
    assert_eq!(get_selectors_tried_all("p", None, Some(" f ")), vec!["p", "f"]);
}

#[test]
fn wait_conditions() {
    assert_eq!(get_wait_condition("navigate_browser"), Some("Page loads completely".to_string()));
    assert_eq!(get_wait_condition("open_application"), Some("Application window appears".to_string()));
    assert_eq!(get_wait_condition("press_key"), None);
}

#[test]
fn required_tools_each_once() {
    let calls = vec![call("a", JsonValue::Null), call("b", JsonValue::Null), call("a", JsonValue::Null)];
    let mut tools = extract_required_tools(&calls);
    tools.sort();
    assert_eq!(tools, vec!["a", "b"]);
}

#[test]
fn expected_outcomes_of_calls() {
    let calls = vec![
        call("navigate_browser", JsonValue::Null),
        call("click_element", obj(vec![("selector", text("role:Button|name:Submit"))])),
        call("click_element", obj(vec![("selector", text("role:Button|name:Cancel"))])),
        call("select_option", JsonValue::Null),
        call("press_key", JsonValue::Null),
    ];
    assert_eq!(
        infer_expected_outcomes(&calls),
        vec![
            "Target webpage loaded successfully",
            "Form submitted successfully",
            "Option selected in dropdown"
        ]
    );
}

#[test]
fn focus_checks() {
    let calls = vec![call("open_application", JsonValue::Null), call("click_element", JsonValue::Null)];
    assert!(should_add_focus_check(&calls, 0));
    assert!(should_add_focus_check(&calls, 1));
    assert!(!should_add_focus_check(&calls, 2));
}

#[test]
fn state_changing_actions() {
    assert!(is_state_changing_action("mouse_drag"));
    assert!(!is_state_changing_action("get_window_tree"));
}

#[test]
fn tree_capture_points() {
    assert!(should_capture_tree("navigate_browser", 3, 10));
    assert!(should_capture_tree("x", 5, 10));
    assert!(should_capture_tree("x", 9, 10));
    assert!(!should_capture_tree("x", 3, 10));
    assert!(should_capture_tree("navigate_browser", 0, 0));
    assert!(!should_capture_tree("x", 1, 0));
}

#[test]
fn step_descriptions() {
    let args = obj(vec![("text_to_type", text("hi")), ("selector", text("#1"))]);
    assert_eq!(generate_step_description("type_into_element", &args), "Type 'hi' into #1");
    assert_eq!(generate_step_description("click_element", &JsonValue::Null), "Click on element: unknown");
    assert_eq!(generate_step_description("select_option", &obj(vec![])), "Select 'option' from dropdown");
    assert_eq!(generate_step_description("zoom_in", &obj(vec![])), "Execute zoom_in");
}

#[test]
fn suggested_selectors() {
    assert_eq!(suggested_selector("12", "Button", "OK"), "Button|OK");
    assert_eq!(suggested_selector("12", "Unknown", "OK"), "#12");
    assert_eq!(suggested_selector("12", "Button", ""), "#12");
}

#[test]
fn content_json_read_from_text_items() {
    let item = obj(vec![("type", text("text")), ("text", text("{\"a\": [1, 2]}"))]);
    let v = extract_content_json(&item);
    assert_eq!(v.get("a").unwrap().as_array().unwrap().len(), 2);
    let plain = obj(vec![("type", text("text")), ("text", text("not json"))]);
    assert_eq!(extract_content_json(&plain).get("text").and_then(|t| t.as_str()), Some("not json"));
}

#[test]
fn decimal_numbers() {
    assert_eq!(decimal_text(0), "0");
    assert_eq!(decimal_text(18446744073709551615), "18446744073709551615");
}

fn def(t: VariableType, default: Option<JsonValue>, required: Option<bool>) -> VariableDefinition {
    VariableDefinition { var_type: t, default, required, options: None }
}

#[test]
fn context_merges_defaults_inputs_and_selectors() {
    let schema = vec![
        ("name".to_string(), def(VariableType::String, Some(text("John")), None)),
        ("count".to_string(), def(VariableType::Number, Some(JsonValue::Number("5".to_string())), None)),
    ];
    let inputs = obj(vec![("name", text("Jane")), ("extra", JsonValue::Bool(true))]);
    let selectors = text("{\"button\": \"role:Button\"}");
    let ctx = build_execution_context(&Some(schema), &Some(inputs), &Some(selectors)).unwrap();
    assert_eq!(ctx.get("name").and_then(|v| v.as_str()), Some("Jane"));
    assert_eq!(ctx.get("count").and_then(|v| v.as_u64()), Some(5));
    assert_eq!(ctx.get("extra").map(|v| matches!(v, JsonValue::Bool(true))), Some(true));
    let sel = ctx.get("selectors").unwrap();
    assert_eq!(sel.get("button").and_then(|v| v.as_str()), Some("role:Button"));
}

#[test]
fn unparsable_selector_string_kept() {
    let ctx = build_execution_context(&None, &None, &Some(text("role:Edit"))).unwrap();
    assert_eq!(ctx.get("selectors").and_then(|v| v.as_str()), Some("role:Edit"));
}

#[test]
fn validation_errors() {
    let schema = vec![("n".to_string(), def(VariableType::Number, None, None))];
    let e = validate_variables(&schema, &Some(obj(vec![("n", text("x"))]))).err().unwrap();
    assert!(matches!(e, ValidationError::WrongType { ref key, expected: VariableType::Number } if key == "n"));
    let e = validate_variables(&schema, &None).err().unwrap();
    assert!(matches!(e, ValidationError::MissingRequired { ref key } if key == "n"));
    let optional = vec![("n".to_string(), def(VariableType::Number, None, Some(false)))];
    assert!(validate_variables(&optional, &None).is_ok());
    let mut en = def(VariableType::Enum, None, None);
    en.options = Some(vec!["a".to_string(), "b".to_string()]);
    let enums = vec![("e".to_string(), en)];
    assert!(validate_variables(&enums, &Some(obj(vec![("e", text("b"))]))).is_ok());
    let e = validate_variables(&enums, &Some(obj(vec![("e", text("c"))]))).err().unwrap();
    assert!(matches!(e, ValidationError::NotAnOption { ref key } if key == "e"));
    let e = build_execution_context(&None, &Some(text("x")), &None).err().unwrap();
    assert!(matches!(e, ValidationError::InvalidInputs));
}

#[test]
fn steps_read_from_json() {
    let tool = obj(vec![
        ("tool_name", text("click_element")),
        ("id", text("s1")),
        ("retries", JsonValue::Number("2".to_string())),
        ("fallback_id", text("s0")),
        ("if", text("always()")),
    ]);
    let st = sequence_step_from_json(&tool).unwrap();
    assert_eq!(st.id, Some("s1".to_string()));
    assert_eq!(st.retries, Some(2));
    assert_eq!(st.if_expr, Some("always()".to_string()));
    match st.item {
        SequenceItem::Tool { tool_call } => {
            assert_eq!(tool_call.tool_name, "click_element");
            assert!(matches!(tool_call.arguments, JsonValue::Object(ref m) if m.is_empty()));
        }
        other => panic!("unexpected {:?}", other),
    }
    let group = obj(vec![
        ("group_name", text("g")),
        ("skippable", JsonValue::Bool(true)),
        ("steps", JsonValue::Array(vec![obj(vec![("tool_name", text("a"))])])),
    ]);
    match sequence_step_from_json(&group).unwrap().item {
        SequenceItem::Group { tool_group } => {
            assert_eq!(tool_group.group_name, "g");
            assert_eq!(tool_group.skippable, Some(true));
            assert_eq!(tool_group.steps.len(), 1);
        }
        other => panic!("unexpected {:?}", other),
    }
    let e = sequence_step_from_json(&obj(vec![("id", text("x"))])).err().unwrap();
    assert!(matches!(e, DefinitionError::NeitherToolNorGroup));
    let e = sequence_step_from_json(&obj(vec![("tool_name", JsonValue::Bool(true))])).err().unwrap();
    assert!(matches!(e, DefinitionError::WrongFieldType(ref f) if f == "tool_name"));
}

#[test]
fn client_prefix_stripped_from_tool_names() {
    assert_eq!(short_tool_name("mcp_terminator-mcp-agent_click_element"), "click_element");
    assert_eq!(short_tool_name("click_element"), "click_element");
}

#[test]
fn not_found_payload_lists_selectors() {
    let p = build_element_not_found_error("a", Some("b, c"), Some("d"), "gone");
    let tried: Vec<&str> = p.get("selectors_tried").unwrap().as_array().unwrap().iter().map(|v| v.as_str().unwrap()).collect();
    assert_eq!(tried, vec!["a", "b", "c", "d"]);
    assert!(p.get("message").and_then(|m| m.as_str()).unwrap().ends_with("Original error: gone"));
    assert_eq!(p.get("suggestions").unwrap().as_array().unwrap().len(), 4);
}

#[test]
fn extraction_validity() {
    let item = obj(vec![("name", text("x")), ("price", JsonValue::Null)]);
    let data = JsonValue::Array(vec![item]);
    assert!(!is_valid_extraction(&JsonValue::Null, &obj(vec![])));
    assert!(is_valid_extraction(&data, &obj(vec![("min_items", JsonValue::Number("1".to_string()))])));
    assert!(!is_valid_extraction(&data, &obj(vec![("min_items", JsonValue::Number("2".to_string()))])));
    assert!(is_valid_extraction(&data, &obj(vec![("required_fields", JsonValue::Array(vec![text("name")]))])));
    assert!(!is_valid_extraction(&data, &obj(vec![("required_fields", JsonValue::Array(vec![text("price")]))])));
    assert!(!is_valid_extraction(&JsonValue::Array(vec![]), &obj(vec![("required_fields", JsonValue::Array(vec![]))])));
}

#[test]
fn variable_definitions_read_from_json() {
    let vars = vec![
        ("n".to_string(), obj(vec![("type", text("number")), ("default", JsonValue::Number("5".to_string())), ("label", text("N"))])),
        ("e".to_string(), obj(vec![("type", text("enum")), ("options", JsonValue::Array(vec![text("a")])), ("required", JsonValue::Bool(false))])),
    ];
    let s = variables_from_json(&vars).unwrap();
    assert_eq!(s[0].0, "n");
    assert_eq!(s[0].1.var_type, VariableType::Number);
    assert_eq!(s[0].1.default.as_ref().and_then(|d| d.as_u64()), Some(5));
    assert_eq!(s[1].1.options, Some(vec!["a".to_string()]));
    assert_eq!(s[1].1.required, Some(false));
    let bad = vec![("x".to_string(), obj(vec![("type", text("date"))]))];
    assert!(matches!(variables_from_json(&bad).err().unwrap(), ValidationError::InvalidDefinition { ref key } if key == "x"));
}

#[test]
fn element_info_suggests_role_and_name() {
    let facts = ElementFacts {
        id: "42".to_string(),
        role: "Button".to_string(),
        name: "OK".to_string(),
        application: "app".to_string(),
        window_title: "w".to_string(),
        process_id: 7,
        is_focused: true,
        text: "".to_string(),
        bounds: None,
        enabled: true,
        is_selected: false,
        is_toggled: false,
        keyboard_focusable: true,
    };
    let info = build_element_info(&facts);
    assert_eq!(info.get("suggested_selector").and_then(|v| v.as_str()), Some("Button|OK"));
    assert_eq!(info.get("process_id").and_then(|v| v.as_u64()), Some(7));
    assert!(info.get("bounds").unwrap().is_null());
}
