use workflow_core::js_source::{extract_balanced_braces, js_to_json, remove_comments};
use workflow_core::json::JsonValue;
use workflow_core::template::{substitute_variables, substituted};
use workflow_core::workflow::{parse_js_workflow, workflow_from_json, ParseError};

fn text(s: &str) -> JsonValue {
    JsonValue::Str(s.to_string())
}

fn num(t: &str) -> JsonValue {
    JsonValue::Number(t.to_string())
}

fn obj(members: Vec<(&str, JsonValue)>) -> JsonValue {
    JsonValue::Object(members.into_iter().map(|(k, v)| (k.to_string(), v)).collect())
}

fn as_text(v: &JsonValue) -> String {
    match v {
        JsonValue::Str(s) => s.clone(),
        other => panic!("expected a string, got {:?}", other),
    }
}

#[test]
fn whole_placeholder_keeps_number_type() {
    let ctx = obj(vec![("count", num("5"))]);
    let mut v = text("{{count}}");
    substitute_variables(&mut v, &ctx);
    match v {
        JsonValue::Number(t) => assert_eq!(t, "5"),
        other => panic!("expected a number, got {:?}", other),
    }
}

#[test]
fn embedded_placeholder_splices_nested_string() {
    let ctx = obj(vec![("user", obj(vec![("name", text("Alice"))]))]);
    let mut v = text("Hello, {{user.name}}!");
    substitute_variables(&mut v, &ctx);
    assert_eq!(as_text(&v), "Hello, Alice!");
}

#[test]
fn absent_path_left_verbatim_in_both_forms() {
    let ctx = obj(vec![("present", text("x"))]);
    let mut whole = text("{{missing.path}}");
    substitute_variables(&mut whole, &ctx);
    assert_eq!(as_text(&whole), "{{missing.path}}");
    let mut embedded = text("a {{missing}} b {{present}}");
    substitute_variables(&mut embedded, &ctx);
    assert_eq!(as_text(&embedded), "a {{missing}} b x");
}

#[test]
fn substitution_idempotent_without_placeholders() {
    let ctx = obj(vec![("a", text("b"))]);
    let v = obj(vec![
        ("plain", text("no templates here {")),
        ("list", JsonValue::Array(vec![num("1"), JsonValue::Bool(true), JsonValue::Null])),
    ]);
    let once = substituted(&v, &ctx);
    let twice = substituted(&once, &ctx);
    assert_eq!(format!("{:?}", once), format!("{:?}", v));
    assert_eq!(format!("{:?}", twice), format!("{:?}", once));
}

#[test]
fn expressions_are_not_evaluated() {
    let ctx = obj(vec![("a", text("b"))]);
    let mut v = text("x {{contains(a, '}')}} y");
    substitute_variables(&mut v, &ctx);
    assert_eq!(as_text(&v), "x {{contains(a, '}')}} y");
}

#[test]
fn non_string_values_spliced_as_compact_json() {
    let ctx = obj(vec![
        ("o", obj(vec![("k", text("q\"t\n"))])),
        ("arr", JsonValue::Array(vec![num("1"), JsonValue::Null, JsonValue::Bool(false)])),
    ]);
    let mut v = text("o={{o}} a={{ arr }} i={{arr.0}}");
    substitute_variables(&mut v, &ctx);
    assert_eq!(as_text(&v), "o={\"k\":\"q\\\"t\\n\"} a=[1,null,false] i=1");
}

#[test]
fn placeholder_does_not_span_lines() {
    let ctx = obj(vec![("a", text("b"))]);
    let mut v = text("{{a\n}} {{a}}");
    substitute_variables(&mut v, &ctx);
    assert_eq!(as_text(&v), "{{a\n}} b");
}

#[test]
fn arrays_and_objects_substituted_throughout() {
    let ctx = obj(vec![("n", num("7"))]);
    let mut v = obj(vec![("x", JsonValue::Array(vec![text("{{n}}"), text("n={{n}}")]))]);
    substitute_variables(&mut v, &ctx);
    let x = v.get("x").unwrap().as_array().unwrap();
    assert_eq!(x[0].as_u64(), Some(7));
    assert_eq!(as_text(&x[1]), "n=7");
}

#[test]
fn empty_steps_fail_for_all_three_idioms() {
    for js in [
        "export const workflow = { id: 'a', steps: [] };",
        "export default { id: 'a', steps: [] };",
        "module.exports = { id: 'a', steps: [] };",
    ] {
        let e = parse_js_workflow(js).err().unwrap();
        assert!(matches!(e, ParseError::NoSteps));
        assert!(e.message().contains("at least one step"));
    }
}

#[test]
fn key_quoting_leaves_colons_inside_values() {
    let out = js_to_json("{url: 'https://example.com', at: '10:30'}");
    assert_eq!(out, "{\"url\": \"https://example.com\", \"at\": \"10:30\"}");
}

#[test]
fn key_quoting_at_line_start_and_after_delimiters() {
    let out = js_to_json("{\nname :1,\n  [b:2]\nc: 3}");
    assert_eq!(out, "{\n\"name\":1,\n  [\"b\":2]\n\"c\": 3}");
}

#[test]
fn unicode_keys_are_quoted() {
    let out = js_to_json("{ключ: 1}");
    assert_eq!(out, "{\"ключ\": 1}");
}

#[test]
fn escaped_single_quote_kept() {
    let out = js_to_json("{a: 'it\\'s'}");
    assert_eq!(out, "{\"a\": \"it\\'s\"}");
}

#[test]
fn trailing_commas_removed_with_their_space() {
    let out = js_to_json("[1, 2 ,\n ]");
    assert_eq!(out, "[1, 2 ]");
}

#[test]
fn backticks_become_double_quotes() {
    assert_eq!(js_to_json("`a b` `c"), "\"a b\" `c");
}

#[test]
fn comments_inside_strings_are_kept() {
    let out = remove_comments("a = 'http://x' // note\nb /* c */ = \"/*x*/\"");
    assert_eq!(out, "a = 'http://x' \nb  = \"/*x*/\"");
}

#[test]
fn unterminated_block_comment_keeps_last_character() {
    assert_eq!(remove_comments("x /* y z"), "x z");
}

#[test]
fn balanced_braces_skip_strings_and_markers() {
    let r = extract_balanced_braces("  { a: '}', b: ${{ x }}, c: { d: 1 } } tail");
    assert_eq!(r, Some("{ a: '}', b: ${{ x }}, c: { d: 1 } }".to_string()));
    assert_eq!(extract_balanced_braces("x { }"), None);
    assert_eq!(extract_balanced_braces("{ { }"), None);
}

#[test]
fn unbalanced_export_reports_its_text() {
    let e = parse_js_workflow("export default { a: 1").err().unwrap();
    match e {
        ParseError::UnbalancedBraces(t) => assert_eq!(t, "{ a: 1"),
        other => panic!("unexpected {:?}", other),
    }
}

#[test]
fn invalid_json_reports_normalized_text() {
    let e = parse_js_workflow("export default { a: b }").err().unwrap();
    match e {
        ParseError::InvalidJson(t) => assert_eq!(t, "{ \"a\": b }"),
        other => panic!("unexpected {:?}", other),
    }
}

#[test]
fn wrong_field_type_names_the_field() {
    let e = parse_js_workflow("export default { id: 5, steps: [1] }").err().unwrap();
    match &e {
        ParseError::WrongFieldType(f) => assert_eq!(f, "id"),
        other => panic!("unexpected {:?}", other),
    }
    assert!(e.message().contains("id"));
    let e = parse_js_workflow("export default { timeout: -1, steps: [1] }").err().unwrap();
    assert!(matches!(e, ParseError::WrongFieldType(ref f) if f == "timeout"));
}

#[test]
fn non_object_is_not_a_workflow() {
    let e = workflow_from_json(&JsonValue::Array(vec![])).err().unwrap();
    assert!(matches!(e, ParseError::NotAnObject));
}

#[test]
fn missing_steps_reported() {
    let e = parse_js_workflow("module.exports = { id: 'x' }").err().unwrap();
    assert!(matches!(e, ParseError::MissingSteps));
}

#[test]
fn template_markers_survive_parsing() {
    let js = "export const workflow = { steps: [{ tool_name: 't', arguments: { text: '${{ inputs.userName }}' } }] };";
    let w = parse_js_workflow(js).unwrap();
    let t = w.steps[0].get("arguments").unwrap().get("text").unwrap();
    assert_eq!(t.as_str(), Some("${{ inputs.userName }}"));
}

#[test]
fn first_idiom_in_order_is_used() {
    let js = "module.exports = { id: 'm', steps: [1] };\nexport default { id: 'd', steps: [1] };";
    let w = parse_js_workflow(js).unwrap();
    assert_eq!(w.id, Some("d".to_string()));
}
