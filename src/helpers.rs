//! Small rules around tool calls: selector lists, wait conditions, the
//! expected outcomes and descriptions of recorded calls, and when to check
//! focus or capture the UI tree.
use crate::json::{
    field, lemma_view_items, number_u64, parse_json, parsed_json, view_items, view_members,
    Json, JsonValue,
};
use crate::records::{push_member, text_value};
use crate::sequence::ToolCall;
use crate::text::{
    char_views, chars_of, contains_text, find_text, same_chars, split_chars, split_on,
    string_from, trim, trimmed,
};
use vstd::prelude::*;

verus! {

pub open spec fn string_views(v: Seq<String>) -> Seq<Seq<char>> {
    Seq::new(v.len(), |i: int| v[i]@)
}

pub open spec fn opt_str(a: Option<&str>) -> Option<Seq<char>> {
    match a {
        Some(s) => Some(s@),
        None => None,
    }
}

/// The trimmed pieces that are not empty, in order.
pub open spec fn kept_pieces(ps: Seq<Seq<char>>) -> Seq<Seq<char>>
    decreases ps.len(),
{
    if ps.len() == 0 {
        seq![]
    } else if trim(ps.last()).len() > 0 {
        kept_pieces(ps.drop_last()).push(trim(ps.last()))
    } else {
        kept_pieces(ps.drop_last())
    }
}

/// The selectors of a comma-separated list: each trimmed, empty ones left out.
pub open spec fn alternatives_of(a: Option<Seq<char>>) -> Seq<Seq<char>> {
    match a {
        Some(s) => kept_pieces(split_on(s, ',')),
        None => seq![],
    }
}

fn push_string(out: &mut Vec<String>, s: String)
    ensures
        string_views(final(out)@) == string_views(old(out)@).push(s@),
{
    let ghost before = string_views(out@);
    out.push(s);
    assert(string_views(out@) =~= before.push(s@));
}

/// Parses comma-separated alternative selectors: each trimmed, empty ones
/// dropped.
pub fn parse_alternative_selectors(alternatives: Option<&str>) -> (r: Vec<String>)
    ensures
        string_views(r@) == alternatives_of(opt_str(alternatives)),
{
    let mut out: Vec<String> = Vec::new();
    match alternatives {
        None => {
            assert(string_views(out@) =~= seq![]);
            out
        },
        Some(alts) => {
            let cs = chars_of(alts);
            let pieces = split_chars(&cs, ',');
            let ghost ps = char_views(pieces@);
            let mut i: usize = 0;
            assert(string_views(out@) =~= kept_pieces(ps.subrange(0, 0)));
            while i < pieces.len()
                invariant
                    i <= pieces.len(),
                    ps == char_views(pieces@),
                    ps == split_on(alts@, ','),
                    string_views(out@) == kept_pieces(ps.subrange(0, i as int)),
                decreases pieces.len() - i,
            {
                let t = trimmed(&pieces[i], 0, pieces[i].len());
                assert(pieces[i as int]@.subrange(0, pieces[i as int]@.len() as int) =~= ps[i as int]);
                assert(ps.subrange(0, i + 1).drop_last() =~= ps.subrange(0, i as int));
                if t.len() > 0 {
                    push_string(&mut out, string_from(&t));
                }
                i += 1;
            }
            assert(ps.subrange(0, i as int) =~= ps);
            out
        },
    }
}

/// The primary selector followed by the alternatives.
pub fn get_selectors_tried(primary: &str, alternatives: Option<&str>) -> (r: Vec<String>)
    ensures
        string_views(r@) == seq![primary@] + alternatives_of(opt_str(alternatives)),
{
    let mut all: Vec<String> = Vec::new();
    push_string(&mut all, String::from_str(primary));
    let mut rest = parse_alternative_selectors(alternatives);
    let ghost a = string_views(all@);
    let ghost b = string_views(rest@);
    all.append(&mut rest);
    assert(string_views(all@) =~= a + b);
    all
}

/// The primary selector, then the alternatives, then the fallback selectors.
pub fn get_selectors_tried_all(
    primary: &str,
    alternatives: Option<&str>,
    fallback: Option<&str>,
) -> (r: Vec<String>)
    ensures
        string_views(r@) == seq![primary@] + alternatives_of(opt_str(alternatives))
            + alternatives_of(opt_str(fallback)),
{
    let mut all = get_selectors_tried(primary, alternatives);
    let mut rest = parse_alternative_selectors(fallback);
    let ghost a = string_views(all@);
    let ghost b = string_views(rest@);
    all.append(&mut rest);
    assert(string_views(all@) =~= a + b);
    all
}

fn same_text(a: &str, b: &str) -> (r: bool)
    ensures
        r == (a@ == b@),
{
    let x = chars_of(a);
    let y = chars_of(b);
    same_chars(&x, &y)
}

/// What to wait for after a tool runs, for the tools that have something.
pub open spec fn wait_condition(t: Seq<char>) -> Option<Seq<char>> {
    if t == "click_element"@ {
        Some("Element state changes or UI updates"@)
    } else if t == "type_into_element"@ {
        Some("Text appears in field"@)
    } else if t == "navigate_browser"@ {
        Some("Page loads completely"@)
    } else if t == "open_application"@ {
        Some("Application window appears"@)
    } else {
        None
    }
}

pub fn get_wait_condition(tool_name: &str) -> (r: Option<String>)
    ensures
        match wait_condition(tool_name@) {
            Some(w) => r matches Some(x) && x@ == w,
            None => r is None,
        },
{
    if same_text(tool_name, "click_element") {
        Some(String::from_str("Element state changes or UI updates"))
    } else if same_text(tool_name, "type_into_element") {
        Some(String::from_str("Text appears in field"))
    } else if same_text(tool_name, "navigate_browser") {
        Some(String::from_str("Page loads completely"))
    } else if same_text(tool_name, "open_application") {
        Some(String::from_str("Application window appears"))
    } else {
        None
    }
}

pub open spec fn call_names(calls: Seq<ToolCall>) -> Seq<Seq<char>> {
    Seq::new(calls.len(), |i: int| calls[i].tool_name@)
}

/// The distinct tool names of the calls, each once, in order of first use.
pub fn extract_required_tools(tool_calls: &[ToolCall]) -> (r: Vec<String>)
    ensures
        string_views(r@).no_duplicates(),
        string_views(r@).to_set() == call_names(tool_calls@).to_set(),
{
    let mut out: Vec<String> = Vec::new();
    let ghost names = call_names(tool_calls@);
    let mut i: usize = 0;
    while i < tool_calls.len()
        invariant
            i <= tool_calls@.len(),
            names == call_names(tool_calls@),
            string_views(out@).no_duplicates(),
            string_views(out@).to_set() == names.subrange(0, i as int).to_set(),
        decreases tool_calls.len() - i,
    {
        let name = &tool_calls[i].tool_name;
        let mut seen = false;
        let mut k: usize = 0;
        while k < out.len()
            invariant
                k <= out@.len(),
                !seen ==> forall|t: int| 0 <= t < k ==> string_views(out@)[t] != name@,
                seen ==> string_views(out@).contains(name@),
            decreases out.len() - k,
        {
            if out[k] == *name {
                seen = true;
                assert(string_views(out@)[k as int] == name@);
            }
            k += 1;
        }
        let ghost before = string_views(out@);
        assert(names.subrange(0, i + 1) =~= names.subrange(0, i as int).push(name@));
        proof {
            names.subrange(0, i as int).lemma_push_to_set_commute(name@);
        }
        if !seen {
            push_string(&mut out, name.clone());
            proof {
                before.lemma_push_to_set_commute(name@);
                assert(string_views(out@) == before.push(name@));
                assert forall|a: int, b: int|
                    0 <= a < b < string_views(out@).len() implies string_views(out@)[a]
                    != string_views(out@)[b] by {
                    if b == before.len() {
                        assert(string_views(out@)[a] == before[a]);
                    }
                }
            }
        } else {
            assert(before.to_set().insert(name@) =~= before.to_set());
        }
        i += 1;
    }
    assert(names.subrange(0, i as int) =~= names);
    out
}

/// The outcome a recorded call is expected to have, for the calls that
/// have one; a click counts as a form submission when its selector mentions
/// `Submit`.
pub open spec fn expected_outcome(c: ToolCall) -> Option<Seq<char>> {
    let t = c.tool_name@;
    if t == "navigate_browser"@ {
        Some("Target webpage loaded successfully"@)
    } else if t == "type_into_element"@ {
        Some("Form fields populated with data"@)
    } else if t == "click_element"@ && (field(c.arguments@, "selector"@) matches Some(
        Json::Str(s),
    ) && contains_text(s, "Submit"@)) {
        Some("Form submitted successfully"@)
    } else if t == "select_option"@ {
        Some("Option selected in dropdown"@)
    } else {
        None
    }
}

pub open spec fn expected_outcomes(calls: Seq<ToolCall>) -> Seq<Seq<char>>
    decreases calls.len(),
{
    if calls.len() == 0 {
        seq![]
    } else {
        match expected_outcome(calls.last()) {
            Some(o) => expected_outcomes(calls.drop_last()).push(o),
            None => expected_outcomes(calls.drop_last()),
        }
    }
}

fn selector_mentions_submit(args: &JsonValue) -> (r: bool)
    ensures
        r == (field(args@, "selector"@) matches Some(Json::Str(s)) && contains_text(
            s,
            "Submit"@,
        )),
{
    match args.get("selector") {
        Some(JsonValue::Str(s)) => {
            let cs = chars_of(s.as_str());
            let pat = chars_of("Submit");
            find_text(&cs, &pat)
        },
        _ => false,
    }
}

/// The outcomes expected of a list of recorded calls, in order.
pub fn infer_expected_outcomes(tool_calls: &[ToolCall]) -> (r: Vec<String>)
    ensures
        string_views(r@) == expected_outcomes(tool_calls@),
{
    let mut out: Vec<String> = Vec::new();
    let mut i: usize = 0;
    assert(string_views(out@) =~= expected_outcomes(tool_calls@.subrange(0, 0)));
    while i < tool_calls.len()
        invariant
            i <= tool_calls@.len(),
            string_views(out@) == expected_outcomes(tool_calls@.subrange(0, i as int)),
        decreases tool_calls.len() - i,
    {
        let call = &tool_calls[i];
        let t = call.tool_name.as_str();
        assert(tool_calls@.subrange(0, i + 1).drop_last() =~= tool_calls@.subrange(0, i as int));
        assert(tool_calls@.subrange(0, i + 1).last() == tool_calls@[i as int]);
        if same_text(t, "navigate_browser") {
            push_string(&mut out, String::from_str("Target webpage loaded successfully"));
        } else if same_text(t, "type_into_element") {
            push_string(&mut out, String::from_str("Form fields populated with data"));
        } else if same_text(t, "click_element") && selector_mentions_submit(&call.arguments) {
            push_string(&mut out, String::from_str("Form submitted successfully"));
        } else if same_text(t, "select_option") {
            push_string(&mut out, String::from_str("Option selected in dropdown"));
        }
        i += 1;
    }
    assert(tool_calls@.subrange(0, i as int) =~= tool_calls@);
    out
}

/// Tools after which the next interaction should first check focus.
pub open spec fn shifts_focus(t: Seq<char>) -> bool {
    t == "navigate_browser"@ || t == "open_application"@ || t == "close_element"@ || t
        == "get_window_tree"@ || t == "get_applications"@ || t == "activate_element"@
}

/// Whether a focus check belongs before call `current_index`: before the
/// first call, and after a call that may have moved focus.
pub fn should_add_focus_check(tool_calls: &[ToolCall], current_index: usize) -> (r: bool)
    requires
        current_index <= tool_calls@.len(),
    ensures
        r == (current_index == 0 || shifts_focus(tool_calls@[current_index - 1].tool_name@)),
{
    if current_index == 0 {
        return true;
    }
    let prev = tool_calls[current_index - 1].tool_name.as_str();
    same_text(prev, "navigate_browser") || same_text(prev, "open_application") || same_text(prev, "close_element")
        || same_text(prev, "get_window_tree") || same_text(prev, "get_applications") || same_text(
        prev,
        "activate_element",
    )
}

/// Tools that change the state of the UI.
pub open spec fn state_changing(t: Seq<char>) -> bool {
    t == "click_element"@ || t == "type_into_element"@ || t == "select_option"@ || t
        == "set_toggled"@ || t == "set_selected"@ || t == "set_range_value"@ || t
        == "invoke_element"@ || t == "press_key"@ || t == "mouse_drag"@ || t == "scroll_element"@
}

pub fn is_state_changing_action(tool_name: &str) -> (r: bool)
    ensures
        r == state_changing(tool_name@),
{
    same_text(tool_name, "click_element") || same_text(tool_name, "type_into_element") || same_text(
        tool_name,
        "select_option",
    ) || same_text(tool_name, "set_toggled") || same_text(tool_name, "set_selected") || same_text(
        tool_name,
        "set_range_value",
    ) || same_text(tool_name, "invoke_element") || same_text(tool_name, "press_key") || same_text(
        tool_name,
        "mouse_drag",
    ) || same_text(tool_name, "scroll_element")
}

/// Whether to capture the UI tree at step `index` of `total_steps`: after
/// navigation or opening an application, every fifth step, and at the last.
pub fn should_capture_tree(tool_name: &str, index: usize, total_steps: usize) -> (r: bool)
    ensures
        r == (tool_name@ == "navigate_browser"@ || tool_name@ == "open_application"@ || index % 5
            == 0 || index + 1 == total_steps),
{
    same_text(tool_name, "navigate_browser") || same_text(tool_name, "open_application") || index
        % 5 == 0 || (total_steps >= 1 && index == total_steps - 1)
}

/// The text of member `key` of `args` when it is a string, else `default`.
pub open spec fn text_arg(args: Json, key: Seq<char>, default: Seq<char>) -> Seq<char> {
    match field(args, key) {
        Some(Json::Str(s)) => s,
        _ => default,
    }
}

fn text_arg_exec(args: &JsonValue, key: &str, default: &str) -> (r: String)
    ensures
        r@ == text_arg(args@, key@, default@),
{
    match args.get(key) {
        Some(JsonValue::Str(s)) => s.clone(),
        _ => String::from_str(default),
    }
}

/// A one-line description of a recorded call.
pub open spec fn step_description(t: Seq<char>, args: Json) -> Seq<char> {
    if t == "click_element"@ {
        "Click on element: "@ + text_arg(args, "selector"@, "unknown"@)
    } else if t == "type_into_element"@ {
        "Type '"@ + text_arg(args, "text_to_type"@, ""@) + "' into "@ + text_arg(
            args,
            "selector"@,
            "field"@,
        )
    } else if t == "navigate_browser"@ {
        "Navigate to "@ + text_arg(args, "url"@, "URL"@)
    } else if t == "select_option"@ {
        "Select '"@ + text_arg(args, "option_name"@, "option"@) + "' from dropdown"@
    } else {
        "Execute "@ + t
    }
}

pub fn generate_step_description(tool_name: &str, args: &JsonValue) -> (r: String)
    ensures
        r@ == step_description(tool_name@, args@),
{
    if same_text(tool_name, "click_element") {
        let mut d = String::from_str("Click on element: ");
        d.append(text_arg_exec(args, "selector", "unknown").as_str());
        d
    } else if same_text(tool_name, "type_into_element") {
        let mut d = String::from_str("Type '");
        d.append(text_arg_exec(args, "text_to_type", "").as_str());
        d.append("' into ");
        d.append(text_arg_exec(args, "selector", "field").as_str());
        d
    } else if same_text(tool_name, "navigate_browser") {
        let mut d = String::from_str("Navigate to ");
        d.append(text_arg_exec(args, "url", "URL").as_str());
        d
    } else if same_text(tool_name, "select_option") {
        let mut d = String::from_str("Select '");
        d.append(text_arg_exec(args, "option_name", "option").as_str());
        d.append("' from dropdown");
        d
    } else {
        let mut d = String::from_str("Execute ");
        d.append(tool_name);
        d
    }
}

/// The selector to suggest for an element: `role|name` when it has a name
/// and a known role, else `#id`.
pub open spec fn suggested(id: Seq<char>, role: Seq<char>, name: Seq<char>) -> Seq<char> {
    if name.len() > 0 && role != "Unknown"@ {
        role + "|"@ + name
    } else {
        "#"@ + id
    }
}

pub fn suggested_selector(id: &str, role: &str, name: &str) -> (r: String)
    ensures
        r@ == suggested(id@, role@, name@),
{
    let n = chars_of(name);
    if n.len() > 0 && !same_text(role, "Unknown") {
        let mut s = String::from_str(role);
        s.append("|");
        s.append(name);
        s
    } else {
        let mut s = String::from_str("#");
        s.append(id);
        s
    }
}

/// The JSON a content item carries: for a text item whose text is itself
/// JSON, that JSON; otherwise the item as it is.
pub open spec fn content_json(content: Json) -> Json {
    if field(content, "type"@) == Some(Json::Str("text"@)) && (field(content, "text"@) matches Some(
        Json::Str(t),
    ) && parsed_json(t) is Some) {
        parsed_json(field(content, "text"@)->0->Str_0)->0
    } else {
        content
    }
}

/// Reads the JSON out of a content item given as JSON.
pub fn extract_content_json(content: &JsonValue) -> (r: JsonValue)
    ensures
        r@ == content_json(content@),
{
    let is_text = match content.get("type") {
        Some(JsonValue::Str(t)) => same_text(t.as_str(), "text"),
        _ => false,
    };
    if is_text {
        match content.get("text") {
            Some(JsonValue::Str(t)) => match parse_json(t.as_str()) {
                Some(v) => {
                    return v;
                },
                None => {},
            },
            _ => {},
        }
    }
    content.deep_copy()
}

/// The prefix a client may put before a tool's own name.
pub open spec fn tool_prefix() -> Seq<char> {
    "mcp_terminator-mcp-agent_"@
}

/// A tool name without the client's prefix.
pub open spec fn short_name(t: Seq<char>) -> Seq<char> {
    let p = tool_prefix();
    if p.len() <= t.len() && t.subrange(0, p.len() as int) == p {
        t.subrange(p.len() as int, t.len() as int)
    } else {
        t
    }
}

/// The name a tool is dispatched by: the given name without the client's
/// prefix, when it has it.
pub fn short_tool_name(tool_name: &str) -> (r: String)
    ensures
        r@ == short_name(tool_name@),
{
    let cs = chars_of(tool_name);
    let p = chars_of("mcp_terminator-mcp-agent_");
    if crate::text::has_at(&cs, 0, &p) {
        crate::text::string_of(&cs, p.len(), cs.len())
    } else {
        String::from_str(tool_name)
    }
}

pub open spec fn not_found_suggestions() -> Seq<Json> {
    seq![
        Json::Str("Call `get_window_tree` again to get a fresh view of the UI; it might have changed."@),
        Json::Str("Verify the element's 'name' and 'role' in the new UI tree. The 'name' attribute might be empty or different from the visible text."@),
        Json::Str("If the element has no 'name', use its numeric ID selector (e.g., '#12345'). This is required for many clickable 'Group' elements."@),
        Json::Str("Use `validate_element` with your selectors to debug existence issues before calling an action tool."@),
    ]
}

/// The details of an element-not-found error: every selector tried, the
/// original error, and what to try next.
pub open spec fn not_found_payload(
    primary: Seq<char>,
    alternatives: Option<Seq<char>>,
    fallback: Option<Seq<char>>,
    original_error: Seq<char>,
) -> Json {
    let tried = seq![primary] + alternatives_of(alternatives) + alternatives_of(fallback);
    Json::Object(
        seq![
            ("error_type"@, Json::Str("ElementNotFound"@)),
            (
                "message"@,
                Json::Str(
                    "The specified element could not be found after trying all selectors. Original error: "@
                        + original_error,
                ),
            ),
            ("selectors_tried"@, Json::Array(Seq::new(tried.len(), |i: int| Json::Str(tried[i])))),
            ("suggestions"@, Json::Array(not_found_suggestions())),
        ],
    )
}

/// Builds the details of an element-not-found error (see
/// [`not_found_payload`]).
pub fn build_element_not_found_error(
    primary_selector: &str,
    alternatives: Option<&str>,
    fallback: Option<&str>,
    original_error: &str,
) -> (r: JsonValue)
    ensures
        r@ == not_found_payload(
            primary_selector@,
            opt_str(alternatives),
            opt_str(fallback),
            original_error@,
        ),
{
    let tried = get_selectors_tried_all(primary_selector, alternatives, fallback);
    let ghost tv = string_views(tried@);
    let mut items: Vec<JsonValue> = Vec::new();
    let mut i: usize = 0;
    while i < tried.len()
        invariant
            i <= tried@.len(),
            tv == string_views(tried@),
            items@.len() == i,
            forall|t: int| 0 <= t < i ==> (#[trigger] items@[t])@ == Json::Str(tv[t]),
        decreases tried.len() - i,
    {
        items.push(JsonValue::Str(tried[i].clone()));
        i += 1;
    }
    proof {
        lemma_view_items(items@);
        assert(view_items(items@) =~= Seq::new(tv.len(), |t: int| Json::Str(tv[t])));
    }
    let mut sugg: Vec<JsonValue> = Vec::new();
    sugg.push(text_value("Call `get_window_tree` again to get a fresh view of the UI; it might have changed."));
    sugg.push(text_value("Verify the element's 'name' and 'role' in the new UI tree. The 'name' attribute might be empty or different from the visible text."));
    sugg.push(text_value("If the element has no 'name', use its numeric ID selector (e.g., '#12345'). This is required for many clickable 'Group' elements."));
    sugg.push(text_value("Use `validate_element` with your selectors to debug existence issues before calling an action tool."));
    proof {
        lemma_view_items(sugg@);
        assert(view_items(sugg@) =~= not_found_suggestions());
    }
    let mut message = String::from_str(
        "The specified element could not be found after trying all selectors. Original error: ",
    );
    message.append(original_error);
    let mut m: Vec<(String, JsonValue)> = Vec::new();
    push_member(&mut m, "error_type", text_value("ElementNotFound"));
    push_member(&mut m, "message", JsonValue::Str(message));
    push_member(&mut m, "selectors_tried", JsonValue::Array(items));
    push_member(&mut m, "suggestions", JsonValue::Array(sugg));
    assert(view_members(m@) =~= not_found_payload(
        primary_selector@,
        opt_str(alternatives),
        opt_str(fallback),
        original_error@,
    )->Object_0);
    JsonValue::Object(m)
}

/// An item that has every required field, each present and not `null`.
pub open spec fn has_fields(item: Json, fields: Seq<Json>) -> bool {
    item is Object && forall|k: int|
        0 <= k < fields.len() ==> (#[trigger] fields[k]) is Str && (field(item, fields[k]->Str_0) matches Some(
            x,
        ) && !(x is Null))
}

pub open spec fn item_count(e: Json) -> nat {
    match e {
        Json::Array(a) => a.len(),
        _ => 0,
    }
}

/// Whether extracted data meets the success criteria: it is not `null`; it
/// has at least `min_items` items when that is given; and when
/// `required_fields` is given and the data is an array, the array is not
/// empty and some item has all those fields.
pub open spec fn valid_extraction(e: Json, criteria: Json) -> bool {
    &&& !(e is Null)
    &&& (field(criteria, "min_items"@) matches Some(Json::Number(t)) && number_u64(t) is Some)
        ==> item_count(e) >= number_u64(field(criteria, "min_items"@)->0->Number_0)->0
    &&& (field(criteria, "required_fields"@) matches Some(Json::Array(fs)) && e is Array) ==> (
    e->Array_0.len() > 0 && exists|i: int|
        0 <= i < e->Array_0.len() && has_fields(
            #[trigger] e->Array_0[i],
            field(criteria, "required_fields"@)->0->Array_0,
        ))
}

fn has_fields_exec(item: &JsonValue, fields: &Vec<JsonValue>) -> (r: bool)
    ensures
        r == has_fields(item@, view_items(fields@)),
{
    proof {
        lemma_view_items(fields@);
    }
    match item {
        JsonValue::Object(_) => {},
        _ => {
            return false;
        },
    }
    let mut k: usize = 0;
    while k < fields.len()
        invariant
            k <= fields@.len(),
            item@ is Object,
            view_items(fields@).len() == fields@.len(),
            forall|t: int| 0 <= t < fields@.len() ==> #[trigger] view_items(fields@)[t] == fields@[t]@,
            forall|t: int|
                0 <= t < k ==> (#[trigger] view_items(fields@)[t]) is Str && (field(
                    item@,
                    view_items(fields@)[t]->Str_0,
                ) matches Some(x) && !(x is Null)),
        decreases fields.len() - k,
    {
        let ghost fk = view_items(fields@)[k as int];
        match &fields[k] {
            JsonValue::Str(name) => {
                assert(fk is Str && fk->Str_0 == name@);
                match item.get(name.as_str()) {
                    Some(JsonValue::Null) => {
                        assert(!has_fields(item@, view_items(fields@)));
                        return false;
                    },
                    Some(_) => {},
                    None => {
                        assert(!has_fields(item@, view_items(fields@)));
                        return false;
                    },
                }
            },
            _ => {
                assert(!(fk is Str));
                assert(!has_fields(item@, view_items(fields@)));
                return false;
            },
        }
        k += 1;
    }
    true
}

/// Checks extracted data against success criteria (see
/// [`valid_extraction`]).
pub fn is_valid_extraction(extracted: &JsonValue, criteria: &JsonValue) -> (r: bool)
    ensures
        r == valid_extraction(extracted@, criteria@),
{
    if extracted.is_null() {
        return false;
    }
    let count: usize = match extracted {
        JsonValue::Array(a) => a.len(),
        _ => 0,
    };
    proof {
        match extracted@ {
            Json::Array(items) => {
                lemma_view_items(extracted->Array_0@);
            },
            _ => {},
        }
    }
    match criteria.get("min_items") {
        Some(m) => match m {
            JsonValue::Number(_) => match m.as_u64() {
                Some(min) => {
                    if (count as u64) < min {
                        return false;
                    }
                },
                None => {},
            },
            _ => {},
        },
        None => {},
    }
    match criteria.get("required_fields") {
        Some(JsonValue::Array(fs)) => match extracted {
            JsonValue::Array(items) => {
                if items.len() == 0 {
                    return false;
                }
                proof {
                    lemma_view_items(items@);
                }
                let mut i: usize = 0;
                while i < items.len()
                    invariant
                        i <= items@.len(),
                        extracted@ == Json::Array(view_items(items@)),
                        !(extracted@ is Null),
                        (field(criteria@, "min_items"@) matches Some(Json::Number(t)) && number_u64(t) is Some)
                            ==> item_count(extracted@) >= number_u64(field(criteria@, "min_items"@)->0->Number_0)->0,
                        field(criteria@, "required_fields"@) == Some(Json::Array(view_items(fs@))),
                        view_items(items@).len() == items@.len(),
                        forall|t: int| 0 <= t < items@.len() ==> #[trigger] view_items(items@)[t] == items@[t]@,
                        forall|t: int| 0 <= t < i ==> !has_fields(#[trigger] view_items(items@)[t], view_items(fs@)),
                    decreases items.len() - i,
                {
                    if has_fields_exec(&items[i], fs) {
                        assert(has_fields(view_items(items@)[i as int], view_items(fs@)));
                        return true;
                    }
                    i += 1;
                }
                false
            },
            _ => true,
        },
        _ => true,
    }
}

/// What is read off a UI element to describe it.
#[derive(Debug)]
pub struct ElementFacts {
    pub id: String,
    pub role: String,
    pub name: String,
    pub application: String,
    pub window_title: String,
    pub process_id: u32,
    pub is_focused: bool,
    pub text: String,
    /// `{x, y, width, height}`, when the element has bounds.
    pub bounds: Option<JsonValue>,
    pub enabled: bool,
    pub is_selected: bool,
    pub is_toggled: bool,
    pub keyboard_focusable: bool,
}

/// The standard description of an element, with the selector to suggest
/// for it (see [`suggested`]); missing bounds read `null`.
pub open spec fn element_info(f: ElementFacts) -> Json {
    Json::Object(
        seq![
            ("application"@, Json::Str(f.application@)),
            (
                "bounds"@,
                match f.bounds {
                    Some(b) => b@,
                    None => Json::Null,
                },
            ),
            ("enabled"@, Json::Bool(f.enabled)),
            ("id"@, Json::Str(f.id@)),
            ("is_focused"@, Json::Bool(f.is_focused)),
            ("is_selected"@, Json::Bool(f.is_selected)),
            ("is_toggled"@, Json::Bool(f.is_toggled)),
            ("keyboard_focusable"@, Json::Bool(f.keyboard_focusable)),
            ("name"@, Json::Str(f.name@)),
            ("process_id"@, crate::records::number(f.process_id as nat)),
            ("role"@, Json::Str(f.role@)),
            ("suggested_selector"@, Json::Str(suggested(f.id@, f.role@, f.name@))),
            ("text"@, Json::Str(f.text@)),
            ("window_title"@, Json::Str(f.window_title@)),
        ],
    )
}

/// Builds the standard description of an element (see [`element_info`]).
pub fn build_element_info(f: &ElementFacts) -> (r: JsonValue)
    ensures
        r@ == element_info(*f),
{
    let mut m: Vec<(String, JsonValue)> = Vec::new();
    push_member(&mut m, "application", JsonValue::Str(f.application.clone()));
    let bounds = match &f.bounds {
        Some(b) => b.deep_copy(),
        None => JsonValue::Null,
    };
    push_member(&mut m, "bounds", bounds);
    push_member(&mut m, "enabled", JsonValue::Bool(f.enabled));
    push_member(&mut m, "id", JsonValue::Str(f.id.clone()));
    push_member(&mut m, "is_focused", JsonValue::Bool(f.is_focused));
    push_member(&mut m, "is_selected", JsonValue::Bool(f.is_selected));
    push_member(&mut m, "is_toggled", JsonValue::Bool(f.is_toggled));
    push_member(&mut m, "keyboard_focusable", JsonValue::Bool(f.keyboard_focusable));
    push_member(&mut m, "name", JsonValue::Str(f.name.clone()));
    push_member(&mut m, "process_id", crate::records::number_value(f.process_id as u64));
    push_member(&mut m, "role", JsonValue::Str(f.role.clone()));
    let sel = suggested_selector(f.id.as_str(), f.role.as_str(), f.name.as_str());
    push_member(&mut m, "suggested_selector", JsonValue::Str(sel));
    push_member(&mut m, "text", JsonValue::Str(f.text.clone()));
    push_member(&mut m, "window_title", JsonValue::Str(f.window_title.clone()));
    assert(view_members(m@) =~= element_info(*f)->Object_0);
    JsonValue::Object(m)
}

} // verus!
