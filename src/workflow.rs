//! The workflow document: reading it out of a JavaScript-shaped source, and
//! turning it into the canonical `execute_sequence` call.
use crate::js_source::{
    balanced_object, export_start, extract_balanced_braces, find_export_start, js_to_json,
    normalized, remove_comments, strip_comments,
};
use crate::json::{
    decimal, decimal_text, field, find_member, keys_unique, lemma_field_well_keyed,
    lemma_view_items, member, number_u64, opt_ref_view, opt_view, parse_json, parsed_json,
    text_view, view_items, view_members, well_keyed, Json, JsonValue,
};
use crate::text::{chars_of, string_of};
use vstd::prelude::*;

verus! {

/// A JSON object's members, keyed by name; a valid map (see
/// [`JsonMap::wf`]) holds each key once.
#[derive(Debug)]
pub struct JsonMap {
    pub members: Vec<(String, JsonValue)>,
}

impl View for JsonMap {
    type V = Seq<(Seq<char>, Json)>;

    open spec fn view(&self) -> Seq<(Seq<char>, Json)> {
        view_members(self.members@)
    }
}

impl JsonMap {
    /// No two entries share a key.
    pub open spec fn wf(&self) -> bool {
        keys_unique(self@)
    }

    /// The value stored under `key`.
    pub fn get(&self, key: &str) -> (r: Option<&JsonValue>)
        ensures
            opt_ref_view(r) == member(self@, key@),
    {
        find_member(&self.members, key)
    }

    /// Whether a value is stored under `key`.
    pub fn contains_key(&self, key: &str) -> (r: bool)
        ensures
            r == member(self@, key@) is Some,
    {
        find_member(&self.members, key).is_some()
    }

    pub fn len(&self) -> (r: usize)
        ensures
            r == self.members@.len(),
    {
        self.members.len()
    }
}

/// A workflow read from a source file.
#[derive(Debug)]
pub struct JsWorkflow {
    pub id: Option<String>,
    pub name: Option<String>,
    pub description: Option<String>,
    pub version: Option<String>,
    pub timeout: Option<u64>,
    pub variables: Option<JsonMap>,
    pub inputs: Option<JsonMap>,
    pub selectors: Option<JsonValue>,
    pub steps: Vec<JsonValue>,
    pub metadata: Option<JsonValue>,
}

/// The mathematical form of a [`JsWorkflow`].
pub struct WorkflowView {
    pub id: Option<Seq<char>>,
    pub name: Option<Seq<char>>,
    pub description: Option<Seq<char>>,
    pub version: Option<Seq<char>>,
    pub timeout: Option<u64>,
    pub variables: Option<Seq<(Seq<char>, Json)>>,
    pub inputs: Option<Seq<(Seq<char>, Json)>>,
    pub selectors: Option<Json>,
    pub steps: Seq<Json>,
    pub metadata: Option<Json>,
}

pub open spec fn map_view(t: Option<JsonMap>) -> Option<Seq<(Seq<char>, Json)>> {
    match t {
        Some(m) => Some(m@),
        None => None,
    }
}

impl View for JsWorkflow {
    type V = WorkflowView;

    open spec fn view(&self) -> WorkflowView {
        WorkflowView {
            id: text_view(self.id),
            name: text_view(self.name),
            description: text_view(self.description),
            version: text_view(self.version),
            timeout: self.timeout,
            variables: map_view(self.variables),
            inputs: map_view(self.inputs),
            selectors: opt_view(self.selectors),
            steps: view_items(self.steps@),
            metadata: opt_view(self.metadata),
        }
    }
}

/// The workflow's variable and input maps are valid.
pub open spec fn maps_wf(w: JsWorkflow) -> bool {
    &&& w.variables matches Some(m) ==> m.wf()
    &&& w.inputs matches Some(m) ==> m.wf()
}

/// Why a workflow source could not be read.
#[derive(Debug)]
pub enum ParseError {
    /// None of the three export idioms occurs in the source.
    NoExport,
    /// No balanced object literal follows the export; holds the text after
    /// the export.
    UnbalancedBraces(String),
    /// The normalized object literal is not strict JSON; holds that text.
    InvalidJson(String),
    /// The exported value is not an object.
    NotAnObject,
    /// The named member has a type the workflow cannot take.
    WrongFieldType(String),
    /// The object has no `steps` member.
    MissingSteps,
    /// The `steps` array is empty.
    NoSteps,
}

/// The mathematical form of a [`ParseError`].
pub enum ParseFailure {
    NoExport,
    UnbalancedBraces(Seq<char>),
    InvalidJson(Seq<char>),
    NotAnObject,
    WrongFieldType(Seq<char>),
    MissingSteps,
    NoSteps,
}

impl View for ParseError {
    type V = ParseFailure;

    open spec fn view(&self) -> ParseFailure {
        match self {
            ParseError::NoExport => ParseFailure::NoExport,
            ParseError::UnbalancedBraces(s) => ParseFailure::UnbalancedBraces(s@),
            ParseError::InvalidJson(s) => ParseFailure::InvalidJson(s@),
            ParseError::NotAnObject => ParseFailure::NotAnObject,
            ParseError::WrongFieldType(s) => ParseFailure::WrongFieldType(s@),
            ParseError::MissingSteps => ParseFailure::MissingSteps,
            ParseError::NoSteps => ParseFailure::NoSteps,
        }
    }
}

impl ParseError {
    /// A sentence describing the error.
    pub fn message(&self) -> (r: String)
        ensures
            self is NoExport ==> r@
                == "Could not find workflow export in JavaScript file. Expected 'export const workflow = {...}' or similar pattern"@,
            self is NoSteps ==> r@ == "Workflow must have at least one step"@,
            self is MissingSteps ==> r@
                == "Failed to deserialize workflow object: missing field `steps`"@,
            self is NotAnObject ==> r@
                == "Failed to deserialize workflow object: expected an object"@,
            self matches ParseError::InvalidJson(t) ==> r@ == "Failed to parse object as JSON: "@
                + t@,
            self matches ParseError::UnbalancedBraces(t) ==> r@
                == "No balanced object literal after the workflow export: "@ + t@,
            self matches ParseError::WrongFieldType(f) ==> r@
                == "Failed to deserialize workflow object: invalid type for field "@ + f@,
    {
        match self {
            ParseError::NoExport => String::from_str(
                "Could not find workflow export in JavaScript file. Expected 'export const workflow = {...}' or similar pattern",
            ),
            ParseError::UnbalancedBraces(t) => {
                let mut m = String::from_str(
                    "No balanced object literal after the workflow export: ",
                );
                m.append(t.as_str());
                m
            },
            ParseError::InvalidJson(t) => {
                let mut m = String::from_str("Failed to parse object as JSON: ");
                m.append(t.as_str());
                m
            },
            ParseError::NotAnObject => String::from_str(
                "Failed to deserialize workflow object: expected an object",
            ),
            ParseError::WrongFieldType(f) => {
                let mut m = String::from_str(
                    "Failed to deserialize workflow object: invalid type for field ",
                );
                m.append(f.as_str());
                m
            },
            ParseError::MissingSteps => String::from_str(
                "Failed to deserialize workflow object: missing field `steps`",
            ),
            ParseError::NoSteps => String::from_str("Workflow must have at least one step"),
        }
    }
}

/// An optional text member: absent or `null` gives `None`; a string gives
/// its text; anything else is a type error (the outer `None`).
pub open spec fn text_field(v: Json, k: Seq<char>) -> Option<Option<Seq<char>>> {
    match field(v, k) {
        None => Some(None),
        Some(Json::Null) => Some(None),
        Some(Json::Str(s)) => Some(Some(s)),
        Some(_) => None,
    }
}

/// An optional unsigned integer member.
pub open spec fn u64_field(v: Json, k: Seq<char>) -> Option<Option<u64>> {
    match field(v, k) {
        None => Some(None),
        Some(Json::Null) => Some(None),
        Some(Json::Number(t)) => match number_u64(t) {
            Some(n) => Some(Some(n)),
            None => None,
        },
        Some(_) => None,
    }
}

/// An optional object member.
pub open spec fn map_field(v: Json, k: Seq<char>) -> Option<Option<Seq<(Seq<char>, Json)>>> {
    match field(v, k) {
        None => Some(None),
        Some(Json::Null) => Some(None),
        Some(Json::Object(m)) => Some(Some(m)),
        Some(_) => None,
    }
}

/// An optional member of any type; `null` counts as absent.
pub open spec fn any_field(v: Json, k: Seq<char>) -> Option<Json> {
    match field(v, k) {
        None => None,
        Some(Json::Null) => None,
        Some(x) => Some(x),
    }
}

/// The workflow that a JSON value describes. Members are checked in the
/// order of their names, and the first that has the wrong type is reported;
/// a missing `steps` is reported after all of them. Unknown members are
/// ignored.
pub open spec fn workflow_of(v: Json) -> Result<WorkflowView, ParseFailure> {
    if !(v is Object) {
        Err(ParseFailure::NotAnObject)
    } else if text_field(v, "description"@) is None {
        Err(ParseFailure::WrongFieldType("description"@))
    } else if text_field(v, "id"@) is None {
        Err(ParseFailure::WrongFieldType("id"@))
    } else if map_field(v, "inputs"@) is None {
        Err(ParseFailure::WrongFieldType("inputs"@))
    } else if text_field(v, "name"@) is None {
        Err(ParseFailure::WrongFieldType("name"@))
    } else if field(v, "steps"@) matches Some(x) && !(x is Array) {
        Err(ParseFailure::WrongFieldType("steps"@))
    } else if u64_field(v, "timeout"@) is None {
        Err(ParseFailure::WrongFieldType("timeout"@))
    } else if map_field(v, "variables"@) is None {
        Err(ParseFailure::WrongFieldType("variables"@))
    } else if text_field(v, "version"@) is None {
        Err(ParseFailure::WrongFieldType("version"@))
    } else if field(v, "steps"@) is None {
        Err(ParseFailure::MissingSteps)
    } else {
        Ok(
            WorkflowView {
                id: text_field(v, "id"@)->0,
                name: text_field(v, "name"@)->0,
                description: text_field(v, "description"@)->0,
                version: text_field(v, "version"@)->0,
                timeout: u64_field(v, "timeout"@)->0,
                variables: map_field(v, "variables"@)->0,
                inputs: map_field(v, "inputs"@)->0,
                selectors: any_field(v, "selectors"@),
                steps: field(v, "steps"@)->0->Array_0,
                metadata: any_field(v, "metadata"@),
            },
        )
    }
}

/// The exported object of a source, as a JSON value.
pub open spec fn export_value(content: Seq<char>) -> Result<Json, ParseFailure> {
    let t = strip_comments(content);
    match export_start(t) {
        None => Err(ParseFailure::NoExport),
        Some(p) => {
            let rest = t.subrange(p, t.len() as int);
            match balanced_object(rest) {
                None => Err(ParseFailure::UnbalancedBraces(rest)),
                Some(o) => match parsed_json(normalized(o)) {
                    None => Err(ParseFailure::InvalidJson(normalized(o))),
                    Some(v) => Ok(v),
                },
            }
        },
    }
}

/// The workflow a source describes: its exported object read as a workflow,
/// which must have at least one step.
pub open spec fn parse_result(content: Seq<char>) -> Result<WorkflowView, ParseFailure> {
    match export_value(content) {
        Err(e) => Err(e),
        Ok(v) => match workflow_of(v) {
            Err(e) => Err(e),
            Ok(w) => if w.steps.len() == 0 {
                Err(ParseFailure::NoSteps)
            } else {
                Ok(w)
            },
        },
    }
}

pub open spec fn result_view<T: View>(r: Result<T, ParseError>) -> Result<T::V, ParseFailure> {
    match r {
        Ok(x) => Ok(x@),
        Err(e) => Err(e@),
    }
}

/// Strict parsing of a normalized object literal.
pub fn parse_object_literal(obj_str: &str) -> (r: Result<JsonValue, ParseError>)
    ensures
        result_view(r) == match parsed_json(normalized(obj_str@)) {
            Some(v) => Ok(v),
            None => Err(ParseFailure::InvalidJson(normalized(obj_str@))),
        },
        r matches Ok(v) ==> well_keyed(v@),
{
    let json_str = js_to_json(obj_str);
    match parse_json(json_str.as_str()) {
        Some(v) => Ok(v),
        None => Err(ParseError::InvalidJson(json_str)),
    }
}

/// Finds the exported object of a source and reads it as JSON: comments
/// removed, the first export idiom located, the balanced object literal after
/// it cut out, normalized and parsed.
pub fn extract_workflow_export(content: &str) -> (r: Result<JsonValue, ParseError>)
    ensures
        result_view(r) == export_value(content@),
        r matches Ok(v) ==> well_keyed(v@),
{
    let stripped = remove_comments(content);
    let t = chars_of(stripped.as_str());
    match find_export_start(&t) {
        None => Err(ParseError::NoExport),
        Some(p) => {
            let rest = string_of(&t, p, t.len());
            match extract_balanced_braces(rest.as_str()) {
                None => Err(ParseError::UnbalancedBraces(rest)),
                Some(o) => parse_object_literal(o.as_str()),
            }
        },
    }
}

fn text_field_exec(v: &JsonValue, key: &str) -> (r: Result<Option<String>, ()>)
    ensures
        match text_field(v@, key@) {
            Some(x) => r matches Ok(y) && text_view(y) == x,
            None => r is Err,
        },
{
    match v.get(key) {
        None => Ok(None),
        Some(JsonValue::Null) => Ok(None),
        Some(JsonValue::Str(s)) => Ok(Some(s.clone())),
        Some(_) => Err(()),
    }
}

fn u64_field_exec(v: &JsonValue, key: &str) -> (r: Result<Option<u64>, ()>)
    ensures
        match u64_field(v@, key@) {
            Some(x) => r == Ok::<Option<u64>, ()>(x),
            None => r is Err,
        },
{
    match v.get(key) {
        None => Ok(None),
        Some(JsonValue::Null) => Ok(None),
        Some(x) => match x {
            JsonValue::Number(_) => match x.as_u64() {
                Some(n) => Ok(Some(n)),
                None => Err(()),
            },
            _ => Err(()),
        },
    }
}

fn map_field_exec(v: &JsonValue, key: &str) -> (r: Result<Option<JsonMap>, ()>)
    ensures
        match map_field(v@, key@) {
            Some(x) => r matches Ok(y) && map_view(y) == x,
            None => r is Err,
        },
{
    match v.get(key) {
        None => Ok(None),
        Some(JsonValue::Null) => Ok(None),
        Some(x) => match x.deep_copy() {
            JsonValue::Object(m) => Ok(Some(JsonMap { members: m })),
            _ => Err(()),
        },
    }
}

fn any_field_exec(v: &JsonValue, key: &str) -> (r: Option<JsonValue>)
    ensures
        opt_view(r) == any_field(v@, key@),
{
    match v.get(key) {
        None => None,
        Some(JsonValue::Null) => None,
        Some(x) => Some(x.deep_copy()),
    }
}

fn wrong(name: &str) -> (r: ParseError)
    ensures
        r@ == ParseFailure::WrongFieldType(name@),
{
    ParseError::WrongFieldType(String::from_str(name))
}

/// Reads a JSON value as a workflow (see [`workflow_of`]).
pub fn workflow_from_json(v: &JsonValue) -> (r: Result<JsWorkflow, ParseError>)
    ensures
        result_view(r) == workflow_of(v@),
        well_keyed(v@) ==> (r matches Ok(w) ==> maps_wf(w)),
{
    proof {
        if well_keyed(v@) {
            lemma_field_well_keyed(v@, "inputs"@);
            lemma_field_well_keyed(v@, "variables"@);
        }
    }
    match v {
        JsonValue::Object(_) => {},
        _ => {
            return Err(ParseError::NotAnObject);
        },
    }
    let description = match text_field_exec(v, "description") {
        Ok(x) => x,
        Err(_) => {
            return Err(wrong("description"));
        },
    };
    let id = match text_field_exec(v, "id") {
        Ok(x) => x,
        Err(_) => {
            return Err(wrong("id"));
        },
    };
    let inputs = match map_field_exec(v, "inputs") {
        Ok(x) => x,
        Err(_) => {
            return Err(wrong("inputs"));
        },
    };
    let name = match text_field_exec(v, "name") {
        Ok(x) => x,
        Err(_) => {
            return Err(wrong("name"));
        },
    };
    let steps_value = v.get("steps");
    match steps_value {
        Some(JsonValue::Array(_)) => {},
        Some(_) => {
            return Err(wrong("steps"));
        },
        None => {},
    }
    let timeout = match u64_field_exec(v, "timeout") {
        Ok(x) => x,
        Err(_) => {
            return Err(wrong("timeout"));
        },
    };
    let variables = match map_field_exec(v, "variables") {
        Ok(x) => x,
        Err(_) => {
            return Err(wrong("variables"));
        },
    };
    let version = match text_field_exec(v, "version") {
        Ok(x) => x,
        Err(_) => {
            return Err(wrong("version"));
        },
    };
    let steps = match steps_value {
        Some(x) => match x.deep_copy() {
            JsonValue::Array(a) => a,
            _ => {
                return Err(wrong("steps"));
            },
        },
        None => {
            return Err(ParseError::MissingSteps);
        },
    };
    let selectors = any_field_exec(v, "selectors");
    let metadata = any_field_exec(v, "metadata");
    Ok(
        JsWorkflow {
            id,
            name,
            description,
            version,
            timeout,
            variables,
            inputs,
            selectors,
            steps,
            metadata,
        },
    )
}

/// Parses a workflow source: finds the exported object, reads it as a
/// workflow, and rejects a workflow without steps.
pub fn parse_js_workflow(content: &str) -> (r: Result<JsWorkflow, ParseError>)
    ensures
        result_view(r) == parse_result(content@),
        r matches Ok(w) ==> maps_wf(w),
{
    let v = match extract_workflow_export(content) {
        Ok(v) => v,
        Err(e) => {
            return Err(e);
        },
    };
    let w = match workflow_from_json(&v) {
        Ok(w) => w,
        Err(e) => {
            return Err(e);
        },
    };
    proof {
        lemma_view_items(w.steps@);
    }
    if w.steps.len() == 0 {
        return Err(ParseError::NoSteps);
    }
    Ok(w)
}

/// No parsed workflow is without steps: whichever of the three idioms exports
/// it, an object whose `steps` is an empty array, and which is otherwise a
/// well-formed workflow, is rejected with [`ParseFailure::NoSteps`].
pub proof fn lemma_empty_steps_rejected(content: Seq<char>)
    ensures
        parse_result(content) matches Ok(w) ==> w.steps.len() > 0,
        export_value(content) matches Ok(v) ==> (field(v, "steps"@) == Some(
            Json::Array(Seq::empty()),
        ) && workflow_of(v) is Ok ==> parse_result(content) == Err::<WorkflowView, ParseFailure>(
            ParseFailure::NoSteps,
        )),
{
}

pub open spec fn opt_member(k: Seq<char>, v: Option<Json>) -> Seq<(Seq<char>, Json)> {
    match v {
        Some(x) => seq![(k, x)],
        None => Seq::empty(),
    }
}

pub open spec fn object_of(m: Option<Seq<(Seq<char>, Json)>>) -> Option<Json> {
    match m {
        Some(x) => Some(Json::Object(x)),
        None => None,
    }
}

/// The arguments of the `execute_sequence` call for a workflow: its steps and,
/// where present, its inputs, selectors and variables (members in name
/// order).
pub open spec fn sequence_arguments(w: WorkflowView) -> Json {
    Json::Object(
        opt_member("inputs"@, object_of(w.inputs)) + opt_member("selectors"@, w.selectors) + seq![
            ("steps"@, Json::Array(w.steps)),
        ] + opt_member("variables"@, object_of(w.variables)),
    )
}

/// The `execute_sequence` call for a workflow, with `timeout_ms` taken from
/// its timeout when it has one.
pub open spec fn execute_sequence_call(w: WorkflowView) -> Json {
    Json::Object(
        seq![("arguments"@, sequence_arguments(w))] + opt_member(
            "timeout_ms"@,
            match w.timeout {
                Some(t) => Some(Json::Number(decimal(t as nat))),
                None => None,
            },
        ) + seq![("tool_name"@, Json::Str("execute_sequence"@))],
    )
}

fn push_member(
    out: &mut Vec<(String, JsonValue)>,
    key: &str,
    v: JsonValue,
)
    ensures
        view_members(final(out)@) == view_members(old(out)@).push((key@, v@)),
{
    let ghost before = out@;
    out.push((String::from_str(key), v));
    assert(out@.drop_last() =~= before);
}

/// The canonical `execute_sequence` call that runs a workflow (see
/// [`execute_sequence_call`]).
pub fn js_workflow_to_execute_sequence(js_workflow: JsWorkflow) -> (r: JsonValue)
    ensures
        r@ == execute_sequence_call(js_workflow@),
{
    let ghost w = js_workflow@;
    let JsWorkflow { timeout, variables, inputs, selectors, steps, .. } = js_workflow;
    let mut args: Vec<(String, JsonValue)> = Vec::new();
    match inputs {
        Some(m) => push_member(&mut args, "inputs", JsonValue::Object(m.members)),
        None => {},
    }
    assert(view_members(args@) =~= opt_member("inputs"@, object_of(w.inputs)));
    match selectors {
        Some(x) => push_member(&mut args, "selectors", x),
        None => {},
    }
    assert(view_members(args@) =~= opt_member("inputs"@, object_of(w.inputs)) + opt_member(
        "selectors"@,
        w.selectors,
    ));
    push_member(&mut args, "steps", JsonValue::Array(steps));
    match variables {
        Some(m) => push_member(&mut args, "variables", JsonValue::Object(m.members)),
        None => {},
    }
    assert(view_members(args@) =~= opt_member("inputs"@, object_of(w.inputs)) + opt_member(
        "selectors"@,
        w.selectors,
    ) + seq![("steps"@, Json::Array(w.steps))] + opt_member("variables"@, object_of(w.variables)));
    let mut top: Vec<(String, JsonValue)> = Vec::new();
    push_member(&mut top, "arguments", JsonValue::Object(args));
    match timeout {
        Some(t) => push_member(&mut top, "timeout_ms", JsonValue::Number(decimal_text(t))),
        None => {},
    }
    push_member(&mut top, "tool_name", JsonValue::Str(String::from_str("execute_sequence")));
    let r = JsonValue::Object(top);
    assert(view_members(top@) =~= execute_sequence_call(w)->Object_0);
    r
}

} // verus!
