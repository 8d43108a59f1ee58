//! The canonical run input: variable definitions and their validation, the
//! execution context a run reads, and the steps read from JSON.
use crate::json::{
    field, find_member, keys_unique, lemma_view_members, member, opt_view, parse_json,
    parsed_json, text_view, view_members, Json, JsonValue,
};
use crate::sequence::{SequenceItem, SequenceStep, ToolCall, ToolGroup};
use crate::workflow::{any_field, text_field, u64_field};
use vstd::prelude::*;

verus! {

/// The type a variable's value must have.
#[derive(Clone, Copy, PartialEq, Eq, Structural, Debug)]
pub enum VariableType {
    String,
    Number,
    Boolean,
    /// A string among the definition's options.
    Enum,
    Array,
    Object,
}

/// The definition of one workflow variable.
#[derive(Debug)]
pub struct VariableDefinition {
    pub var_type: VariableType,
    pub default: Option<JsonValue>,
    /// Whether a value must be present; when unset, it must.
    pub required: Option<bool>,
    /// The allowed values of an `Enum` variable.
    pub options: Option<Vec<String>>,
}

/// Why a run's inputs were refused before any step ran.
#[derive(Debug)]
pub enum ValidationError {
    /// The variable's value does not have the declared type.
    WrongType { key: String, expected: VariableType },
    /// The enum variable's value is not among its options.
    NotAnOption { key: String },
    /// A required variable has neither an input nor a default.
    MissingRequired { key: String },
    /// The inputs are not an object.
    InvalidInputs,
    /// The definition of this variable cannot be read.
    InvalidDefinition { key: String },
}

/// The mathematical form of a [`ValidationError`].
pub enum ValidationFailure {
    WrongType(Seq<char>, VariableType),
    NotAnOption(Seq<char>),
    MissingRequired(Seq<char>),
    InvalidInputs,
    InvalidDefinition(Seq<char>),
}

impl View for ValidationError {
    type V = ValidationFailure;

    open spec fn view(&self) -> ValidationFailure {
        match self {
            ValidationError::WrongType { key, expected } => ValidationFailure::WrongType(
                key@,
                *expected,
            ),
            ValidationError::NotAnOption { key } => ValidationFailure::NotAnOption(key@),
            ValidationError::MissingRequired { key } => ValidationFailure::MissingRequired(key@),
            ValidationError::InvalidInputs => ValidationFailure::InvalidInputs,
            ValidationError::InvalidDefinition { key } => ValidationFailure::InvalidDefinition(
                key@,
            ),
        }
    }
}

pub open spec fn type_matches(t: VariableType, v: Json) -> bool {
    match t {
        VariableType::String => v is Str,
        VariableType::Number => v is Number,
        VariableType::Boolean => v is Bool,
        VariableType::Enum => v is Str,
        VariableType::Array => v is Array,
        VariableType::Object => v is Object,
    }
}

pub open spec fn options_view(o: Seq<String>) -> Seq<Seq<char>> {
    Seq::new(o.len(), |i: int| o[i]@)
}

/// The caller's input for `key`, when the inputs are an object that has one.
pub open spec fn input_value(inputs: Option<Json>, key: Seq<char>) -> Option<Json> {
    match inputs {
        Some(Json::Object(m)) => member(m, key),
        _ => None,
    }
}

/// What is wrong with variable `key`, if anything: its value (the input, else
/// the default) must have the declared type, and an enum's must be one of
/// its options; without a value, the variable must not be required.
pub open spec fn variable_problem(key: Seq<char>, def: VariableDefinition, inputs: Option<Json>) -> Option<ValidationFailure> {
    let value = match input_value(inputs, key) {
        Some(v) => Some(v),
        None => opt_view(def.default),
    };
    match value {
        Some(v) => if !type_matches(def.var_type, v) {
            Some(ValidationFailure::WrongType(key, def.var_type))
        } else if def.var_type == VariableType::Enum && (def.options matches Some(o)
            && !options_view(o@).contains(v->Str_0)) {
            Some(ValidationFailure::NotAnOption(key))
        } else {
            None
        },
        None => if !(def.required matches Some(false)) {
            Some(ValidationFailure::MissingRequired(key))
        } else {
            None
        },
    }
}

/// The first problem among the variables from position `i` on.
pub open spec fn first_problem(
    schema: Seq<(String, VariableDefinition)>,
    inputs: Option<Json>,
    i: int,
) -> Option<ValidationFailure>
    decreases schema.len() - i,
{
    if i < 0 || i >= schema.len() {
        None
    } else {
        match variable_problem(schema[i].0@, schema[i].1, inputs) {
            Some(f) => Some(f),
            None => first_problem(schema, inputs, i + 1),
        }
    }
}

fn contains_string(o: &Vec<String>, s: &String) -> (r: bool)
    ensures
        r == options_view(o@).contains(s@),
{
    let mut k: usize = 0;
    while k < o.len()
        invariant
            k <= o@.len(),
            forall|t: int| 0 <= t < k ==> o@[t]@ != s@,
        decreases o.len() - k,
    {
        if o[k] == *s {
            assert(options_view(o@)[k as int] == s@);
            return true;
        }
        k += 1;
    }
    false
}

fn variable_check(key: &String, def: &VariableDefinition, inputs: &Option<JsonValue>) -> (r: Result<
    (),
    ValidationError,
>)
    ensures
        match variable_problem(key@, *def, opt_view(*inputs)) {
            Some(f) => r matches Err(e) && e@ == f,
            None => r is Ok,
        },
{
    let from_input = match inputs {
        Some(JsonValue::Object(m)) => find_member(m, key.as_str()),
        _ => None,
    };
    let value = match from_input {
        Some(v) => Some(v),
        None => match &def.default {
            Some(d) => Some(d),
            None => None,
        },
    };
    match value {
        Some(v) => {
            let ok = match (def.var_type, v) {
                (VariableType::String, JsonValue::Str(_)) => true,
                (VariableType::Number, JsonValue::Number(_)) => true,
                (VariableType::Boolean, JsonValue::Bool(_)) => true,
                (VariableType::Enum, JsonValue::Str(_)) => true,
                (VariableType::Array, JsonValue::Array(_)) => true,
                (VariableType::Object, JsonValue::Object(_)) => true,
                _ => false,
            };
            if !ok {
                return Err(ValidationError::WrongType { key: key.clone(), expected: def.var_type });
            }
            if def.var_type == VariableType::Enum {
                match (&def.options, v) {
                    (Some(o), JsonValue::Str(s)) => {
                        if !contains_string(o, s) {
                            return Err(ValidationError::NotAnOption { key: key.clone() });
                        }
                    },
                    _ => {},
                }
            }
            Ok(())
        },
        None => match def.required {
            Some(false) => Ok(()),
            _ => Err(ValidationError::MissingRequired { key: key.clone() }),
        },
    }
}

/// Checks every variable of the schema against the inputs, in schema order,
/// and reports the first problem.
pub fn validate_variables(
    schema: &Vec<(String, VariableDefinition)>,
    inputs: &Option<JsonValue>,
) -> (r: Result<(), ValidationError>)
    ensures
        match first_problem(schema@, opt_view(*inputs), 0) {
            Some(f) => r matches Err(e) && e@ == f,
            None => r is Ok,
        },
{
    let mut i: usize = 0;
    while i < schema.len()
        invariant
            i <= schema@.len(),
            first_problem(schema@, opt_view(*inputs), i as int) == first_problem(
                schema@,
                opt_view(*inputs),
                0,
            ),
        decreases schema.len() - i,
    {
        match variable_check(&schema[i].0, &schema[i].1, inputs) {
            Err(e) => {
                return Err(e);
            },
            Ok(()) => {},
        }
        i += 1;
    }
    Ok(())
}

/// The index of the first member named `k`.
pub open spec fn key_index(m: Seq<(Seq<char>, Json)>, k: Seq<char>, from: int) -> Option<int>
    decreases m.len() - from,
{
    if from < 0 || from >= m.len() {
        None
    } else if m[from].0 == k {
        Some(from)
    } else {
        key_index(m, k, from + 1)
    }
}

/// `m` with member `k` set to `v`: replaced where it stands, else added at
/// the end.
pub open spec fn upsert(m: Seq<(Seq<char>, Json)>, k: Seq<char>, v: Json) -> Seq<(Seq<char>, Json)> {
    match key_index(m, k, 0) {
        Some(i) => m.update(i, (k, v)),
        None => m.push((k, v)),
    }
}

proof fn lemma_key_index(m: Seq<(Seq<char>, Json)>, k: Seq<char>, from: int)
    requires
        0 <= from,
    ensures
        key_index(m, k, from) matches Some(i) ==> from <= i < m.len() && m[i].0 == k,
    decreases m.len() - from,
{
    if from < m.len() && m[from].0 != k {
        lemma_key_index(m, k, from + 1);
    }
}

fn upsert_exec(m: &mut Vec<(String, JsonValue)>, k: String, v: JsonValue)
    ensures
        view_members(final(m)@) == upsert(view_members(old(m)@), k@, v@),
{
    let ghost vm = view_members(m@);
    let ghost kv = k@;
    let ghost vv = v@;
    proof {
        lemma_view_members(m@);
        lemma_key_index(vm, k@, 0);
    }
    let mut i: usize = 0;
    while i < m.len()
        invariant
            i <= m@.len(),
            vm == view_members(m@),
            vm.len() == m@.len(),
            forall|j: int| 0 <= j < m@.len() ==> #[trigger] vm[j] == (m@[j].0@, m@[j].1@),
            kv == k@,
            vv == v@,
            m@ == old(m)@,
            key_index(vm, k@, i as int) == key_index(vm, k@, 0),
        decreases m.len() - i,
    {
        if m[i].0 == k {
            assert(vm[i as int].0 == kv);
            assert(key_index(vm, kv, i as int) == Some(i as int));
            let ghost before = m@;
            let ghost entry = (k, v);
            m.remove(i);
            m.insert(i, (k, v));
            proof {
                assert(m@ =~= before.update(i as int, entry));
                lemma_view_members(m@);
                assert(view_members(m@) =~= vm.update(i as int, (kv, vv)));
            }
            return ;
        }
        i += 1;
    }
    let ghost before = m@;
    m.push((k, v));
    proof {
        assert(m@.drop_last() =~= before);
    }
}

/// The defaults of the schema's variables, from position `i` on, set in turn.
pub open spec fn with_defaults(
    m: Seq<(Seq<char>, Json)>,
    schema: Seq<(String, VariableDefinition)>,
    i: int,
) -> Seq<(Seq<char>, Json)>
    decreases schema.len() - i,
{
    if i < 0 || i >= schema.len() {
        m
    } else {
        with_defaults(
            match schema[i].1.default {
                Some(d) => upsert(m, schema[i].0@, d@),
                None => m,
            },
            schema,
            i + 1,
        )
    }
}

/// The members of `inputs` from position `i` on, set in turn.
pub open spec fn with_inputs(
    m: Seq<(Seq<char>, Json)>,
    inputs: Seq<(Seq<char>, Json)>,
    i: int,
) -> Seq<(Seq<char>, Json)>
    decreases inputs.len() - i,
{
    if i < 0 || i >= inputs.len() {
        m
    } else {
        with_inputs(upsert(m, inputs[i].0, inputs[i].1), inputs, i + 1)
    }
}

/// The selectors as the context holds them: a string that is itself JSON
/// is read as that JSON.
pub open spec fn selectors_value(sel: Json) -> Json {
    match sel {
        Json::Str(s) => match parsed_json(s) {
            Some(v) => v,
            None => sel,
        },
        _ => sel,
    }
}

/// The execution context of a run: the variables are validated first; then
/// the defaults, overridden by the inputs (which must be an object), and the
/// selectors under the key `selectors`.
pub open spec fn context_of(
    schema: Option<Seq<(String, VariableDefinition)>>,
    inputs: Option<Json>,
    selectors: Option<Json>,
) -> Result<Json, ValidationFailure> {
    let problem = match schema {
        Some(s) => first_problem(s, inputs, 0),
        None => None,
    };
    if problem is Some {
        Err(problem->0)
    } else if inputs matches Some(i) && !(i is Object) {
        Err(ValidationFailure::InvalidInputs)
    } else {
        let d = match schema {
            Some(s) => with_defaults(seq![], s, 0),
            None => seq![],
        };
        let withi = match inputs {
            Some(Json::Object(im)) => with_inputs(d, im, 0),
            _ => d,
        };
        Ok(
            Json::Object(
                match selectors {
                    Some(sel) => upsert(withi, "selectors"@, selectors_value(sel)),
                    None => withi,
                },
            ),
        )
    }
}

proof fn lemma_key_index_none(m: Seq<(Seq<char>, Json)>, k: Seq<char>, from: int)
    requires
        0 <= from,
        key_index(m, k, from) is None,
    ensures
        forall|j: int| from <= j < m.len() ==> #[trigger] m[j].0 != k,
    decreases m.len() - from,
{
    if from < m.len() {
        lemma_key_index_none(m, k, from + 1);
    }
}

proof fn lemma_upsert_unique(m: Seq<(Seq<char>, Json)>, k: Seq<char>, v: Json)
    requires
        keys_unique(m),
    ensures
        keys_unique(upsert(m, k, v)),
{
    lemma_key_index(m, k, 0);
    if key_index(m, k, 0) is None {
        lemma_key_index_none(m, k, 0);
        let u = upsert(m, k, v);
        assert forall|i: int, j: int| 0 <= i < j < u.len() implies #[trigger] u[i].0
            != #[trigger] u[j].0 by {
            if j == m.len() {
                assert(u[i] == m[i]);
            } else {
                assert(u[i] == m[i] && u[j] == m[j]);
            }
        }
    } else {
        let i0 = key_index(m, k, 0)->0;
        let u = upsert(m, k, v);
        assert forall|i: int, j: int| 0 <= i < j < u.len() implies #[trigger] u[i].0
            != #[trigger] u[j].0 by {
            assert(u[i].0 == m[i].0 && u[j].0 == m[j].0);
        }
    }
}

proof fn lemma_defaults_unique(
    m: Seq<(Seq<char>, Json)>,
    schema: Seq<(String, VariableDefinition)>,
    i: int,
)
    requires
        keys_unique(m),
    ensures
        keys_unique(with_defaults(m, schema, i)),
    decreases schema.len() - i,
{
    if 0 <= i < schema.len() {
        if let Some(d) = schema[i].1.default {
            lemma_upsert_unique(m, schema[i].0@, d@);
        }
        lemma_defaults_unique(
            match schema[i].1.default {
                Some(d) => upsert(m, schema[i].0@, d@),
                None => m,
            },
            schema,
            i + 1,
        );
    }
}

proof fn lemma_inputs_unique(
    m: Seq<(Seq<char>, Json)>,
    inputs: Seq<(Seq<char>, Json)>,
    i: int,
)
    requires
        keys_unique(m),
    ensures
        keys_unique(with_inputs(m, inputs, i)),
    decreases inputs.len() - i,
{
    if 0 <= i < inputs.len() {
        lemma_upsert_unique(m, inputs[i].0, inputs[i].1);
        lemma_inputs_unique(upsert(m, inputs[i].0, inputs[i].1), inputs, i + 1);
    }
}

/// The execution context holds each variable once: the keys of the object
/// [`context_of`] builds are unique.
pub proof fn lemma_context_keys_unique(
    schema: Option<Seq<(String, VariableDefinition)>>,
    inputs: Option<Json>,
    selectors: Option<Json>,
)
    ensures
        context_of(schema, inputs, selectors) matches Ok(c) ==> c matches Json::Object(m)
            && keys_unique(m),
{
    let e: Seq<(Seq<char>, Json)> = seq![];
    let d = match schema {
        Some(s) => with_defaults(e, s, 0),
        None => e,
    };
    if let Some(s) = schema {
        lemma_defaults_unique(e, s, 0);
    }
    let withi = match inputs {
        Some(Json::Object(im)) => with_inputs(d, im, 0),
        _ => d,
    };
    if let Some(Json::Object(im)) = inputs {
        lemma_inputs_unique(d, im, 0);
    }
    if let Some(sel) = selectors {
        lemma_upsert_unique(withi, "selectors"@, selectors_value(sel));
    }
}

fn selectors_exec(sel: &JsonValue) -> (r: JsonValue)
    ensures
        r@ == selectors_value(sel@),
{
    match sel {
        JsonValue::Str(s) => match parse_json(s.as_str()) {
            Some(v) => v,
            None => sel.deep_copy(),
        },
        _ => sel.deep_copy(),
    }
}

/// Builds the execution context of a run (see [`context_of`]).
pub fn build_execution_context(
    schema: &Option<Vec<(String, VariableDefinition)>>,
    inputs: &Option<JsonValue>,
    selectors: &Option<JsonValue>,
) -> (r: Result<JsonValue, ValidationError>)
    ensures
        match context_of(
            match schema {
                Some(s) => Some(s@),
                None => None,
            },
            opt_view(*inputs),
            opt_view(*selectors),
        ) {
            Ok(c) => r matches Ok(x) && x@ == c,
            Err(f) => r matches Err(e) && e@ == f,
        },
        r matches Ok(x) ==> x@ matches Json::Object(m) && keys_unique(m),
{
    proof {
        lemma_context_keys_unique(
            match schema {
                Some(s) => Some(s@),
                None => None,
            },
            opt_view(*inputs),
            opt_view(*selectors),
        );
    }
    match schema {
        Some(s) => match validate_variables(s, inputs) {
            Err(e) => {
                return Err(e);
            },
            Ok(()) => {},
        },
        None => {},
    }
    match inputs {
        Some(JsonValue::Object(_)) => {},
        Some(_) => {
            return Err(ValidationError::InvalidInputs);
        },
        None => {},
    }
    let mut m: Vec<(String, JsonValue)> = Vec::new();
    assert(view_members(m@) =~= seq![]);
    match schema {
        Some(s) => {
            let mut i: usize = 0;
            while i < s.len()
                invariant
                    i <= s@.len(),
                    with_defaults(view_members(m@), s@, i as int) == with_defaults(
                        seq![],
                        s@,
                        0,
                    ),
                decreases s.len() - i,
            {
                match &s[i].1.default {
                    Some(d) => upsert_exec(&mut m, s[i].0.clone(), d.deep_copy()),
                    None => {},
                }
                i += 1;
            }
        },
        None => {},
    }
    let ghost d = view_members(m@);
    match inputs {
        Some(JsonValue::Object(im)) => {
            proof {
                lemma_view_members(im@);
            }
            let ghost ivm = view_members(im@);
            let mut j: usize = 0;
            while j < im.len()
                invariant
                    j <= im@.len(),
                    ivm == view_members(im@),
                    ivm.len() == im@.len(),
                    forall|t: int| 0 <= t < im@.len() ==> #[trigger] ivm[t] == (im@[t].0@, im@[t].1@),
                    with_inputs(view_members(m@), ivm, j as int) == with_inputs(d, ivm, 0),
                decreases im.len() - j,
            {
                upsert_exec(&mut m, im[j].0.clone(), im[j].1.deep_copy());
                j += 1;
            }
        },
        _ => {},
    }
    match selectors {
        Some(sel) => upsert_exec(&mut m, String::from_str("selectors"), selectors_exec(sel)),
        None => {},
    }
    Ok(JsonValue::Object(m))
}

/// Why a step or variable definition could not be read from JSON.
#[derive(Debug)]
pub enum DefinitionError {
    /// The named member has a type the definition cannot take.
    WrongFieldType(String),
    /// A step has neither `tool_name` nor `group_name`.
    NeitherToolNorGroup,
    /// The value is not an object.
    NotAnObject,
}

/// An optional flag member.
pub open spec fn bool_field(v: Json, k: Seq<char>) -> Option<Option<bool>> {
    match field(v, k) {
        None => Some(None),
        Some(Json::Null) => Some(None),
        Some(Json::Bool(b)) => Some(Some(b)),
        Some(_) => None,
    }
}

fn text_member(v: &JsonValue, key: &str) -> (r: Result<Option<String>, DefinitionError>)
    ensures
        match text_field(v@, key@) {
            Some(x) => r matches Ok(y) && text_view(y) == x,
            None => r is Err,
        },
{
    match v.get(key) {
        None => Ok(None),
        Some(JsonValue::Null) => Ok(None),
        Some(JsonValue::Str(s)) => Ok(Some(s.clone())),
        Some(_) => Err(DefinitionError::WrongFieldType(String::from_str(key))),
    }
}

fn bool_member(v: &JsonValue, key: &str) -> (r: Result<Option<bool>, DefinitionError>)
    ensures
        match bool_field(v@, key@) {
            Some(x) => r matches Ok(y) && y == x,
            None => r is Err,
        },
{
    match v.get(key) {
        None => Ok(None),
        Some(JsonValue::Null) => Ok(None),
        Some(JsonValue::Bool(b)) => Ok(Some(*b)),
        Some(_) => Err(DefinitionError::WrongFieldType(String::from_str(key))),
    }
}

fn u64_member(v: &JsonValue, key: &str) -> (r: Result<Option<u64>, DefinitionError>)
    ensures
        match u64_field(v@, key@) {
            Some(x) => r matches Ok(y) && y == x,
            None => r is Err,
        },
{
    match v.get(key) {
        None => Ok(None),
        Some(JsonValue::Null) => Ok(None),
        Some(x) => match x {
            JsonValue::Number(_) => match x.as_u64() {
                Some(n) => Ok(Some(n)),
                None => Err(DefinitionError::WrongFieldType(String::from_str(key))),
            },
            _ => Err(DefinitionError::WrongFieldType(String::from_str(key))),
        },
    }
}

/// The arguments of a call: the member `arguments`, or an empty object when
/// it is absent or `null`.
pub open spec fn arguments_of(v: Json) -> Json {
    match any_field(v, "arguments"@) {
        Some(a) => a,
        None => Json::Object(seq![]),
    }
}

fn arguments_member(v: &JsonValue) -> (r: JsonValue)
    ensures
        r@ == arguments_of(v@),
{
    match v.get("arguments") {
        None => {
            let e: Vec<(String, JsonValue)> = Vec::new();
            assert(view_members(e@) =~= seq![]);
            JsonValue::Object(e)
        },
        Some(JsonValue::Null) => {
            let e: Vec<(String, JsonValue)> = Vec::new();
            assert(view_members(e@) =~= seq![]);
            JsonValue::Object(e)
        },
        Some(a) => a.deep_copy(),
    }
}

/// Member `k` is present and a string.
pub open spec fn has_text(v: Json, k: Seq<char>) -> bool {
    text_field(v, k) matches Some(Some(_))
}

/// Whether a JSON value reads as a tool call of a group.
pub open spec fn call_ok(v: Json) -> bool {
    &&& v is Object
    &&& has_text(v, "tool_name"@)
    &&& bool_field(v, "continue_on_error"@) is Some
    &&& u64_field(v, "delay_ms"@) is Some
    &&& text_field(v, "id"@) is Some
}

/// Reads one tool call of a group: an object with a `tool_name` string, and
/// optional `arguments`, `continue_on_error`, `delay_ms` and `id`.
pub fn tool_call_from_json(v: &JsonValue) -> (r: Result<ToolCall, DefinitionError>)
    ensures
        r is Ok <==> call_ok(v@),
        r matches Ok(c) ==> tool_call_matches(c, v@) && text_view(c.id)
            == text_field(v@, "id"@)->0,
{
    match v {
        JsonValue::Object(_) => {},
        _ => {
            return Err(DefinitionError::NotAnObject);
        },
    }
    let tool_name = match text_member(v, "tool_name") {
        Ok(Some(t)) => t,
        Ok(None) => {
            return Err(DefinitionError::WrongFieldType(String::from_str("tool_name")));
        },
        Err(e) => {
            return Err(e);
        },
    };
    let continue_on_error = match bool_member(v, "continue_on_error") {
        Ok(x) => x,
        Err(e) => {
            return Err(e);
        },
    };
    let delay_ms = match u64_member(v, "delay_ms") {
        Ok(x) => x,
        Err(e) => {
            return Err(e);
        },
    };
    let id = match text_member(v, "id") {
        Ok(x) => x,
        Err(e) => {
            return Err(e);
        },
    };
    Ok(ToolCall { tool_name, arguments: arguments_member(v), continue_on_error, delay_ms, id })
}

/// Whether every element of `a` reads as a tool call.
pub open spec fn all_calls_ok(a: Seq<Json>) -> bool {
    forall|i: int| 0 <= i < a.len() ==> call_ok(#[trigger] a[i])
}

/// The retry count: a number that fits in 32 bits.
pub open spec fn retries_field(v: Json) -> Option<Option<u32>> {
    match u64_field(v, "retries"@) {
        Some(Some(n)) => if n <= u32::MAX {
            Some(Some(n as u32))
        } else {
            None
        },
        Some(None) => Some(None),
        None => None,
    }
}

/// Whether a JSON value reads as a step: an object whose members have the
/// right types, with a `tool_name` or, failing that, a `group_name` whose
/// `steps` (if any) are all tool calls.
pub open spec fn step_ok(v: Json) -> bool {
    &&& v is Object
    &&& text_field(v, "id"@) is Some
    &&& text_field(v, "if"@) is Some
    &&& retries_field(v) is Some
    &&& text_field(v, "fallback_id"@) is Some
    &&& text_field(v, "tool_name"@) is Some
    &&& text_field(v, "group_name"@) is Some
    &&& (has_text(v, "tool_name"@) ==> bool_field(
        v,
        "continue_on_error"@,
    ) is Some && u64_field(v, "delay_ms"@) is Some)
    &&& (text_field(v, "tool_name"@) == Some::<Option<Seq<char>>>(None) ==> (has_text(
        v,
        "group_name"@,
    ) && bool_field(v, "skippable"@) is Some && match field(v, "steps"@) {
        None => true,
        Some(Json::Null) => true,
        Some(Json::Array(a)) => all_calls_ok(a),
        Some(_) => false,
    }))
}

/// What a step read from `v` holds: its id, condition, retries and
/// fallback, and either the tool call or the group that `v` describes.
pub open spec fn step_matches(st: SequenceStep, v: Json) -> bool {
    &&& text_view(st.id) == text_field(v, "id"@)->0
    &&& text_view(st.if_expr) == text_field(v, "if"@)->0
    &&& st.retries == retries_field(v)->0
    &&& text_view(st.fallback_id) == text_field(v, "fallback_id"@)->0
    &&& has_text(v, "tool_name"@) ==> (st.item matches SequenceItem::Tool { tool_call }
        && tool_call_matches(tool_call, v) && text_view(tool_call.id) == text_field(v, "id"@)->0)
    &&& !has_text(v, "tool_name"@) ==> (st.item matches SequenceItem::Group { tool_group }
        && tool_group.group_name@ == text_field(v, "group_name"@)->0->0
        && tool_group.skippable == bool_field(v, "skippable"@)->0
        && calls_match(tool_group.steps@, inner_steps(v)))
}

/// The inner calls a group step lists: its `steps` array, or none when that
/// is absent or `null`.
pub open spec fn inner_steps(v: Json) -> Seq<Json> {
    match field(v, "steps"@) {
        Some(Json::Array(a)) => a,
        _ => seq![],
    }
}

/// Each call read from the JSON element at its position.
pub open spec fn calls_match(cs: Seq<ToolCall>, vs: Seq<Json>) -> bool {
    &&& cs.len() == vs.len()
    &&& forall|i: int|
        0 <= i < cs.len() ==> tool_call_matches(#[trigger] cs[i], vs[i]) && text_view(cs[i].id)
            == text_field(vs[i], "id"@)->0
}

pub open spec fn tool_call_matches(c: ToolCall, v: Json) -> bool {
    &&& c.tool_name@ == text_field(v, "tool_name"@)->0->0
    &&& c.arguments@ == arguments_of(v)
    &&& c.continue_on_error == bool_field(v, "continue_on_error"@)->0
    &&& c.delay_ms == u64_field(v, "delay_ms"@)->0
}

/// Reads one step of the canonical run input. A step with a `tool_name` is
/// a tool step; otherwise one with a `group_name` is a group step; a step
/// with neither is refused.
pub fn sequence_step_from_json(v: &JsonValue) -> (r: Result<SequenceStep, DefinitionError>)
    ensures
        r is Ok <==> step_ok(v@),
        r matches Ok(st) ==> step_matches(st, v@),
{
    match v {
        JsonValue::Object(_) => {},
        _ => {
            return Err(DefinitionError::NotAnObject);
        },
    }
    let id = match text_member(v, "id") {
        Ok(x) => x,
        Err(e) => {
            return Err(e);
        },
    };
    let if_expr = match text_member(v, "if") {
        Ok(x) => x,
        Err(e) => {
            return Err(e);
        },
    };
    let retries = match u64_member(v, "retries") {
        Ok(Some(n)) => {
            if n > u32::MAX as u64 {
                return Err(DefinitionError::WrongFieldType(String::from_str("retries")));
            }
            Some(n as u32)
        },
        Ok(None) => None,
        Err(e) => {
            return Err(e);
        },
    };
    let fallback_id = match text_member(v, "fallback_id") {
        Ok(x) => x,
        Err(e) => {
            return Err(e);
        },
    };
    let tool_name = match text_member(v, "tool_name") {
        Ok(x) => x,
        Err(e) => {
            return Err(e);
        },
    };
    let group_name = match text_member(v, "group_name") {
        Ok(x) => x,
        Err(e) => {
            return Err(e);
        },
    };
    let item = match tool_name {
        Some(t) => {
            let continue_on_error = match bool_member(v, "continue_on_error") {
                Ok(x) => x,
                Err(e) => {
                    return Err(e);
                },
            };
            let delay_ms = match u64_member(v, "delay_ms") {
                Ok(x) => x,
                Err(e) => {
                    return Err(e);
                },
            };
            SequenceItem::Tool {
                tool_call: ToolCall {
                    tool_name: t,
                    arguments: arguments_member(v),
                    continue_on_error,
                    delay_ms,
                    id: match &id {
                        Some(s) => Some(s.clone()),
                        None => None,
                    },
                },
            }
        },
        None => match group_name {
            None => {
                return Err(DefinitionError::NeitherToolNorGroup);
            },
            Some(g) => {
                let skippable = match bool_member(v, "skippable") {
                    Ok(x) => x,
                    Err(e) => {
                        return Err(e);
                    },
                };
                let mut calls: Vec<ToolCall> = Vec::new();
                match v.get("steps") {
                    None => {},
                    Some(JsonValue::Null) => {},
                    Some(JsonValue::Array(a)) => {
                        proof {
                            crate::json::lemma_view_items(a@);
                        }
                        let mut i: usize = 0;
                        while i < a.len()
                            invariant
                                i <= a@.len(),
                                forall|t: int|
                                    0 <= t < i ==> call_ok(
                                        #[trigger] crate::json::view_items(a@)[t],
                                    ),
                                crate::json::view_items(a@).len() == a@.len(),
                                text_field(v@, "tool_name"@) == Some::<Option<Seq<char>>>(None),
                                field(v@, "steps"@) == Some(Json::Array(crate::json::view_items(a@))),
                                forall|t: int| 0 <= t < a@.len() ==> #[trigger] crate::json::view_items(a@)[t] == a@[t]@,
                                calls@.len() == i,
                                forall|t: int|
                                    0 <= t < i ==> tool_call_matches(
                                        #[trigger] calls@[t],
                                        crate::json::view_items(a@)[t],
                                    ) && text_view(calls@[t].id) == text_field(
                                        crate::json::view_items(a@)[t],
                                        "id"@,
                                    )->0,
                            decreases a.len() - i,
                        {
                            match tool_call_from_json(&a[i]) {
                                Ok(c) => calls.push(c),
                                Err(e) => {
                                    assert(!call_ok(crate::json::view_items(a@)[i as int]));
                                    assert(!all_calls_ok(crate::json::view_items(a@)));
                                    return Err(e);
                                },
                            }
                            i += 1;
                        }
                    },
                    Some(_) => {
                        return Err(DefinitionError::WrongFieldType(String::from_str("steps")));
                    },
                }
                SequenceItem::Group {
                    tool_group: ToolGroup { group_name: g, steps: calls, skippable },
                }
            },
        },
    };
    Ok(SequenceStep { id, if_expr, retries, fallback_id, item })
}

/// The variable type a `type` name denotes.
pub open spec fn type_named(t: Seq<char>) -> Option<VariableType> {
    if t == "string"@ {
        Some(VariableType::String)
    } else if t == "number"@ {
        Some(VariableType::Number)
    } else if t == "boolean"@ {
        Some(VariableType::Boolean)
    } else if t == "enum"@ {
        Some(VariableType::Enum)
    } else if t == "array"@ {
        Some(VariableType::Array)
    } else if t == "object"@ {
        Some(VariableType::Object)
    } else {
        None
    }
}

fn type_named_exec(t: &str) -> (r: Option<VariableType>)
    ensures
        r == type_named(t@),
{
    let cs = crate::text::chars_of(t);
    let n0 = crate::text::chars_of("string");
    if crate::text::same_chars(&cs, &n0) {
        return Some(VariableType::String);
    }
    let n1 = crate::text::chars_of("number");
    if crate::text::same_chars(&cs, &n1) {
        return Some(VariableType::Number);
    }
    let n2 = crate::text::chars_of("boolean");
    if crate::text::same_chars(&cs, &n2) {
        return Some(VariableType::Boolean);
    }
    let n3 = crate::text::chars_of("enum");
    if crate::text::same_chars(&cs, &n3) {
        return Some(VariableType::Enum);
    }
    let n4 = crate::text::chars_of("array");
    if crate::text::same_chars(&cs, &n4) {
        return Some(VariableType::Array);
    }
    let n5 = crate::text::chars_of("object");
    if crate::text::same_chars(&cs, &n5) {
        return Some(VariableType::Object);
    }
    None
}

/// Whether every element of `a` is a string.
pub open spec fn all_strings(a: Seq<Json>) -> bool {
    forall|i: int| 0 <= i < a.len() ==> (#[trigger] a[i]) is Str
}

/// Whether a JSON value reads as a variable definition: an object whose
/// `type` names a type, whose `required` (if set) is a flag, and whose
/// `options` (if set) are strings. Other members (`label`, ...) are ignored.
pub open spec fn definition_ok(v: Json) -> bool {
    &&& v is Object
    &&& text_field(v, "type"@) matches Some(Some(t)) && type_named(t) is Some
    &&& bool_field(v, "required"@) is Some
    &&& match field(v, "options"@) {
        None => true,
        Some(Json::Null) => true,
        Some(Json::Array(a)) => all_strings(a),
        Some(_) => false,
    }
}

/// What a definition read from `v` holds: the named type, the default
/// (`null` counting as none), the `required` flag and the options.
pub open spec fn definition_matches(d: VariableDefinition, v: Json) -> bool {
    &&& Some(d.var_type) == type_named(text_field(v, "type"@)->0->0)
    &&& opt_view(d.default) == any_field(v, "default"@)
    &&& d.required == bool_field(v, "required"@)->0
    &&& match d.options {
        Some(o) => field(v, "options"@) matches Some(Json::Array(a)) && options_view(o@) == Seq::new(
            a.len(),
            |i: int| a[i]->Str_0,
        ),
        None => !(field(v, "options"@) matches Some(Json::Array(_))),
    }
}

/// Reads one variable definition.
pub fn variable_definition_from_json(key: &String, v: &JsonValue) -> (r: Result<
    VariableDefinition,
    ValidationError,
>)
    ensures
        r is Ok <==> definition_ok(v@),
        r matches Err(e) ==> e@ == ValidationFailure::InvalidDefinition(key@),
        r matches Ok(d) ==> definition_matches(d, v@),
{
    let bad = ValidationError::InvalidDefinition { key: key.clone() };
    match v {
        JsonValue::Object(_) => {},
        _ => {
            return Err(bad);
        },
    }
    let var_type = match v.get("type") {
        Some(JsonValue::Str(t)) => match type_named_exec(t.as_str()) {
            Some(x) => x,
            None => {
                return Err(bad);
            },
        },
        _ => {
            return Err(bad);
        },
    };
    let required = match v.get("required") {
        None => None,
        Some(JsonValue::Null) => None,
        Some(JsonValue::Bool(b)) => Some(*b),
        Some(_) => {
            return Err(bad);
        },
    };
    let options = match v.get("options") {
        None => None,
        Some(JsonValue::Null) => None,
        Some(JsonValue::Array(a)) => {
            proof {
                crate::json::lemma_view_items(a@);
            }
            let mut out: Vec<String> = Vec::new();
            let mut i: usize = 0;
            while i < a.len()
                invariant
                    i <= a@.len(),
                    out@.len() == i,
                    crate::json::view_items(a@).len() == a@.len(),
                    forall|t: int| 0 <= t < a@.len() ==> #[trigger] crate::json::view_items(a@)[t] == a@[t]@,
                    forall|t: int| 0 <= t < i ==> (#[trigger] a@[t]@) is Str && out@[t]@ == a@[t]@->Str_0,
                    bad@ == ValidationFailure::InvalidDefinition(key@),
                    field(v@, "options"@) == Some(Json::Array(crate::json::view_items(a@))),
                decreases a.len() - i,
            {
                match &a[i] {
                    JsonValue::Str(s) => out.push(s.clone()),
                    _ => {
                        assert(!(crate::json::view_items(a@)[i as int] is Str));
                        assert(!all_strings(crate::json::view_items(a@)));
                        return Err(bad);
                    },
                }
                i += 1;
            }
            assert(options_view(out@) =~= Seq::new(
                crate::json::view_items(a@).len(),
                |t: int| crate::json::view_items(a@)[t]->Str_0,
            ));
            Some(out)
        },
        Some(_) => {
            return Err(bad);
        },
    };
    let default = match v.get("default") {
        None => None,
        Some(JsonValue::Null) => None,
        Some(d) => Some(d.deep_copy()),
    };
    Ok(VariableDefinition { var_type, default, required, options })
}

/// Reads the variable definitions of a workflow, keyed by name, in order.
pub fn variables_from_json(vars: &Vec<(String, JsonValue)>) -> (r: Result<
    Vec<(String, VariableDefinition)>,
    ValidationError,
>)
    ensures
        r is Ok <==> forall|i: int| 0 <= i < vars@.len() ==> definition_ok(#[trigger] vars@[i].1@),
        r matches Ok(s) ==> s@.len() == vars@.len() && forall|i: int|
            0 <= i < vars@.len() ==> (#[trigger] s@[i]).0@ == vars@[i].0@ && definition_matches(
                s@[i].1,
                vars@[i].1@,
            ),
        r matches Err(e) ==> exists|j: int|
            0 <= j < vars@.len() && !definition_ok(#[trigger] vars@[j].1@) && (forall|k: int|
                0 <= k < j ==> definition_ok(#[trigger] vars@[k].1@)) && e@
                == ValidationFailure::InvalidDefinition(vars@[j].0@),
{
    let mut out: Vec<(String, VariableDefinition)> = Vec::new();
    let mut i: usize = 0;
    while i < vars.len()
        invariant
            i <= vars@.len(),
            out@.len() == i,
            forall|t: int| 0 <= t < i ==> definition_ok(#[trigger] vars@[t].1@),
            forall|t: int|
                0 <= t < i ==> (#[trigger] out@[t]).0@ == vars@[t].0@ && definition_matches(
                    out@[t].1,
                    vars@[t].1@,
                ),
        decreases vars.len() - i,
    {
        match variable_definition_from_json(&vars[i].0, &vars[i].1) {
            Ok(d) => out.push((vars[i].0.clone(), d)),
            Err(e) => {
                assert(!definition_ok(vars@[i as int].1@));
                return Err(e);
            },
        }
        i += 1;
    }
    Ok(out)
}

} // verus!
