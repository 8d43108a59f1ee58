//! The JSON records a run reports: per-step results, group results, skip
//! notes, and the run summary.
use crate::json::{
    decimal, decimal_text, lemma_view_items, text_view, view_items, view_members, Json,
    JsonValue,
};
use vstd::prelude::*;

verus! {

/// What the action executor returned for one tool call.
#[derive(Debug)]
pub enum ToolOutcome {
    /// The call succeeded; holds its content items, already read as JSON.
    Success(Vec<JsonValue>),
    /// The call failed; holds the error's text.
    Failure(String),
}

impl ToolOutcome {
    pub open spec fn succeeded(&self) -> bool {
        self is Success
    }
}

pub(crate) fn push_member(out: &mut Vec<(String, JsonValue)>, key: &str, v: JsonValue)
    ensures
        view_members(final(out)@) == view_members(old(out)@).push((key@, v@)),
{
    let ghost before = out@;
    out.push((String::from_str(key), v));
    assert(out@.drop_last() =~= before);
}

pub open spec fn number(n: nat) -> Json {
    Json::Number(decimal(n))
}

pub fn number_value(n: u64) -> (r: JsonValue)
    ensures
        r@ == number(n as nat),
{
    JsonValue::Number(decimal_text(n))
}

pub fn text_value(s: &str) -> (r: JsonValue)
    ensures
        r@ == Json::Str(s@),
{
    JsonValue::Str(String::from_str(s))
}

/// The note for a step skipped because an earlier failure was critical.
pub open spec fn critical_skip_record(index: nat) -> Json {
    Json::Object(
        seq![
            ("index"@, number(index)),
            ("reason"@, Json::Str("Skipped due to a previous unrecoverable error in the sequence."@)),
            ("status"@, Json::Str("skipped"@)),
        ],
    )
}

/// The note for a step skipped because its condition did not hold.
pub open spec fn condition_skip_record(index: nat, expr: Seq<char>) -> Json {
    Json::Object(
        seq![
            ("index"@, number(index)),
            ("reason"@, Json::Str("if_expr not met: "@ + expr)),
            ("status"@, Json::Str("skipped"@)),
        ],
    )
}

pub fn critical_skip(index: usize) -> (r: JsonValue)
    ensures
        r@ == critical_skip_record(index as nat),
{
    let mut m: Vec<(String, JsonValue)> = Vec::new();
    push_member(&mut m, "index", number_value(index as u64));
    push_member(
        &mut m,
        "reason",
        text_value("Skipped due to a previous unrecoverable error in the sequence."),
    );
    push_member(&mut m, "status", text_value("skipped"));
    assert(view_members(m@) =~= critical_skip_record(index as nat)->Object_0);
    JsonValue::Object(m)
}

pub fn condition_skip(index: usize, expr: &str) -> (r: JsonValue)
    ensures
        r@ == condition_skip_record(index as nat, expr@),
{
    let mut m: Vec<(String, JsonValue)> = Vec::new();
    push_member(&mut m, "index", number_value(index as u64));
    let mut reason = String::from_str("if_expr not met: ");
    reason.append(expr);
    push_member(&mut m, "reason", JsonValue::Str(reason));
    push_member(&mut m, "status", text_value("skipped"));
    assert(view_members(m@) =~= condition_skip_record(index as nat, expr@)->Object_0);
    JsonValue::Object(m)
}

/// The result of one run of a group.
pub open spec fn group_record(name: Seq<char>, had_errors: bool, results: Seq<Json>) -> Json {
    Json::Object(
        seq![
            ("group_name"@, Json::Str(name)),
            ("results"@, Json::Array(results)),
            (
                "status"@,
                Json::Str(
                    if had_errors {
                        "partial_success"@
                    } else {
                        "success"@
                    },
                ),
            ),
        ],
    )
}

pub fn group_result(name: &String, had_errors: bool, results: Vec<JsonValue>) -> (r: JsonValue)
    ensures
        r@ == group_record(name@, had_errors, view_items(results@)),
{
    let mut m: Vec<(String, JsonValue)> = Vec::new();
    push_member(&mut m, "group_name", JsonValue::Str(name.clone()));
    let ghost rs = view_items(results@);
    push_member(&mut m, "results", JsonValue::Array(results));
    if had_errors {
        push_member(&mut m, "status", text_value("partial_success"));
    } else {
        push_member(&mut m, "status", text_value("success"));
    }
    assert(view_members(m@) =~= group_record(name@, had_errors, rs)->Object_0);
    JsonValue::Object(m)
}

pub open spec fn opt_step_id(step_id: Option<Seq<char>>) -> Seq<(Seq<char>, Json)> {
    match step_id {
        Some(s) => seq![("step_id"@, Json::Str(s))],
        None => Seq::empty(),
    }
}

/// How a successful call's content is reported: all of it, or a count.
pub open spec fn content_summary(contents: Seq<Json>, include_detailed: bool) -> Json {
    if include_detailed {
        Json::Object(
            seq![
                ("content"@, Json::Array(contents)),
                ("content_count"@, number(contents.len())),
                ("type"@, Json::Str("tool_result"@)),
            ],
        )
    } else {
        Json::Object(
            seq![
                ("content"@, Json::Str("Tool executed successfully"@)),
                ("content_count"@, number(contents.len())),
                ("type"@, Json::Str("summary"@)),
            ],
        )
    }
}

pub open spec fn outcome_view(o: ToolOutcome) -> Result<Seq<Json>, Seq<char>> {
    match o {
        ToolOutcome::Success(c) => Ok(view_items(c@)),
        ToolOutcome::Failure(e) => Err(e@),
    }
}

/// The record of one tool call: its name, position, timing and either its
/// content or its error. A failure of a call that may fail is marked
/// `skipped`, any other failure `error`.
pub open spec fn tool_record(
    tool_name: Seq<char>,
    index: nat,
    step_id: Option<Seq<char>>,
    outcome: Result<Seq<Json>, Seq<char>>,
    is_skippable: bool,
    include_detailed: bool,
    duration_ms: nat,
) -> Json {
    match outcome {
        Ok(contents) => Json::Object(
            seq![
                ("duration_ms"@, number(duration_ms)),
                ("index"@, number(index)),
                ("result"@, content_summary(contents, include_detailed)),
                ("status"@, Json::Str("success"@)),
            ] + opt_step_id(step_id) + seq![("tool_name"@, Json::Str(tool_name))],
        ),
        Err(e) => Json::Object(
            seq![
                ("duration_ms"@, number(duration_ms)),
                ("error"@, Json::Str(e)),
                ("index"@, number(index)),
                (
                    "status"@,
                    Json::Str(
                        if is_skippable {
                            "skipped"@
                        } else {
                            "error"@
                        },
                    ),
                ),
            ] + opt_step_id(step_id) + seq![("tool_name"@, Json::Str(tool_name))],
        ),
    }
}

/// Builds the record of one tool call (see [`tool_record`]).
pub fn tool_result(
    tool_name: &String,
    index: usize,
    step_id: &Option<String>,
    outcome: ToolOutcome,
    is_skippable: bool,
    include_detailed: bool,
    duration_ms: u64,
) -> (r: JsonValue)
    ensures
        r@ == tool_record(
            tool_name@,
            index as nat,
            text_view(*step_id),
            outcome_view(outcome),
            is_skippable,
            include_detailed,
            duration_ms as nat,
        ),
{
    let ghost ov = outcome_view(outcome);
    let mut m: Vec<(String, JsonValue)> = Vec::new();
    push_member(&mut m, "duration_ms", number_value(duration_ms));
    let ghost head;
    match outcome {
        ToolOutcome::Success(contents) => {
            push_member(&mut m, "index", number_value(index as u64));
            let n = contents.len();
            proof {
                lemma_view_items(contents@);
            }
            let ghost cv = view_items(contents@);
            let mut s: Vec<(String, JsonValue)> = Vec::new();
            if include_detailed {
                push_member(&mut s, "content", JsonValue::Array(contents));
                push_member(&mut s, "content_count", number_value(n as u64));
                push_member(&mut s, "type", text_value("tool_result"));
            } else {
                push_member(&mut s, "content", text_value("Tool executed successfully"));
                push_member(&mut s, "content_count", number_value(n as u64));
                push_member(&mut s, "type", text_value("summary"));
            }
            assert(view_members(s@) =~= content_summary(cv, include_detailed)->Object_0);
            push_member(&mut m, "result", JsonValue::Object(s));
            push_member(&mut m, "status", text_value("success"));
            proof {
                head = seq![
                    ("duration_ms"@, number(duration_ms as nat)),
                    ("index"@, number(index as nat)),
                    ("result"@, content_summary(cv, include_detailed)),
                    ("status"@, Json::Str("success"@)),
                ];
            }
            assert(view_members(m@) =~= head);
        },
        ToolOutcome::Failure(e) => {
            let ghost ev = e@;
            push_member(&mut m, "error", JsonValue::Str(e));
            push_member(&mut m, "index", number_value(index as u64));
            if is_skippable {
                push_member(&mut m, "status", text_value("skipped"));
            } else {
                push_member(&mut m, "status", text_value("error"));
            }
            proof {
                head = seq![
                    ("duration_ms"@, number(duration_ms as nat)),
                    ("error"@, Json::Str(ev)),
                    ("index"@, number(index as nat)),
                    (
                        "status"@,
                        Json::Str(
                            if is_skippable {
                                "skipped"@
                            } else {
                                "error"@
                            },
                        ),
                    ),
                ];
            }
            assert(view_members(m@) =~= head);
        },
    }
    match step_id {
        Some(id) => push_member(&mut m, "step_id", JsonValue::Str(id.clone())),
        None => {},
    }
    push_member(&mut m, "tool_name", JsonValue::Str(tool_name.clone()));
    assert(view_members(m@) =~= head + opt_step_id(text_view(*step_id)) + seq![
        ("tool_name"@, Json::Str(tool_name@)),
    ]);
    JsonValue::Object(m)
}

/// The aggregate status of a run.
#[derive(Clone, Copy, PartialEq, Eq, Structural, Debug)]
pub enum RunStatus {
    /// No call failed.
    Success,
    /// A call that may not fail failed.
    PartialSuccess,
    /// Only calls that may fail failed.
    CompletedWithErrors,
}

/// `success` when nothing failed; else `partial_success` when a failure was
/// critical; else `completed_with_errors`.
pub open spec fn status_of(had_errors: bool, critical: bool) -> RunStatus {
    if !had_errors {
        RunStatus::Success
    } else if critical {
        RunStatus::PartialSuccess
    } else {
        RunStatus::CompletedWithErrors
    }
}

pub fn run_status(had_errors: bool, critical: bool) -> (r: RunStatus)
    ensures
        r == status_of(had_errors, critical),
{
    if !had_errors {
        RunStatus::Success
    } else if critical {
        RunStatus::PartialSuccess
    } else {
        RunStatus::CompletedWithErrors
    }
}

pub open spec fn status_text(s: RunStatus) -> Seq<char> {
    match s {
        RunStatus::Success => "success"@,
        RunStatus::PartialSuccess => "partial_success"@,
        RunStatus::CompletedWithErrors => "completed_with_errors"@,
    }
}

impl RunStatus {
    /// The status as the summary spells it.
    pub fn as_str(&self) -> (r: &'static str)
        ensures
            r@ == status_text(*self),
    {
        match self {
            RunStatus::Success => "success",
            RunStatus::PartialSuccess => "partial_success",
            RunStatus::CompletedWithErrors => "completed_with_errors",
        }
    }
}

/// What the output parser made of a run summary.
#[derive(Debug)]
pub enum ParserOutcome {
    /// It extracted a value.
    Parsed(JsonValue),
    /// It found nothing to extract.
    Nothing,
    /// It failed, with this message.
    Failed(String),
}

pub open spec fn parser_member(p: Option<ParserOutcome>) -> Seq<(Seq<char>, Json)> {
    match p {
        Some(ParserOutcome::Parsed(v)) => seq![("parsed_output"@, v@)],
        Some(ParserOutcome::Nothing) => seq![("parsed_output"@, Json::Object(seq![]))],
        Some(ParserOutcome::Failed(e)) => seq![("parser_error"@, Json::Str(e@))],
        None => seq![],
    }
}

/// The summary of a run: its status, how many steps there were and how many
/// results it has, its timing, the results, what the output parser made of
/// it (never a failure of the run), and for a sequential run that did not
/// fully succeed, a place for diagnostics.
pub open spec fn summary_record(
    status: RunStatus,
    total_tools: nat,
    results: Seq<Json>,
    duration_ms: nat,
    timestamp: Seq<char>,
    parallel: bool,
    parser: Option<ParserOutcome>,
) -> Json {
    Json::Object(
        seq![
            ("action"@, Json::Str("execute_sequence"@)),
            ("executed_tools"@, number(results.len())),
        ] + (if parallel {
            seq![("execution_mode"@, Json::Str("parallel"@))]
        } else {
            seq![]
        }) + seq![
            ("results"@, Json::Array(results)),
            ("status"@, Json::Str(status_text(status))),
            ("timestamp"@, Json::Str(timestamp)),
            ("total_duration_ms"@, number(duration_ms)),
            ("total_tools"@, number(total_tools)),
        ] + parser_member(parser) + (if !parallel && status != RunStatus::Success {
            seq![("debug_info_on_failure"@, Json::Object(seq![]))]
        } else {
            seq![]
        }),
    )
}

/// Builds the summary of a run (see [`summary_record`]).
pub fn run_summary(
    status: RunStatus,
    total_tools: usize,
    results: Vec<JsonValue>,
    duration_ms: u64,
    timestamp: &str,
    parallel: bool,
    parser: Option<ParserOutcome>,
) -> (r: JsonValue)
    ensures
        r@ == summary_record(
            status,
            total_tools as nat,
            view_items(results@),
            duration_ms as nat,
            timestamp@,
            parallel,
            parser,
        ),
{
    let ghost rv = view_items(results@);
    let ghost pm = parser_member(parser);
    proof {
        lemma_view_items(results@);
    }
    let mut m: Vec<(String, JsonValue)> = Vec::new();
    push_member(&mut m, "action", text_value("execute_sequence"));
    push_member(&mut m, "executed_tools", number_value(results.len() as u64));
    if parallel {
        push_member(&mut m, "execution_mode", text_value("parallel"));
    }
    push_member(&mut m, "results", JsonValue::Array(results));
    push_member(&mut m, "status", text_value(status.as_str()));
    push_member(&mut m, "timestamp", text_value(timestamp));
    push_member(&mut m, "total_duration_ms", number_value(duration_ms));
    push_member(&mut m, "total_tools", number_value(total_tools as u64));
    let ghost mid = view_members(m@);
    match parser {
        Some(ParserOutcome::Parsed(v)) => push_member(&mut m, "parsed_output", v),
        Some(ParserOutcome::Nothing) => {
            let e: Vec<(String, JsonValue)> = Vec::new();
            assert(view_members(e@) =~= seq![]);
            push_member(&mut m, "parsed_output", JsonValue::Object(e));
        },
        Some(ParserOutcome::Failed(e)) => push_member(&mut m, "parser_error", JsonValue::Str(e)),
        None => {},
    }
    assert(view_members(m@) =~= mid + pm);
    let ghost mid2 = view_members(m@);
    if !parallel && status != RunStatus::Success {
        let e: Vec<(String, JsonValue)> = Vec::new();
        assert(view_members(e@) =~= seq![]);
        push_member(&mut m, "debug_info_on_failure", JsonValue::Object(e));
    }
    assert(view_members(m@) =~= summary_record(
        status,
        total_tools as nat,
        rv,
        duration_ms as nat,
        timestamp@,
        parallel,
        parser,
    )->Object_0);
    JsonValue::Object(m)
}

} // verus!
