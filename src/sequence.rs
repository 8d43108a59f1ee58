//! The sequential step engine: a state machine that walks the step list,
//! deciding for every step whether to skip it, evaluate its condition, run it
//! (with retries, and a whole group at a time), or jump to a fallback step,
//! and that keeps the per-step results and the run's failure flags.
//!
//! The engine does no work itself. Each call hands back an [`Action`]: the
//! caller evaluates a condition or invokes a tool, then reports the result.
use crate::helpers::{short_name, short_tool_name};
use crate::json::{text_view, view_items, Json, JsonValue};
use crate::records::{
    condition_skip, condition_skip_record, critical_skip, critical_skip_record, group_record,
    group_result, outcome_view, run_status, status_of, tool_record, tool_result, RunStatus,
    ToolOutcome,
};
use crate::template::{substitute, substituted};
use crate::text::{chars_of, same_chars, trim, trimmed};
use vstd::prelude::*;

verus! {

/// One tool call of a workflow.
#[derive(Debug)]
pub struct ToolCall {
    pub tool_name: String,
    pub arguments: JsonValue,
    pub continue_on_error: Option<bool>,
    pub delay_ms: Option<u64>,
    pub id: Option<String>,
}

/// A named batch of tool calls run in order.
#[derive(Debug)]
pub struct ToolGroup {
    pub group_name: String,
    pub steps: Vec<ToolCall>,
    pub skippable: Option<bool>,
}

/// What a step does: one tool call, or a group of them.
#[derive(Debug)]
pub enum SequenceItem {
    Tool { tool_call: ToolCall },
    Group { tool_group: ToolGroup },
}

/// A step of a sequence, with its control settings.
#[derive(Debug)]
pub struct SequenceStep {
    pub id: Option<String>,
    /// The `if` expression.
    pub if_expr: Option<String>,
    pub retries: Option<u32>,
    pub fallback_id: Option<String>,
    pub item: SequenceItem,
}

/// Where the engine stands.
#[derive(Clone, Copy, PartialEq, Eq, Structural)]
pub enum Phase {
    /// Between steps.
    Ready,
    /// Waiting for the value of the current step's condition.
    AwaitingCondition,
    /// Waiting for the outcome of the current tool step.
    AwaitingTool,
    /// Waiting for the outcome of the current inner call of a group.
    AwaitingGroupTool,
    /// The run is over.
    Done,
}

/// What the caller is to do next. `pause_ms` is how long to wait first.
#[derive(Debug)]
pub enum Action {
    /// Evaluate the `if` expression of step `index` against the context and
    /// report it with [`SequenceRun::condition_evaluated`].
    EvaluateCondition { index: usize, expr: String, pause_ms: u64 },
    /// Invoke a tool with these (substituted) arguments and report the
    /// outcome with [`SequenceRun::tool_finished`].
    Invoke { tool_name: String, arguments: JsonValue, pause_ms: u64 },
    /// Nothing is left to do.
    Finished { pause_ms: u64 },
}

/// The mathematical form of an [`Action`].
pub enum ActionView {
    EvaluateCondition { index: nat, expr: Seq<char>, pause: nat },
    Invoke { tool_name: Seq<char>, arguments: Json, pause: nat },
    Finished { pause: nat },
}

impl View for Action {
    type V = ActionView;

    open spec fn view(&self) -> ActionView {
        match self {
            Action::EvaluateCondition { index, expr, pause_ms } => ActionView::EvaluateCondition {
                index: *index as nat,
                expr: expr@,
                pause: *pause_ms as nat,
            },
            Action::Invoke { tool_name, arguments, pause_ms } => ActionView::Invoke {
                tool_name: tool_name@,
                arguments: arguments@,
                pause: *pause_ms as nat,
            },
            Action::Finished { pause_ms } => ActionView::Finished { pause: *pause_ms as nat },
        }
    }
}

/// The state of a sequential run.
pub struct SequenceRun {
    pub steps: Vec<SequenceStep>,
    /// The run input's flag, carried with the run; the sequential rules do
    /// not depend on it (a critical failure always stops later steps).
    pub stop_on_error: bool,
    pub include_detailed: bool,
    pub current_index: usize,
    pub iterations: usize,
    pub critical_error_occurred: bool,
    /// Whether any attempt of any step has failed.
    pub had_errors: bool,
    pub results: Vec<JsonValue>,
    /// The attempt of the current step, from 0.
    pub attempt: u32,
    /// The inner call of the current group.
    pub inner: usize,
    pub group_had_errors: bool,
    pub group_results: Vec<JsonValue>,
    pub phase: Phase,
}

/// The mathematical form of the changing part of a [`SequenceRun`].
pub struct RunView {
    pub index: nat,
    pub iterations: nat,
    pub critical: bool,
    pub had_errors: bool,
    pub results: Seq<Json>,
    pub attempt: nat,
    pub inner: nat,
    pub group_had_errors: bool,
    pub group_results: Seq<Json>,
    pub phase: Phase,
}

impl View for SequenceRun {
    type V = RunView;

    open spec fn view(&self) -> RunView {
        RunView {
            index: self.current_index as nat,
            iterations: self.iterations as nat,
            critical: self.critical_error_occurred,
            had_errors: self.had_errors,
            results: view_items(self.results@),
            attempt: self.attempt as nat,
            inner: self.inner as nat,
            group_had_errors: self.group_had_errors,
            group_results: view_items(self.group_results@),
            phase: self.phase,
        }
    }
}

/// The literal that marks a step to run even after a critical failure.
pub open spec fn always_literal() -> Seq<char> {
    seq!['a', 'l', 'w', 'a', 'y', 's', '(', ')']
}

/// A step whose `if` expression, trimmed, is `always()`.
pub open spec fn is_always(if_expr: Option<String>) -> bool {
    if_expr matches Some(e) && trim(e@) == always_literal()
}

/// At most ten iterations per step, a bound on fallback cycles.
pub open spec fn max_iterations(n: nat) -> nat {
    10 * n
}

pub open spec fn sat_add(a: nat, b: nat) -> nat {
    if a + b > u64::MAX {
        u64::MAX as nat
    } else {
        a + b
    }
}

pub open spec fn delay_of(d: Option<u64>) -> nat {
    match d {
        Some(x) => x as nat,
        None => 0,
    }
}

pub open spec fn flag(b: Option<bool>) -> bool {
    b matches Some(x) && x
}

pub open spec fn retries_of(step: SequenceStep) -> nat {
    match step.retries {
        Some(r) => r as nat,
        None => 0,
    }
}

/// The last position at or before `k - 1` whose step has id `id`.
pub open spec fn last_with_id(steps: Seq<SequenceStep>, id: Seq<char>, k: int) -> Option<nat>
    decreases k,
{
    if k <= 0 {
        None
    } else if steps[k - 1].id matches Some(s) && s@ == id {
        Some((k - 1) as nat)
    } else {
        last_with_id(steps, id, k - 1)
    }
}

/// Where to go after step `i`: the next step when it succeeded, else the step
/// its `fallback_id` names (the last with that id) if there is one, else the
/// next step.
pub open spec fn next_index(steps: Seq<SequenceStep>, i: nat, succeeded: bool) -> nat {
    if succeeded {
        i + 1
    } else {
        match steps[i as int].fallback_id {
            Some(fb) => match last_with_id(steps, fb@, steps.len() as int) {
                Some(j) => j,
                None => i + 1,
            },
            None => i + 1,
        }
    }
}

/// The call that a tool step, or inner call `inner` of a group step, makes:
/// the name it is dispatched by (see [`short_name`]) and its arguments with
/// the context substituted.
pub open spec fn invoke_view(step: SequenceStep, inner: nat, ctx: Json, pause: nat) -> ActionView {
    match step.item {
        SequenceItem::Tool { tool_call } => ActionView::Invoke {
            tool_name: short_name(tool_call.tool_name@),
            arguments: substitute(tool_call.arguments@, ctx),
            pause,
        },
        SequenceItem::Group { tool_group } => ActionView::Invoke {
            tool_name: short_name(tool_group.steps@[inner as int].tool_name@),
            arguments: substitute(tool_group.steps@[inner as int].arguments@, ctx),
            pause,
        },
    }
}

pub open spec fn is_empty_group(step: SequenceStep) -> bool {
    step.item matches SequenceItem::Group { tool_group } && tool_group.steps@.len() == 0
}

pub open spec fn group_name_of(step: SequenceStep) -> Seq<char> {
    match step.item {
        SequenceItem::Group { tool_group } => tool_group.group_name@,
        _ => Seq::empty(),
    }
}

/// From between steps: skip what is to be skipped, and stop at the first
/// step that needs the caller (its condition, or its first call), or at the
/// end of the run. The run ends when the index leaves the list or the
/// iteration bound is reached.
pub open spec fn resume_spec(steps: Seq<SequenceStep>, ctx: Json, s: RunView, pause: nat) -> (
    RunView,
    ActionView,
)
    decreases steps.len() - s.index,
{
    if s.index >= steps.len() || s.iterations >= max_iterations(steps.len()) {
        (RunView { phase: Phase::Done, ..s }, ActionView::Finished { pause })
    } else {
        let i = s.index;
        let st = steps[i as int];
        let s1 = RunView { iterations: s.iterations + 1, ..s };
        if s.critical && !is_always(st.if_expr) {
            resume_spec(
                steps,
                ctx,
                RunView { index: i + 1, results: s1.results.push(critical_skip_record(i)), ..s1 },
                pause,
            )
        } else if st.if_expr is Some && !is_always(st.if_expr) {
            (
                RunView { phase: Phase::AwaitingCondition, ..s1 },
                ActionView::EvaluateCondition { index: i, expr: st.if_expr->0@, pause },
            )
        } else if is_empty_group(st) {
            resume_spec(
                steps,
                ctx,
                RunView {
                    index: i + 1,
                    results: s1.results.push(group_record(group_name_of(st), false, seq![])),
                    ..s1
                },
                pause,
            )
        } else {
            launch_spec(steps, ctx, s1, pause)
        }
    }
}

/// The first attempt at the current step (which is not an empty group).
pub open spec fn launch_spec(steps: Seq<SequenceStep>, ctx: Json, s: RunView, pause: nat) -> (
    RunView,
    ActionView,
) {
    let st = steps[s.index as int];
    match st.item {
        SequenceItem::Tool { .. } => (
            RunView { phase: Phase::AwaitingTool, attempt: 0, ..s },
            invoke_view(st, 0, ctx, pause),
        ),
        SequenceItem::Group { .. } => (
            RunView {
                phase: Phase::AwaitingGroupTool,
                attempt: 0,
                inner: 0,
                group_had_errors: false,
                group_results: seq![],
                ..s
            },
            invoke_view(st, 0, ctx, pause),
        ),
    }
}

/// After the condition of the current step has been evaluated.
pub open spec fn condition_spec(steps: Seq<SequenceStep>, ctx: Json, s: RunView, met: bool) -> (
    RunView,
    ActionView,
) {
    let i = s.index;
    let st = steps[i as int];
    if !met {
        resume_spec(
            steps,
            ctx,
            RunView {
                index: i + 1,
                results: s.results.push(condition_skip_record(i, st.if_expr->0@)),
                phase: Phase::Ready,
                ..s
            },
            0,
        )
    } else if is_empty_group(st) {
        resume_spec(
            steps,
            ctx,
            RunView {
                index: i + 1,
                results: s.results.push(group_record(group_name_of(st), false, seq![])),
                phase: Phase::Ready,
                ..s
            },
            0,
        )
    } else {
        launch_spec(steps, ctx, s, 0)
    }
}

/// Records the final result of the current step and moves on.
pub open spec fn finish_spec(
    steps: Seq<SequenceStep>,
    ctx: Json,
    s: RunView,
    succeeded: bool,
    record: Json,
    pause: nat,
) -> (RunView, ActionView) {
    resume_spec(
        steps,
        ctx,
        RunView {
            index: next_index(steps, s.index, succeeded),
            results: s.results.push(record),
            phase: Phase::Ready,
            ..s
        },
        pause,
    )
}

/// After a call of the current tool step: success ends the step; a failure
/// is critical unless the step may fail, waits the step's delay, and is
/// retried (after a further 500 ms) while attempts remain.
pub open spec fn tool_step_spec(
    steps: Seq<SequenceStep>,
    ctx: Json,
    s: RunView,
    outcome: Result<Seq<Json>, Seq<char>>,
    duration: nat,
    include_detailed: bool,
) -> (RunView, ActionView) {
    let st = steps[s.index as int];
    let tc = st.item->Tool_tool_call;
    let skippable = flag(tc.continue_on_error);
    let record = tool_record(
        tc.tool_name@,
        s.index,
        text_view(st.id),
        outcome,
        skippable,
        include_detailed,
        duration,
    );
    if outcome is Ok {
        finish_spec(steps, ctx, s, true, record, 0)
    } else {
        let s1 = RunView { critical: s.critical || !skippable, had_errors: true, ..s };
        let pause = delay_of(tc.delay_ms);
        if s.attempt < retries_of(st) {
            (
                RunView { attempt: s.attempt + 1, ..s1 },
                invoke_view(st, 0, ctx, sat_add(pause, 500)),
            )
        } else {
            finish_spec(steps, ctx, s1, false, record, pause)
        }
    }
}

/// After an inner call of the current group. The group stops early on a
/// failure that is critical or when the group may fail; the group's own
/// result is `success` only when no call failed; a failed group that may not
/// fail makes the run critical; a failed group
/// is rerun from its first call while attempts remain.
pub open spec fn group_step_spec(
    steps: Seq<SequenceStep>,
    ctx: Json,
    s: RunView,
    outcome: Result<Seq<Json>, Seq<char>>,
    duration: nat,
    include_detailed: bool,
) -> (RunView, ActionView) {
    let st = steps[s.index as int];
    let g = st.item->Group_tool_group;
    let tc = g.steps@[s.inner as int];
    let skippable_call = flag(tc.continue_on_error);
    let group_skippable = flag(g.skippable);
    let record = tool_record(
        tc.tool_name@,
        s.inner,
        text_view(tc.id),
        outcome,
        skippable_call,
        include_detailed,
        duration,
    );
    let failed = outcome is Err;
    let error_occurred = failed && !skippable_call;
    let stop = failed && (error_occurred || group_skippable);
    let s1 = RunView {
        group_results: s.group_results.push(record),
        group_had_errors: s.group_had_errors || failed,
        critical: s.critical || (error_occurred && !group_skippable),
        ..s
    };
    let pause = delay_of(tc.delay_ms);
    if !stop && s.inner + 1 < g.steps@.len() {
        (RunView { inner: s.inner + 1, ..s1 }, invoke_view(st, s.inner + 1, ctx, pause))
    } else {
        let s2 = RunView {
            had_errors: s1.had_errors || s1.group_had_errors,
            critical: s1.critical || (s1.group_had_errors && !group_skippable),
            group_results: seq![],
            ..s1
        };
        let grec = group_record(g.group_name@, s1.group_had_errors, s1.group_results);
        if !s1.group_had_errors {
            finish_spec(steps, ctx, s2, true, grec, pause)
        } else if s.attempt < retries_of(st) {
            (
                RunView {
                    attempt: s.attempt + 1,
                    inner: 0,
                    group_had_errors: false,
                    group_results: seq![],
                    ..s2
                },
                invoke_view(st, 0, ctx, sat_add(pause, 500)),
            )
        } else {
            finish_spec(steps, ctx, s2, false, grec, pause)
        }
    }
}

/// The state the engine keeps to itself: a phase that waits on a step names
/// a step that exists, and the call it waits on exists.
pub open spec fn run_wf(r: &SequenceRun) -> bool {
    &&& r.current_index <= r.steps@.len()
    &&& r.steps@.len() <= usize::MAX / 10
    &&& (r.phase is AwaitingCondition || r.phase is AwaitingTool || r.phase is AwaitingGroupTool)
        ==> r.current_index < r.steps@.len()
    &&& r.phase is AwaitingCondition ==> r.steps@[r.current_index as int].if_expr is Some
    &&& r.phase is AwaitingTool ==> r.steps@[r.current_index as int].item is Tool
    &&& r.phase is AwaitingGroupTool ==> (r.steps@[r.current_index as int].item matches SequenceItem::Group { tool_group } && r.inner < tool_group.steps@.len())
}

fn add_pause(a: u64, b: u64) -> (r: u64)
    ensures
        r as nat == sat_add(a as nat, b as nat),
{
    if a > u64::MAX - b {
        u64::MAX
    } else {
        a + b
    }
}

fn always_step(if_expr: &Option<String>) -> (r: bool)
    ensures
        r == is_always(*if_expr),
{
    match if_expr {
        Some(e) => {
            let cs = chars_of(e.as_str());
            let t = trimmed(&cs, 0, cs.len());
            assert(cs@.subrange(0, cs@.len() as int) =~= cs@);
            let lit = vec!['a', 'l', 'w', 'a', 'y', 's', '(', ')'];
            assert(lit@ =~= always_literal());
            same_chars(&t, &lit)
        },
        None => false,
    }
}

proof fn lemma_last_with_id(steps: Seq<SequenceStep>, id: Seq<char>, k: int)
    ensures
        last_with_id(steps, id, k) matches Some(j) ==> j < k,
    decreases k,
{
    if k > 0 {
        lemma_last_with_id(steps, id, k - 1);
    }
}

fn find_last_id(steps: &Vec<SequenceStep>, id: &String) -> (r: Option<usize>)
    ensures
        match last_with_id(steps@, id@, steps@.len() as int) {
            Some(j) => r == Some(j as usize),
            None => r is None,
        },
{
    let mut k = steps.len();
    while k > 0
        invariant
            k <= steps.len(),
            last_with_id(steps@, id@, k as int) == last_with_id(
                steps@,
                id@,
                steps@.len() as int,
            ),
        decreases k,
    {
        match &steps[k - 1].id {
            Some(s) => {
                if *s == *id {
                    return Some(k - 1);
                }
            },
            None => {},
        }
        k -= 1;
    }
    None
}

fn invoke_action(step: &SequenceStep, inner: usize, ctx: &JsonValue, pause: u64) -> (r: Action)
    requires
        step.item matches SequenceItem::Group { tool_group } ==> inner < tool_group.steps@.len(),
    ensures
        r@ == invoke_view(*step, inner as nat, ctx@, pause as nat),
{
    match &step.item {
        SequenceItem::Tool { tool_call } => Action::Invoke {
            tool_name: short_tool_name(tool_call.tool_name.as_str()),
            arguments: substituted(&tool_call.arguments, ctx),
            pause_ms: pause,
        },
        SequenceItem::Group { tool_group } => Action::Invoke {
            tool_name: short_tool_name(tool_group.steps[inner].tool_name.as_str()),
            arguments: substituted(&tool_group.steps[inner].arguments, ctx),
            pause_ms: pause,
        },
    }
}

fn empty_group(step: &SequenceStep) -> (r: bool)
    ensures
        r == is_empty_group(*step),
{
    match &step.item {
        SequenceItem::Group { tool_group } => tool_group.steps.len() == 0,
        _ => false,
    }
}

impl SequenceRun {
    /// A run over `steps`, about to consider the first one.
    pub fn new(steps: Vec<SequenceStep>, stop_on_error: bool, include_detailed: bool) -> (r:
        SequenceRun)
        requires
            steps@.len() <= usize::MAX / 10,
        ensures
            run_wf(&r),
            r.steps@ == steps@,
            r.stop_on_error == stop_on_error,
            r.include_detailed == include_detailed,
            r@ == (RunView {
                index: 0,
                iterations: 0,
                critical: false,
                had_errors: false,
                results: seq![],
                attempt: 0,
                inner: 0,
                group_had_errors: false,
                group_results: seq![],
                phase: Phase::Ready,
            }),
    {
        let r = SequenceRun {
            steps,
            stop_on_error,
            include_detailed,
            current_index: 0,
            iterations: 0,
            critical_error_occurred: false,
            had_errors: false,
            results: Vec::new(),
            attempt: 0,
            inner: 0,
            group_had_errors: false,
            group_results: Vec::new(),
            phase: Phase::Ready,
        };
        assert(view_items(r.results@) =~= seq![]);
        assert(view_items(r.group_results@) =~= seq![]);
        r
    }

    /// Sets up the first attempt at the current step.
    fn launch(&mut self, ctx: &JsonValue, pause: u64) -> (r: Action)
        requires
            run_wf(old(self)),
            old(self).current_index < old(self).steps@.len(),
            !is_empty_group(old(self).steps@[old(self).current_index as int]),
        ensures
            run_wf(final(self)),
            final(self).steps == old(self).steps,
            final(self).stop_on_error == old(self).stop_on_error,
            final(self).include_detailed == old(self).include_detailed,
            (final(self)@, r@) == launch_spec(old(self).steps@, ctx@, old(self)@, pause as nat),
    {
        self.attempt = 0;
        let i = self.current_index;
        let is_tool = match &self.steps[i].item {
            SequenceItem::Tool { .. } => true,
            _ => false,
        };
        if is_tool {
            self.phase = Phase::AwaitingTool;
        } else {
            self.phase = Phase::AwaitingGroupTool;
            self.inner = 0;
            self.group_had_errors = false;
            self.group_results = Vec::new();
            assert(view_items(self.group_results@) =~= seq![]);
        }
        invoke_action(&self.steps[i], 0, ctx, pause)
    }

    /// From between steps on to the next thing the caller must do.
    fn resume(&mut self, ctx: &JsonValue, pause: u64) -> (r: Action)
        requires
            run_wf(old(self)),
            old(self).phase == Phase::Ready,
        ensures
            run_wf(final(self)),
            final(self).steps == old(self).steps,
            final(self).stop_on_error == old(self).stop_on_error,
            final(self).include_detailed == old(self).include_detailed,
            (final(self)@, r@) == resume_spec(old(self).steps@, ctx@, old(self)@, pause as nat),
    {
        let ghost steps = self.steps@;
        let ghost goal = resume_spec(steps, ctx@, self@, pause as nat);
        loop
            invariant
                run_wf(self),
                self.steps == old(self).steps,
                self.stop_on_error == old(self).stop_on_error,
                self.include_detailed == old(self).include_detailed,
                steps == self.steps@,
                self.phase == Phase::Ready,
                goal == resume_spec(old(self).steps@, ctx@, old(self)@, pause as nat),
                resume_spec(steps, ctx@, self@, pause as nat) == goal,
            decreases steps.len() - self.current_index,
        {
            let ghost s0 = self@;
            let n = self.steps.len();
            if self.current_index >= n || self.iterations >= n * 10 {
                self.phase = Phase::Done;
                assert(self@ == RunView { phase: Phase::Done, ..s0 });
                return Action::Finished { pause_ms: pause };
            }
            let i = self.current_index;
            self.iterations = self.iterations + 1;
            let always = always_step(&self.steps[i].if_expr);
            if self.critical_error_occurred && !always {
                let ghost before = self.results@;
                self.results.push(critical_skip(i));
                proof {
                    assert(self.results@.drop_last() =~= before);
                }
                self.current_index = i + 1;
                assert(self@ == RunView {
                    index: s0.index + 1,
                    iterations: s0.iterations + 1,
                    results: s0.results.push(critical_skip_record(s0.index)),
                    ..s0
                });
                continue ;
            }
            let has_cond = self.steps[i].if_expr.is_some();
            if has_cond && !always {
                self.phase = Phase::AwaitingCondition;
                let expr = match &self.steps[i].if_expr {
                    Some(e) => e.clone(),
                    None => String::new(),
                };
                assert(self@ == RunView {
                    phase: Phase::AwaitingCondition,
                    iterations: s0.iterations + 1,
                    ..s0
                });
                return Action::EvaluateCondition { index: i, expr, pause_ms: pause };
            }
            if empty_group(&self.steps[i]) {
                let ghost before = self.results@;
                let name = match &self.steps[i].item {
                    SequenceItem::Group { tool_group } => tool_group.group_name.clone(),
                    _ => String::new(),
                };
                self.results.push(group_result(&name, false, Vec::new()));
                proof {
                    assert(self.results@.drop_last() =~= before);
                    assert(view_items(Seq::<JsonValue>::empty()) =~= seq![]);
                }
                self.current_index = i + 1;
                assert(self@ == RunView {
                    index: s0.index + 1,
                    iterations: s0.iterations + 1,
                    results: s0.results.push(group_record(group_name_of(steps[i as int]), false, seq![])),
                    ..s0
                });
                continue ;
            }
            assert(self@ == RunView { iterations: s0.iterations + 1, ..s0 });
            return self.launch(ctx, pause);
        }
    }

    /// Records the final result of the current step and moves on.
    fn finish(&mut self, succeeded: bool, record: JsonValue, ctx: &JsonValue, pause: u64) -> (r:
        Action)
        requires
            run_wf(old(self)),
            old(self).current_index < old(self).steps@.len(),
        ensures
            run_wf(final(self)),
            final(self).steps == old(self).steps,
            final(self).stop_on_error == old(self).stop_on_error,
            final(self).include_detailed == old(self).include_detailed,
            (final(self)@, r@) == finish_spec(
                old(self).steps@,
                ctx@,
                old(self)@,
                succeeded,
                record@,
                pause as nat,
            ),
    {
        let ghost before = self.results@;
        self.results.push(record);
        proof {
            assert(self.results@.drop_last() =~= before);
        }
        let i = self.current_index;
        proof {
            match self.steps@[i as int].fallback_id {
                Some(fb) => lemma_last_with_id(self.steps@, fb@, self.steps@.len() as int),
                None => {},
            }
        }
        let next = if succeeded {
            i + 1
        } else {
            match &self.steps[i].fallback_id {
                Some(fb) => match find_last_id(&self.steps, fb) {
                    Some(j) => j,
                    None => i + 1,
                },
                None => i + 1,
            }
        };
        self.current_index = next;
        self.phase = Phase::Ready;
        self.resume(ctx, pause)
    }

    /// Starts the run: the first thing the caller must do.
    pub fn start(&mut self, ctx: &JsonValue) -> (r: Action)
        requires
            run_wf(old(self)),
            old(self).phase == Phase::Ready,
        ensures
            run_wf(final(self)),
            final(self).steps == old(self).steps,
            final(self).stop_on_error == old(self).stop_on_error,
            final(self).include_detailed == old(self).include_detailed,
            (final(self)@, r@) == resume_spec(old(self).steps@, ctx@, old(self)@, 0),
    {
        self.resume(ctx, 0)
    }

    /// Reports the value of the condition the engine asked for.
    pub fn condition_evaluated(&mut self, met: bool, ctx: &JsonValue) -> (r: Action)
        requires
            run_wf(old(self)),
            old(self).phase == Phase::AwaitingCondition,
        ensures
            run_wf(final(self)),
            final(self).steps == old(self).steps,
            final(self).stop_on_error == old(self).stop_on_error,
            final(self).include_detailed == old(self).include_detailed,
            (final(self)@, r@) == condition_spec(old(self).steps@, ctx@, old(self)@, met),
    {
        let i = self.current_index;
        if !met {
            let ghost before = self.results@;
            let rec = match &self.steps[i].if_expr {
                Some(e) => condition_skip(i, e.as_str()),
                None => condition_skip(i, ""),
            };
            self.results.push(rec);
            proof {
                assert(self.results@.drop_last() =~= before);
            }
            self.current_index = i + 1;
            self.phase = Phase::Ready;
            return self.resume(ctx, 0);
        }
        if empty_group(&self.steps[i]) {
            let ghost before = self.results@;
            let name = match &self.steps[i].item {
                SequenceItem::Group { tool_group } => tool_group.group_name.clone(),
                _ => String::new(),
            };
            self.results.push(group_result(&name, false, Vec::new()));
            proof {
                assert(self.results@.drop_last() =~= before);
                assert(view_items(Seq::<JsonValue>::empty()) =~= seq![]);
            }
            self.current_index = i + 1;
            self.phase = Phase::Ready;
            return self.resume(ctx, 0);
        }
        self.launch(ctx, 0)
    }

    /// Reports the outcome of the call the engine asked for.
    pub fn tool_finished(&mut self, outcome: ToolOutcome, duration_ms: u64, ctx: &JsonValue) -> (r:
        Action)
        requires
            run_wf(old(self)),
            old(self).phase == Phase::AwaitingTool || old(self).phase == Phase::AwaitingGroupTool,
        ensures
            run_wf(final(self)),
            final(self).steps == old(self).steps,
            final(self).stop_on_error == old(self).stop_on_error,
            final(self).include_detailed == old(self).include_detailed,
            old(self).phase == Phase::AwaitingTool ==> (final(self)@, r@) == tool_step_spec(
                old(self).steps@,
                ctx@,
                old(self)@,
                outcome_view(outcome),
                duration_ms as nat,
                old(self).include_detailed,
            ),
            old(self).phase == Phase::AwaitingGroupTool ==> (final(self)@, r@) == group_step_spec(
                old(self).steps@,
                ctx@,
                old(self)@,
                outcome_view(outcome),
                duration_ms as nat,
                old(self).include_detailed,
            ),
    {
        let i = self.current_index;
        let ghost ov = outcome_view(outcome);
        let failed = match &outcome {
            ToolOutcome::Success(_) => false,
            ToolOutcome::Failure(_) => true,
        };
        if self.phase == Phase::AwaitingTool {
            let (skippable, delay, record) = match &self.steps[i].item {
                SequenceItem::Tool { tool_call } => {
                    let skippable = match tool_call.continue_on_error {
                        Some(b) => b,
                        None => false,
                    };
                    let delay = match tool_call.delay_ms {
                        Some(d) => d,
                        None => 0,
                    };
                    let record = tool_result(
                        &tool_call.tool_name,
                        i,
                        &self.steps[i].id,
                        outcome,
                        skippable,
                        self.include_detailed,
                        duration_ms,
                    );
                    (skippable, delay, record)
                },
                SequenceItem::Group { .. } => {
                    return Action::Finished { pause_ms: 0 };
                },
            };
            if !failed {
                return self.finish(true, record, ctx, 0);
            }
            if !skippable {
                self.critical_error_occurred = true;
            }
            self.had_errors = true;
            let retries = match self.steps[i].retries {
                Some(r) => r,
                None => 0,
            };
            if self.attempt < retries {
                self.attempt = self.attempt + 1;
                let p = add_pause(delay, 500);
                return invoke_action(&self.steps[i], 0, ctx, p);
            }
            return self.finish(false, record, ctx, delay);
        }
        let inner = self.inner;
        let (skippable_call, group_skippable, delay, record, n_inner, name) =
            match &self.steps[i].item {
            SequenceItem::Group { tool_group } => {
                let tc = &tool_group.steps[inner];
                let skippable_call = match tc.continue_on_error {
                    Some(b) => b,
                    None => false,
                };
                let group_skippable = match tool_group.skippable {
                    Some(b) => b,
                    None => false,
                };
                let delay = match tc.delay_ms {
                    Some(d) => d,
                    None => 0,
                };
                let record = tool_result(
                    &tc.tool_name,
                    inner,
                    &tc.id,
                    outcome,
                    skippable_call,
                    self.include_detailed,
                    duration_ms,
                );
                (
                    skippable_call,
                    group_skippable,
                    delay,
                    record,
                    tool_group.steps.len(),
                    tool_group.group_name.clone(),
                )
            },
            SequenceItem::Tool { .. } => {
                return Action::Finished { pause_ms: 0 };
            },
        };
        let ghost before = self.group_results@;
        self.group_results.push(record);
        proof {
            assert(self.group_results@.drop_last() =~= before);
        }
        let error_occurred = failed && !skippable_call;
        let stop = failed && (error_occurred || group_skippable);
        if failed {
            self.group_had_errors = true;
        }
        if error_occurred && !group_skippable {
            self.critical_error_occurred = true;
        }
        if !stop && inner + 1 < n_inner {
            self.inner = inner + 1;
            return invoke_action(&self.steps[i], inner + 1, ctx, delay);
        }
        if self.group_had_errors {
            self.had_errors = true;
            if !group_skippable {
                self.critical_error_occurred = true;
            }
        }
        let group_had_errors = self.group_had_errors;
        let mut results: Vec<JsonValue> = Vec::new();
        std::mem::swap(&mut results, &mut self.group_results);
        let grec = group_result(&name, group_had_errors, results);
        if !group_had_errors {
            assert(view_items(self.group_results@) =~= seq![]);
            return self.finish(true, grec, ctx, delay);
        }
        let retries = match self.steps[i].retries {
            Some(r) => r,
            None => 0,
        };
        if self.attempt < retries {
            self.attempt = self.attempt + 1;
            self.inner = 0;
            self.group_had_errors = false;
            assert(view_items(self.group_results@) =~= seq![]);
            let p = add_pause(delay, 500);
            return invoke_action(&self.steps[i], 0, ctx, p);
        }
        self.finish(false, grec, ctx, delay)
    }
}

impl SequenceRun {
    /// The aggregate status so far (see [`status_of`]).
    pub fn status(&self) -> (r: RunStatus)
        ensures
            r == status_of(self.had_errors, self.critical_error_occurred),
    {
        run_status(self.had_errors, self.critical_error_occurred)
    }

    /// Whether the run stopped at its iteration bound rather than at the end
    /// of the list.
    pub fn iteration_limit_reached(&self) -> (r: bool)
        requires
            run_wf(self),
        ensures
            r == (self.iterations >= max_iterations(self.steps@.len())),
    {
        self.iterations >= self.steps.len() * 10
    }
}

proof fn lemma_resume_keeps_flags(steps: Seq<SequenceStep>, ctx: Json, s: RunView, pause: nat)
    ensures
        resume_spec(steps, ctx, s, pause).0.had_errors == s.had_errors,
        resume_spec(steps, ctx, s, pause).0.critical == s.critical,
    decreases steps.len() - s.index,
{
    if !(s.index >= steps.len() || s.iterations >= max_iterations(steps.len())) {
        let i = s.index;
        let st = steps[i as int];
        let s1 = RunView { iterations: s.iterations + 1, ..s };
        if s.critical && !is_always(st.if_expr) {
            lemma_resume_keeps_flags(
                steps,
                ctx,
                RunView { index: i + 1, results: s1.results.push(critical_skip_record(i)), ..s1 },
                pause,
            );
        } else if st.if_expr is Some && !is_always(st.if_expr) {
        } else if is_empty_group(st) {
            lemma_resume_keeps_flags(
                steps,
                ctx,
                RunView {
                    index: i + 1,
                    results: s1.results.push(group_record(group_name_of(st), false, seq![])),
                    ..s1
                },
                pause,
            );
        }
    }
}

/// After a critical failure, a step whose `if` is `always()` still runs, and
/// every other step is recorded as skipped, without running, and the walk
/// moves on to the next step.
pub proof fn lemma_always_runs_after_critical_failure(
    steps: Seq<SequenceStep>,
    ctx: Json,
    s: RunView,
    pause: nat,
)
    requires
        s.critical,
        s.index < steps.len(),
        s.iterations < max_iterations(steps.len()),
    ensures
        !is_always(steps[s.index as int].if_expr) ==> resume_spec(steps, ctx, s, pause)
            == resume_spec(
            steps,
            ctx,
            RunView {
                index: s.index + 1,
                iterations: s.iterations + 1,
                results: s.results.push(critical_skip_record(s.index)),
                ..s
            },
            pause,
        ),
        is_always(steps[s.index as int].if_expr) && !is_empty_group(steps[s.index as int])
            ==> resume_spec(steps, ctx, s, pause) == launch_spec(
            steps,
            ctx,
            RunView { iterations: s.iterations + 1, ..s },
            pause,
        ),
{
}

/// How a tool step's outcome counts toward the run's status: a successful
/// call leaves the flags as they were; a failed call that may fail marks the
/// run as having errors without making it critical; any other failed call
/// makes it critical. So a run whose calls all succeed ends `success`, one
/// whose failures are all of calls that may fail ends
/// `completed_with_errors`, and one with a failed call that may not fail ends
/// `partial_success`.
pub proof fn lemma_tool_failures_and_status(
    steps: Seq<SequenceStep>,
    ctx: Json,
    s: RunView,
    outcome: Result<Seq<Json>, Seq<char>>,
    duration: nat,
    include_detailed: bool,
)
    requires
        s.index < steps.len(),
        steps[s.index as int].item is Tool,
    ensures
        outcome is Ok ==> tool_step_spec(steps, ctx, s, outcome, duration, include_detailed).0.had_errors
            == s.had_errors && tool_step_spec(
            steps,
            ctx,
            s,
            outcome,
            duration,
            include_detailed,
        ).0.critical == s.critical,
        outcome is Err && flag(steps[s.index as int].item->Tool_tool_call.continue_on_error)
            ==> tool_step_spec(steps, ctx, s, outcome, duration, include_detailed).0.had_errors
            && tool_step_spec(steps, ctx, s, outcome, duration, include_detailed).0.critical
            == s.critical,
        outcome is Err && !flag(steps[s.index as int].item->Tool_tool_call.continue_on_error)
            ==> tool_step_spec(steps, ctx, s, outcome, duration, include_detailed).0.had_errors
            && tool_step_spec(steps, ctx, s, outcome, duration, include_detailed).0.critical,
        status_of(false, s.critical) == RunStatus::Success,
        status_of(true, false) == RunStatus::CompletedWithErrors,
        status_of(true, true) == RunStatus::PartialSuccess,
{
    let st = steps[s.index as int];
    let tc = st.item->Tool_tool_call;
    let skippable = flag(tc.continue_on_error);
    let record = tool_record(
        tc.tool_name@,
        s.index,
        text_view(st.id),
        outcome,
        skippable,
        include_detailed,
        duration,
    );
    if outcome is Ok {
        lemma_resume_keeps_flags(
            steps,
            ctx,
            RunView {
                index: next_index(steps, s.index, true),
                results: s.results.push(record),
                phase: Phase::Ready,
                ..s
            },
            0,
        );
    } else {
        let s1 = RunView { critical: s.critical || !skippable, had_errors: true, ..s };
        lemma_resume_keeps_flags(
            steps,
            ctx,
            RunView {
                index: next_index(steps, s.index, false),
                results: s1.results.push(record),
                phase: Phase::Ready,
                ..s1
            },
            delay_of(tc.delay_ms),
        );
    }
}

/// What the caller reports back to the engine: the value of a condition, or
/// the outcome of a call and how long it took.
pub enum Reply {
    Condition(bool),
    Outcome(Result<Seq<Json>, Seq<char>>, nat),
}

/// A run that has not started.
pub open spec fn initial_view() -> RunView {
    RunView {
        index: 0,
        iterations: 0,
        critical: false,
        had_errors: false,
        results: seq![],
        attempt: 0,
        inner: 0,
        group_had_errors: false,
        group_results: seq![],
        phase: Phase::Ready,
    }
}

/// The engine's answer to one reply, as [`SequenceRun::condition_evaluated`]
/// and [`SequenceRun::tool_finished`] give it; a reply that does not fit the
/// phase changes nothing.
pub open spec fn respond(
    steps: Seq<SequenceStep>,
    ctx: Json,
    include_detailed: bool,
    s: RunView,
    a: ActionView,
    reply: Reply,
) -> (RunView, ActionView) {
    match reply {
        Reply::Condition(met) => if s.phase == Phase::AwaitingCondition {
            condition_spec(steps, ctx, s, met)
        } else {
            (s, a)
        },
        Reply::Outcome(o, d) => if s.phase == Phase::AwaitingTool {
            tool_step_spec(steps, ctx, s, o, d, include_detailed)
        } else if s.phase == Phase::AwaitingGroupTool {
            group_step_spec(steps, ctx, s, o, d, include_detailed)
        } else {
            (s, a)
        },
    }
}

/// The run after [`SequenceRun::start`] and the given replies, in turn.
pub open spec fn run_after(
    steps: Seq<SequenceStep>,
    ctx: Json,
    include_detailed: bool,
    replies: Seq<Reply>,
) -> (RunView, ActionView)
    decreases replies.len(),
{
    if replies.len() == 0 {
        resume_spec(steps, ctx, initial_view(), 0)
    } else {
        let p = run_after(steps, ctx, include_detailed, replies.drop_last());
        respond(steps, ctx, include_detailed, p.0, p.1, replies.last())
    }
}

/// Whether a reply given in state `s` reports a failed call.
pub open spec fn reply_fails(s: RunView, reply: Reply) -> bool {
    (s.phase == Phase::AwaitingTool || s.phase == Phase::AwaitingGroupTool) && (reply matches Reply::Outcome(
        o,
        _,
    ) && o is Err)
}

/// Whether a reply given in state `s` reports a failed tool step that may
/// not fail.
pub open spec fn reply_critical(steps: Seq<SequenceStep>, s: RunView, reply: Reply) -> bool {
    s.phase == Phase::AwaitingTool && (reply matches Reply::Outcome(o, _) && o is Err) && !flag(
        steps[s.index as int].item->Tool_tool_call.continue_on_error,
    )
}

/// Whether any of the replies reported a failed call.
pub open spec fn any_failure(
    steps: Seq<SequenceStep>,
    ctx: Json,
    include_detailed: bool,
    replies: Seq<Reply>,
) -> bool
    decreases replies.len(),
{
    replies.len() > 0 && (any_failure(steps, ctx, include_detailed, replies.drop_last())
        || reply_fails(run_after(steps, ctx, include_detailed, replies.drop_last()).0, replies.last()))
}

/// Whether any of the replies reported a failed step that may not fail.
pub open spec fn any_critical_failure(
    steps: Seq<SequenceStep>,
    ctx: Json,
    include_detailed: bool,
    replies: Seq<Reply>,
) -> bool
    decreases replies.len(),
{
    replies.len() > 0 && (any_critical_failure(steps, ctx, include_detailed, replies.drop_last())
        || reply_critical(
        steps,
        run_after(steps, ctx, include_detailed, replies.drop_last()).0,
        replies.last(),
    ))
}

pub open spec fn all_tool_steps(steps: Seq<SequenceStep>) -> bool {
    forall|i: int| 0 <= i < steps.len() ==> (#[trigger] steps[i]).item is Tool
}

/// Where a run of tool steps can stand: done, or waiting on an existing step
/// for its condition or its call.
pub open spec fn tool_run_shape(steps: Seq<SequenceStep>, s: RunView) -> bool {
    s.phase == Phase::Done || ((s.phase == Phase::AwaitingCondition || s.phase
        == Phase::AwaitingTool) && s.index < steps.len())
}

proof fn lemma_resume_shape(steps: Seq<SequenceStep>, ctx: Json, s: RunView, pause: nat)
    requires
        all_tool_steps(steps),
    ensures
        tool_run_shape(steps, resume_spec(steps, ctx, s, pause).0),
    decreases steps.len() - s.index,
{
    if !(s.index >= steps.len() || s.iterations >= max_iterations(steps.len())) {
        let i = s.index;
        let st = steps[i as int];
        let s1 = RunView { iterations: s.iterations + 1, ..s };
        assert(st.item is Tool);
        if s.critical && !is_always(st.if_expr) {
            lemma_resume_shape(
                steps,
                ctx,
                RunView { index: i + 1, results: s1.results.push(critical_skip_record(i)), ..s1 },
                pause,
            );
        }
    }
}

proof fn lemma_condition_keeps_flags(steps: Seq<SequenceStep>, ctx: Json, s: RunView, met: bool)
    requires
        s.index < steps.len(),
    ensures
        condition_spec(steps, ctx, s, met).0.had_errors == s.had_errors,
        condition_spec(steps, ctx, s, met).0.critical == s.critical,
{
    let i = s.index;
    let st = steps[i as int];
    if !met {
        lemma_resume_keeps_flags(
            steps,
            ctx,
            RunView {
                index: i + 1,
                results: s.results.push(condition_skip_record(i, st.if_expr->0@)),
                phase: Phase::Ready,
                ..s
            },
            0,
        );
    } else if is_empty_group(st) {
        lemma_resume_keeps_flags(
            steps,
            ctx,
            RunView {
                index: i + 1,
                results: s.results.push(group_record(group_name_of(st), false, seq![])),
                phase: Phase::Ready,
                ..s
            },
            0,
        );
    }
}

proof fn lemma_tool_step_shape(
    steps: Seq<SequenceStep>,
    ctx: Json,
    s: RunView,
    o: Result<Seq<Json>, Seq<char>>,
    d: nat,
    det: bool,
)
    requires
        all_tool_steps(steps),
        s.index < steps.len(),
        s.phase == Phase::AwaitingTool,
    ensures
        tool_run_shape(steps, tool_step_spec(steps, ctx, s, o, d, det).0),
{
    let st = steps[s.index as int];
    let tc = st.item->Tool_tool_call;
    let skippable = flag(tc.continue_on_error);
    let record = tool_record(tc.tool_name@, s.index, text_view(st.id), o, skippable, det, d);
    if o is Ok {
        lemma_resume_shape(
            steps,
            ctx,
            RunView {
                index: next_index(steps, s.index, true),
                results: s.results.push(record),
                phase: Phase::Ready,
                ..s
            },
            0,
        );
    } else if !(s.attempt < retries_of(st)) {
        let s1 = RunView { critical: s.critical || !skippable, had_errors: true, ..s };
        lemma_resume_shape(
            steps,
            ctx,
            RunView {
                index: next_index(steps, s.index, false),
                results: s1.results.push(record),
                phase: Phase::Ready,
                ..s1
            },
            delay_of(tc.delay_ms),
        );
    }
}

proof fn lemma_condition_shape(steps: Seq<SequenceStep>, ctx: Json, s: RunView, met: bool)
    requires
        all_tool_steps(steps),
        s.index < steps.len(),
    ensures
        tool_run_shape(steps, condition_spec(steps, ctx, s, met).0),
{
    let i = s.index;
    let st = steps[i as int];
    assert(st.item is Tool);
    if !met {
        lemma_resume_shape(
            steps,
            ctx,
            RunView {
                index: i + 1,
                results: s.results.push(condition_skip_record(i, st.if_expr->0@)),
                phase: Phase::Ready,
                ..s
            },
            0,
        );
    }
}

/// In a run of tool steps the flags record the replies exactly: the run has
/// errors when some reply reported a failed call, and it is critical when
/// some reply reported a failed step that may not fail. So its status is
/// `success` when every call succeeded, `completed_with_errors` when calls
/// failed but all of them may fail, and `partial_success` when a step that
/// may not fail failed.
pub proof fn lemma_run_status(
    steps: Seq<SequenceStep>,
    ctx: Json,
    include_detailed: bool,
    replies: Seq<Reply>,
)
    requires
        all_tool_steps(steps),
    ensures
        run_after(steps, ctx, include_detailed, replies).0.had_errors == any_failure(
            steps,
            ctx,
            include_detailed,
            replies,
        ),
        run_after(steps, ctx, include_detailed, replies).0.critical == any_critical_failure(
            steps,
            ctx,
            include_detailed,
            replies,
        ),
        tool_run_shape(steps, run_after(steps, ctx, include_detailed, replies).0),
        !any_failure(steps, ctx, include_detailed, replies) ==> status_of(
            run_after(steps, ctx, include_detailed, replies).0.had_errors,
            run_after(steps, ctx, include_detailed, replies).0.critical,
        ) == RunStatus::Success,
        any_failure(steps, ctx, include_detailed, replies) && !any_critical_failure(
            steps,
            ctx,
            include_detailed,
            replies,
        ) ==> status_of(
            run_after(steps, ctx, include_detailed, replies).0.had_errors,
            run_after(steps, ctx, include_detailed, replies).0.critical,
        ) == RunStatus::CompletedWithErrors,
        any_critical_failure(steps, ctx, include_detailed, replies) ==> status_of(
            run_after(steps, ctx, include_detailed, replies).0.had_errors,
            run_after(steps, ctx, include_detailed, replies).0.critical,
        ) == RunStatus::PartialSuccess,
    decreases replies.len(),
{
    if replies.len() == 0 {
        lemma_resume_keeps_flags(steps, ctx, initial_view(), 0);
        lemma_resume_shape(steps, ctx, initial_view(), 0);
    } else {
        let prev = replies.drop_last();
        lemma_run_status(steps, ctx, include_detailed, prev);
        let p = run_after(steps, ctx, include_detailed, prev);
        let s = p.0;
        let reply = replies.last();
        match reply {
            Reply::Condition(met) => {
                if s.phase == Phase::AwaitingCondition {
                    lemma_condition_keeps_flags(steps, ctx, s, met);
                    lemma_condition_shape(steps, ctx, s, met);
                }
            },
            Reply::Outcome(o, d) => {
                if s.phase == Phase::AwaitingTool {
                    assert(steps[s.index as int].item is Tool);
                    lemma_tool_failures_and_status(steps, ctx, s, o, d, include_detailed);
                    lemma_tool_step_shape(steps, ctx, s, o, d, include_detailed);
                }
            },
        }
    }
}

proof fn lemma_respond_keeps_critical(
    steps: Seq<SequenceStep>,
    ctx: Json,
    det: bool,
    s: RunView,
    a: ActionView,
    reply: Reply,
)
    requires
        s.critical,
    ensures
        respond(steps, ctx, det, s, a, reply).0.critical,
{
    match reply {
        Reply::Condition(met) => {
            if s.phase == Phase::AwaitingCondition {
                let i = s.index;
                let st = steps[i as int];
                if !met {
                    lemma_resume_keeps_flags(
                        steps,
                        ctx,
                        RunView {
                            index: i + 1,
                            results: s.results.push(condition_skip_record(i, st.if_expr->0@)),
                            phase: Phase::Ready,
                            ..s
                        },
                        0,
                    );
                } else if is_empty_group(st) {
                    lemma_resume_keeps_flags(
                        steps,
                        ctx,
                        RunView {
                            index: i + 1,
                            results: s.results.push(group_record(group_name_of(st), false, seq![])),
                            phase: Phase::Ready,
                            ..s
                        },
                        0,
                    );
                }
            }
        },
        Reply::Outcome(o, d) => {
            if s.phase == Phase::AwaitingTool {
                let st = steps[s.index as int];
                let tc = st.item->Tool_tool_call;
                let skippable = flag(tc.continue_on_error);
                let record = tool_record(tc.tool_name@, s.index, text_view(st.id), o, skippable, det, d);
                let s1 = RunView { critical: s.critical || !skippable, had_errors: true, ..s };
                lemma_resume_keeps_flags(
                    steps,
                    ctx,
                    RunView {
                        index: next_index(steps, s.index, true),
                        results: s.results.push(record),
                        phase: Phase::Ready,
                        ..s
                    },
                    0,
                );
                lemma_resume_keeps_flags(
                    steps,
                    ctx,
                    RunView {
                        index: next_index(steps, s.index, false),
                        results: s1.results.push(record),
                        phase: Phase::Ready,
                        ..s1
                    },
                    delay_of(tc.delay_ms),
                );
            } else if s.phase == Phase::AwaitingGroupTool {
                let st = steps[s.index as int];
                let g = st.item->Group_tool_group;
                let tc = g.steps@[s.inner as int];
                let skippable_call = flag(tc.continue_on_error);
                let group_skippable = flag(g.skippable);
                let record = tool_record(
                    tc.tool_name@,
                    s.inner,
                    text_view(tc.id),
                    o,
                    skippable_call,
                    det,
                    d,
                );
                let failed = o is Err;
                let error_occurred = failed && !skippable_call;
                let s1 = RunView {
                    group_results: s.group_results.push(record),
                    group_had_errors: s.group_had_errors || failed,
                    critical: s.critical || (error_occurred && !group_skippable),
                    ..s
                };
                let s2 = RunView {
                    had_errors: s1.had_errors || s1.group_had_errors,
                    critical: s1.critical || (s1.group_had_errors && !group_skippable),
                    group_results: seq![],
                    ..s1
                };
                let grec = group_record(g.group_name@, s1.group_had_errors, s1.group_results);
                lemma_resume_keeps_flags(
                    steps,
                    ctx,
                    RunView {
                        index: next_index(steps, s2.index, true),
                        results: s2.results.push(grec),
                        phase: Phase::Ready,
                        ..s2
                    },
                    delay_of(tc.delay_ms),
                );
                lemma_resume_keeps_flags(
                    steps,
                    ctx,
                    RunView {
                        index: next_index(steps, s2.index, false),
                        results: s2.results.push(grec),
                        phase: Phase::Ready,
                        ..s2
                    },
                    delay_of(tc.delay_ms),
                );
            }
        },
    }
}

/// Once the run is critical it stays critical for every later reply, of
/// tool and group steps alike. With
/// [`lemma_always_runs_after_critical_failure`], every later step whose `if`
/// is not `always()` is recorded as skipped without running, and an
/// `always()` step still runs.
pub proof fn lemma_critical_persists(
    steps: Seq<SequenceStep>,
    ctx: Json,
    include_detailed: bool,
    replies: Seq<Reply>,
    k: int,
)
    requires
        0 <= k <= replies.len(),
        run_after(steps, ctx, include_detailed, replies.subrange(0, k)).0.critical,
    ensures
        run_after(steps, ctx, include_detailed, replies).0.critical,
    decreases replies.len() - k,
{
    if k < replies.len() {
        let pre = replies.subrange(0, k);
        let next = replies.subrange(0, k + 1);
        assert(next.drop_last() =~= pre);
        assert(next.last() == replies[k]);
        let p = run_after(steps, ctx, include_detailed, pre);
        lemma_respond_keeps_critical(steps, ctx, include_detailed, p.0, p.1, replies[k]);
        lemma_critical_persists(steps, ctx, include_detailed, replies, k + 1);
    } else {
        assert(replies.subrange(0, k) =~= replies);
    }
}

} // verus!
