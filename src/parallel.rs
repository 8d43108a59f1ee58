//! The parallel step engine: runs flat tool steps position by position, a
//! solo step on its own and a parallel group as one concurrent batch, and
//! appends each batch's results in original step order, whatever order the
//! calls completed in.
//!
//! Which positions form groups comes from the caller's plan. Conditions,
//! retries, fallbacks and groups of the sequential engine are not evaluated
//! in this mode.
use crate::helpers::{short_name, short_tool_name};
use crate::json::{lemma_view_items, text_view, view_items, Json, JsonValue};
use crate::records::{
    outcome_view, run_status, status_of, tool_record, tool_result, RunStatus, ToolOutcome,
};
use crate::sequence::{delay_of, flag, ToolCall};
use crate::template::{substitute, substituted};
use vstd::prelude::*;

verus! {

/// The next batch of calls the caller is to make.
#[derive(Debug)]
pub enum Batch {
    /// Run step `index` alone, then report with [`ParallelRun::solo_finished`].
    Solo { index: usize, tool_name: String, arguments: JsonValue },
    /// Run these calls concurrently, then report all outcomes, in any order,
    /// with [`ParallelRun::group_finished`].
    Concurrent { calls: Vec<(usize, String, JsonValue)> },
    /// Nothing is left to run.
    Finished,
}

/// The state of a parallel run.
pub struct ParallelRun {
    pub steps: Vec<ToolCall>,
    /// Positions run on their own, in ascending order.
    pub solo: Vec<usize>,
    /// Groups of positions run together, in the order they are reached.
    pub groups: Vec<Vec<usize>>,
    pub stop_on_error: bool,
    pub include_detailed: bool,
    pub position: usize,
    pub seq_idx: usize,
    pub par_idx: usize,
    /// Whether any call has failed.
    pub had_errors: bool,
    /// Whether a call that may not fail has failed.
    pub critical_error_occurred: bool,
    pub results: Vec<JsonValue>,
}

pub open spec fn plan_in_range(n: nat, solo: Seq<usize>, groups: Seq<Vec<usize>>) -> bool {
    &&& forall|i: int| 0 <= i < solo.len() ==> #[trigger] solo[i] < n
    &&& forall|g: int, k: int|
        0 <= g < groups.len() && 0 <= k < groups[g]@.len() ==> #[trigger] groups[g]@[k] < n
}

pub open spec fn par_wf(r: &ParallelRun) -> bool {
    &&& plan_in_range(r.steps@.len(), r.solo@, r.groups@)
    &&& r.position <= r.steps@.len()
    &&& r.seq_idx <= r.solo@.len()
    &&& r.par_idx <= r.groups@.len()
}

/// Whether the run stops before starting another position.
pub open spec fn halted(r: &ParallelRun) -> bool {
    r.critical_error_occurred && r.stop_on_error
}

/// Where the walk over positions stops next: the first position from `p` on
/// that is the next solo position or belongs to the next group, unless the
/// run has halted.
pub open spec fn next_stop(
    n: int,
    solo: Seq<usize>,
    groups: Seq<Vec<usize>>,
    seq_idx: int,
    par_idx: int,
    halt: bool,
    p: int,
) -> Option<int>
    decreases n - p,
{
    if p < 0 || p >= n || halt {
        None
    } else if (seq_idx < solo.len() && solo[seq_idx] == p) || (par_idx < groups.len()
        && groups[par_idx]@.contains(p as usize)) {
        Some(p)
    } else {
        next_stop(n, solo, groups, seq_idx, par_idx, halt, p + 1)
    }
}

/// Where the walk of run `r` stops next, from its current position.
pub open spec fn stop_of(r: &ParallelRun) -> Option<int> {
    next_stop(
        r.steps@.len() as int,
        r.solo@,
        r.groups@,
        r.seq_idx as int,
        r.par_idx as int,
        halted(r),
        r.position as int,
    )
}

/// The calls of a group, in the group's order: the names they are
/// dispatched by and their substituted arguments.
pub open spec fn group_calls(steps: Seq<ToolCall>, g: Seq<usize>, ctx: Json) -> Seq<
    (nat, Seq<char>, Json),
> {
    Seq::new(
        g.len(),
        |k: int|
            (
                g[k] as nat,
                short_name(steps[g[k] as int].tool_name@),
                substitute(steps[g[k] as int].arguments@, ctx),
            ),
    )
}

pub open spec fn calls_view(c: Seq<(usize, String, JsonValue)>) -> Seq<(nat, Seq<char>, Json)> {
    Seq::new(c.len(), |k: int| (c[k].0 as nat, c[k].1@, c[k].2@))
}

/// The first outcome reported for position `k`.
pub open spec fn first_for(outs: Seq<(usize, ToolOutcome, u64)>, k: nat, from: int) -> Option<int>
    decreases outs.len() - from,
{
    if from < 0 || from >= outs.len() {
        None
    } else if outs[from].0 == k {
        Some(from)
    } else {
        first_for(outs, k, from + 1)
    }
}

/// The record of the outcome reported for position `k` of the run.
pub open spec fn member_record(
    steps: Seq<ToolCall>,
    outs: Seq<(usize, ToolOutcome, u64)>,
    j: int,
    include_detailed: bool,
) -> Json {
    let k = outs[j].0;
    tool_record(
        steps[k as int].tool_name@,
        k as nat,
        text_view(steps[k as int].id),
        outcome_view(outs[j].1),
        flag(steps[k as int].continue_on_error),
        include_detailed,
        outs[j].2 as nat,
    )
}

/// The positions below `k` that have an outcome, in ascending order.
pub open spec fn reported(outs: Seq<(usize, ToolOutcome, u64)>, k: nat) -> Seq<nat>
    decreases k,
{
    if k == 0 {
        seq![]
    } else if first_for(outs, (k - 1) as nat, 0) is Some {
        reported(outs, (k - 1) as nat).push((k - 1) as nat)
    } else {
        reported(outs, (k - 1) as nat)
    }
}

/// The records of a concurrent batch, one per reported position below `k`,
/// in ascending order of position.
pub open spec fn ordered_records(
    steps: Seq<ToolCall>,
    outs: Seq<(usize, ToolOutcome, u64)>,
    k: nat,
    include_detailed: bool,
) -> Seq<Json>
    decreases k,
{
    if k == 0 {
        seq![]
    } else {
        match first_for(outs, (k - 1) as nat, 0) {
            Some(j) => ordered_records(steps, outs, (k - 1) as nat, include_detailed).push(
                member_record(steps, outs, j, include_detailed),
            ),
            None => ordered_records(steps, outs, (k - 1) as nat, include_detailed),
        }
    }
}

/// Whether the outcome reported for some position below `k` failed; with
/// `critical_only`, whether such a failure was of a call that may not fail.
pub open spec fn any_failed(
    steps: Seq<ToolCall>,
    outs: Seq<(usize, ToolOutcome, u64)>,
    k: nat,
    critical_only: bool,
) -> bool
    decreases k,
{
    if k == 0 {
        false
    } else {
        any_failed(steps, outs, (k - 1) as nat, critical_only) || match first_for(
            outs,
            (k - 1) as nat,
            0,
        ) {
            Some(j) => outs[j].1 is Failure && (!critical_only || !flag(
                steps[(k - 1) as int].continue_on_error,
            )),
            None => false,
        }
    }
}

proof fn lemma_first_for(outs: Seq<(usize, ToolOutcome, u64)>, k: nat, from: int)
    requires
        0 <= from,
    ensures
        first_for(outs, k, from) matches Some(j) ==> from <= j < outs.len() && outs[j].0 == k,
    decreases outs.len() - from,
{
    if from < outs.len() && outs[from].0 != k {
        lemma_first_for(outs, k, from + 1);
    }
}

proof fn lemma_reported_ascending(outs: Seq<(usize, ToolOutcome, u64)>, k: nat)
    ensures
        forall|a: int, b: int|
            0 <= a < b < reported(outs, k).len() ==> reported(outs, k)[a] < reported(outs, k)[b],
        forall|a: int| 0 <= a < reported(outs, k).len() ==> reported(outs, k)[a] < k,
    decreases k,
{
    if k > 0 {
        lemma_reported_ascending(outs, (k - 1) as nat);
        let r0 = reported(outs, (k - 1) as nat);
        if first_for(outs, (k - 1) as nat, 0) is Some {
            assert(reported(outs, k) == r0.push((k - 1) as nat));
            assert forall|a: int, b: int|
                0 <= a < b < reported(outs, k).len() implies reported(outs, k)[a] < reported(
                outs,
                k,
            )[b] by {
                if b == r0.len() {
                    assert(reported(outs, k)[a] == r0[a]);
                }
            }
        }
    }
}

proof fn lemma_ordered_is_reported(
    steps: Seq<ToolCall>,
    outs: Seq<(usize, ToolOutcome, u64)>,
    k: nat,
    include_detailed: bool,
)
    ensures
        ordered_records(steps, outs, k, include_detailed).len() == reported(outs, k).len(),
        forall|t: int|
            0 <= t < reported(outs, k).len() ==> #[trigger] ordered_records(
                steps,
                outs,
                k,
                include_detailed,
            )[t] == member_record(
                steps,
                outs,
                first_for(outs, reported(outs, k)[t], 0)->0,
                include_detailed,
            ),
    decreases k,
{
    if k > 0 {
        lemma_ordered_is_reported(steps, outs, (k - 1) as nat, include_detailed);
    }
}

/// The results of a concurrent batch keep the original step order whatever
/// order the calls completed in: the t-th record appended is that of the t-th
/// smallest reported position, so the positions of the records ascend.
pub proof fn lemma_batch_results_in_step_order(
    steps: Seq<ToolCall>,
    outs: Seq<(usize, ToolOutcome, u64)>,
    n: nat,
    include_detailed: bool,
)
    ensures
        ordered_records(steps, outs, n, include_detailed).len() == reported(outs, n).len(),
        forall|a: int, b: int|
            0 <= a < b < reported(outs, n).len() ==> reported(outs, n)[a] < reported(outs, n)[b],
        forall|t: int|
            0 <= t < reported(outs, n).len() ==> #[trigger] ordered_records(
                steps,
                outs,
                n,
                include_detailed,
            )[t] == member_record(
                steps,
                outs,
                first_for(outs, reported(outs, n)[t], 0)->0,
                include_detailed,
            ),
{
    lemma_reported_ascending(outs, n);
    lemma_ordered_is_reported(steps, outs, n, include_detailed);
}

fn copy_outcome(o: &ToolOutcome) -> (r: ToolOutcome)
    ensures
        outcome_view(r) == outcome_view(*o),
{
    match o {
        ToolOutcome::Success(c) => {
            let mut out: Vec<JsonValue> = Vec::new();
            let mut i: usize = 0;
            while i < c.len()
                invariant
                    i <= c.len(),
                    out.len() == i,
                    forall|k: int| 0 <= k < i ==> (#[trigger] out@[k])@ == c@[k]@,
                decreases c.len() - i,
            {
                out.push(c[i].deep_copy());
                i += 1;
            }
            proof {
                lemma_view_items(out@);
                lemma_view_items(c@);
                assert(view_items(out@) =~= view_items(c@));
            }
            ToolOutcome::Success(out)
        },
        ToolOutcome::Failure(e) => ToolOutcome::Failure(e.clone()),
    }
}

fn find_first(outs: &Vec<(usize, ToolOutcome, u64)>, k: usize) -> (r: Option<usize>)
    ensures
        match first_for(outs@, k as nat, 0) {
            Some(j) => r == Some(j as usize),
            None => r is None,
        },
        r matches Some(x) ==> first_for(outs@, k as nat, 0) == Some(x as int),
{
    let mut j: usize = 0;
    while j < outs.len()
        invariant
            j <= outs.len(),
            first_for(outs@, k as nat, j as int) == first_for(outs@, k as nat, 0),
        decreases outs.len() - j,
    {
        if outs[j].0 == k {
            return Some(j);
        }
        j += 1;
    }
    None
}

fn group_contains(g: &Vec<usize>, p: usize) -> (r: bool)
    ensures
        r == g@.contains(p),
{
    let mut k: usize = 0;
    while k < g.len()
        invariant
            k <= g.len(),
            forall|t: int| 0 <= t < k ==> g@[t] != p,
        decreases g.len() - k,
    {
        if g[k] == p {
            return true;
        }
        k += 1;
    }
    false
}

impl ParallelRun {
    /// A run over flat tool steps with the caller's plan: `solo` positions
    /// run alone and `groups` of positions run together.
    pub fn new(
        steps: Vec<ToolCall>,
        solo: Vec<usize>,
        groups: Vec<Vec<usize>>,
        stop_on_error: bool,
        include_detailed: bool,
    ) -> (r: ParallelRun)
        requires
            plan_in_range(steps@.len(), solo@, groups@),
        ensures
            par_wf(&r),
            r.steps@ == steps@,
            r.solo@ == solo@,
            r.groups@ == groups@,
            r.stop_on_error == stop_on_error,
            r.include_detailed == include_detailed,
            r.position == 0 && r.seq_idx == 0 && r.par_idx == 0,
            !r.had_errors && !r.critical_error_occurred,
            r.results@.len() == 0,
    {
        ParallelRun {
            steps,
            solo,
            groups,
            stop_on_error,
            include_detailed,
            position: 0,
            seq_idx: 0,
            par_idx: 0,
            had_errors: false,
            critical_error_occurred: false,
            results: Vec::new(),
        }
    }

    /// The next batch: the next solo step, or the next group, whichever the
    /// walk over positions reaches first; nothing once the positions are used
    /// up or a critical failure has stopped a run that stops on errors.
    pub fn next_batch(&mut self, ctx: &JsonValue) -> (r: Batch)
        requires
            par_wf(old(self)),
        ensures
            par_wf(final(self)),
            final(self).steps == old(self).steps,
            final(self).solo == old(self).solo,
            final(self).groups == old(self).groups,
            final(self).results == old(self).results,
            final(self).had_errors == old(self).had_errors,
            final(self).critical_error_occurred == old(self).critical_error_occurred,
            final(self).stop_on_error == old(self).stop_on_error,
            final(self).include_detailed == old(self).include_detailed,
            match stop_of(old(self)) {
                None => r is Finished,
                Some(p) => final(self).position == p + 1 && if old(self).seq_idx < old(
                    self,
                ).solo@.len() && old(self).solo@[old(self).seq_idx as int] == p {
                    &&& final(self).seq_idx == old(self).seq_idx + 1
                    &&& final(self).par_idx == old(self).par_idx
                    &&& r matches Batch::Solo { index, tool_name, arguments } && index == p
                        && tool_name@ == short_name(old(self).steps@[p].tool_name@) && arguments@
                        == substitute(old(self).steps@[p].arguments@, ctx@)
                } else {
                    &&& final(self).seq_idx == old(self).seq_idx
                    &&& final(self).par_idx == old(self).par_idx + 1
                    &&& r matches Batch::Concurrent { calls } && calls_view(calls@)
                        == group_calls(
                        old(self).steps@,
                        old(self).groups@[old(self).par_idx as int]@,
                        ctx@,
                    )
                },
            },
    {
        let n = self.steps.len();
        while self.position < n
            invariant
                par_wf(self),
                self.steps == old(self).steps,
                self.solo == old(self).solo,
                self.groups == old(self).groups,
                self.results == old(self).results,
                self.had_errors == old(self).had_errors,
                self.critical_error_occurred == old(self).critical_error_occurred,
                self.stop_on_error == old(self).stop_on_error,
                self.include_detailed == old(self).include_detailed,
                self.seq_idx == old(self).seq_idx,
                self.par_idx == old(self).par_idx,
                n == self.steps@.len(),
                next_stop(
                    n as int,
                    self.solo@,
                    self.groups@,
                    self.seq_idx as int,
                    self.par_idx as int,
                    halted(self),
                    self.position as int,
                ) == stop_of(old(self)),
            decreases n - self.position,
        {
            if self.critical_error_occurred && self.stop_on_error {
                return Batch::Finished;
            }
            let p = self.position;
            if self.seq_idx < self.solo.len() && self.solo[self.seq_idx] == p {
                self.seq_idx = self.seq_idx + 1;
                self.position = p + 1;
                let tc = &self.steps[p];
                return Batch::Solo {
                    index: p,
                    tool_name: short_tool_name(tc.tool_name.as_str()),
                    arguments: substituted(&tc.arguments, ctx),
                };
            }
            if self.par_idx < self.groups.len() && group_contains(&self.groups[self.par_idx], p) {
                let gi = self.par_idx;
                let ghost g = self.groups@[gi as int]@;
                let mut calls: Vec<(usize, String, JsonValue)> = Vec::new();
                let mut k: usize = 0;
                while k < self.groups[gi].len()
                    invariant
                        par_wf(self),
                        gi < self.groups@.len(),
                        g == self.groups@[gi as int]@,
                        k <= g.len(),
                        calls@.len() == k,
                        forall|t: int|
                            0 <= t < k ==> (#[trigger] calls@[t]).0 == g[t] && calls@[t].1@
                                == short_name(self.steps@[g[t] as int].tool_name@) && calls@[t].2@
                                == substitute(self.steps@[g[t] as int].arguments@, ctx@),
                    decreases g.len() - k,
                {
                    let m = self.groups[gi][k];
                    assert(self.groups@[gi as int]@[k as int] < self.steps@.len());
                    let tc = &self.steps[m];
                    calls.push((m, short_tool_name(tc.tool_name.as_str()), substituted(&tc.arguments, ctx)));
                    k += 1;
                }
                assert(calls_view(calls@) =~= group_calls(self.steps@, g, ctx@));
                self.par_idx = gi + 1;
                self.position = p + 1;
                return Batch::Concurrent { calls };
            }
            self.position = p + 1;
        }
        Batch::Finished
    }

    /// The aggregate status so far (see [`status_of`]).
    pub fn status(&self) -> (r: RunStatus)
        ensures
            r == status_of(self.had_errors, self.critical_error_occurred),
    {
        run_status(self.had_errors, self.critical_error_occurred)
    }

    /// Reports the outcome of the solo step `index`; gives the pause the
    /// caller is to make before the next batch (the step's delay).
    pub fn solo_finished(&mut self, index: usize, outcome: ToolOutcome, duration_ms: u64) -> (r:
        u64)
        requires
            par_wf(old(self)),
            index < old(self).steps@.len(),
        ensures
            par_wf(final(self)),
            final(self).steps == old(self).steps,
            final(self).solo == old(self).solo,
            final(self).groups == old(self).groups,
            final(self).position == old(self).position,
            final(self).seq_idx == old(self).seq_idx,
            final(self).par_idx == old(self).par_idx,
            final(self).stop_on_error == old(self).stop_on_error,
            final(self).include_detailed == old(self).include_detailed,
            view_items(final(self).results@) == view_items(old(self).results@).push(
                tool_record(
                    old(self).steps@[index as int].tool_name@,
                    index as nat,
                    text_view(old(self).steps@[index as int].id),
                    outcome_view(outcome),
                    flag(old(self).steps@[index as int].continue_on_error),
                    old(self).include_detailed,
                    duration_ms as nat,
                ),
            ),
            final(self).had_errors == (old(self).had_errors || outcome is Failure),
            final(self).critical_error_occurred == (old(self).critical_error_occurred || (
            outcome is Failure && !flag(old(self).steps@[index as int].continue_on_error))),
            r as nat == delay_of(old(self).steps@[index as int].delay_ms),
    {
        let failed = match &outcome {
            ToolOutcome::Success(_) => false,
            ToolOutcome::Failure(_) => true,
        };
        let tc = &self.steps[index];
        let skippable = match tc.continue_on_error {
            Some(b) => b,
            None => false,
        };
        let delay = match tc.delay_ms {
            Some(d) => d,
            None => 0,
        };
        let record = tool_result(
            &tc.tool_name,
            index,
            &tc.id,
            outcome,
            skippable,
            self.include_detailed,
            duration_ms,
        );
        let ghost before = self.results@;
        self.results.push(record);
        proof {
            assert(self.results@.drop_last() =~= before);
        }
        if failed {
            self.had_errors = true;
            if !skippable {
                self.critical_error_occurred = true;
            }
        }
        delay
    }

    /// Reports the outcomes of a concurrent batch, in completion order; each
    /// is `(position, outcome, duration)`. The records are appended in
    /// ascending order of position (see [`ordered_records`]).
    pub fn group_finished(&mut self, outcomes: Vec<(usize, ToolOutcome, u64)>)
        requires
            par_wf(old(self)),
        ensures
            par_wf(final(self)),
            final(self).steps == old(self).steps,
            final(self).solo == old(self).solo,
            final(self).groups == old(self).groups,
            final(self).position == old(self).position,
            final(self).seq_idx == old(self).seq_idx,
            final(self).par_idx == old(self).par_idx,
            final(self).stop_on_error == old(self).stop_on_error,
            final(self).include_detailed == old(self).include_detailed,
            view_items(final(self).results@) == view_items(old(self).results@) + ordered_records(
                old(self).steps@,
                outcomes@,
                old(self).steps@.len() as nat,
                old(self).include_detailed,
            ),
            final(self).had_errors == (old(self).had_errors || any_failed(
                old(self).steps@,
                outcomes@,
                old(self).steps@.len() as nat,
                false,
            )),
            final(self).critical_error_occurred == (old(self).critical_error_occurred
                || any_failed(old(self).steps@, outcomes@, old(self).steps@.len() as nat, true)),
    {
        let n = self.steps.len();
        let ghost base = view_items(self.results@);
        let ghost h0 = self.had_errors;
        let ghost c0 = self.critical_error_occurred;
        let mut k: usize = 0;
        while k < n
            invariant
                par_wf(self),
                self.steps == old(self).steps,
                self.solo == old(self).solo,
                self.groups == old(self).groups,
                self.position == old(self).position,
                self.seq_idx == old(self).seq_idx,
                self.par_idx == old(self).par_idx,
                self.stop_on_error == old(self).stop_on_error,
                self.include_detailed == old(self).include_detailed,
                n == self.steps@.len(),
                base == view_items(old(self).results@),
                h0 == old(self).had_errors,
                c0 == old(self).critical_error_occurred,
                k <= n,
                view_items(self.results@) == base + ordered_records(
                    self.steps@,
                    outcomes@,
                    k as nat,
                    self.include_detailed,
                ),
                self.had_errors == (h0 || any_failed(self.steps@, outcomes@, k as nat, false)),
                self.critical_error_occurred == (c0 || any_failed(
                    self.steps@,
                    outcomes@,
                    k as nat,
                    true,
                )),
            decreases n - k,
        {
            proof {
                lemma_first_for(outcomes@, k as nat, 0);
            }
            match find_first(&outcomes, k) {
                Some(j) => {
                    let o = copy_outcome(&outcomes[j].1);
                    let failed = match &o {
                        ToolOutcome::Success(_) => false,
                        ToolOutcome::Failure(_) => true,
                    };
                    let tc = &self.steps[k];
                    let skippable = match tc.continue_on_error {
                        Some(b) => b,
                        None => false,
                    };
                    let record = tool_result(
                        &tc.tool_name,
                        k,
                        &tc.id,
                        o,
                        skippable,
                        self.include_detailed,
                        outcomes[j].2,
                    );
                    let ghost before = self.results@;
                    self.results.push(record);
                    proof {
                        assert(self.results@.drop_last() =~= before);
                    }
                    if failed {
                        self.had_errors = true;
                        if !skippable {
                            self.critical_error_occurred = true;
                        }
                    }
                    proof {
                        let kk = (k + 1) as nat;
                        assert((kk - 1) as nat == k as nat);
                        assert(first_for(outcomes@, k as nat, 0) == Some(j as int));
                        assert(failed == (outcomes@[j as int].1 is Failure));
                        assert(ordered_records(self.steps@, outcomes@, kk, self.include_detailed)
                            == ordered_records(
                            self.steps@,
                            outcomes@,
                            k as nat,
                            self.include_detailed,
                        ).push(member_record(self.steps@, outcomes@, j as int, self.include_detailed)));
                        assert(view_items(self.results@) =~= base + ordered_records(
                            self.steps@,
                            outcomes@,
                            kk,
                            self.include_detailed,
                        ));
                    }
                },
                None => {
                    proof {
                        let kk = (k + 1) as nat;
                        assert((kk - 1) as nat == k as nat);
                    }
                },
            }
            k += 1;
        }
    }
}

} // verus!
