//! What appending a tool batch writes, and in which order: per prepared
//! outcome, in the batch's order, the hook contexts before the result, the
//! tool result, its completion fact, and the hook contexts after it; a denied
//! call's error result and completion; a suspended call's waiting fact.

use vstd::prelude::*;
use crate::events::{ToolCallCancellation, ToolCallCompletedPayload, ToolCallRequestedPayload, ToolCallSubject, VerletError};
use crate::history::CanonicalMessage;
use crate::text::{is_blank, text_is_blank};
use crate::tools::{error_result, is_error_result, result_succeeded, PreparedToolCallOutcome};

verus! {

/// One record appended for a tool batch.
#[derive(Debug)]
pub enum BatchAppend {
    /// A hook context, appended as a custom context message.
    HookContext { text: String },
    /// A tool result session entry, citing the request event.
    ToolResult { source_event_id: u64, message: CanonicalMessage },
    /// A `tool.call.completed` fact.
    Completion { payload: ToolCallCompletedPayload },
    /// A `turn.waiting` fact for a suspended call.
    TurnWaiting {
        turn_id: String,
        call_id: String,
        snapshot_id: String,
        waiting_on_event_id: u64,
        approval_id: Option<String>,
        reason: Option<String>,
    },
}

/// The message of a tool result as the plan states it.
pub ghost enum ResultView {
    /// The message the tool produced.
    Produced { message: CanonicalMessage },
    /// The error result carrying `reason` (a denial's, or why the call was
    /// settled without running).
    Error { tool_name: Seq<char>, reason: Seq<char> },
}

/// A planned append as the contracts see it.
pub ghost enum AppendView {
    HookContext { text: Seq<char> },
    ToolResult { call_id: Seq<char>, source_event_id: u64, result: ResultView },
    Completion {
        turn_id: Seq<char>,
        call_id: Seq<char>,
        snapshot_id: Seq<char>,
        tool_name: Seq<char>,
        success: bool,
        args_fingerprint: Option<Seq<char>>,
        duration_ms: Option<u64>,
        finish_order: Option<u64>,
        cancellation: Option<ToolCallCancellation>,
    },
    TurnWaiting {
        turn_id: Seq<char>,
        call_id: Seq<char>,
        snapshot_id: Seq<char>,
        waiting_on_event_id: u64,
        approval_id: Option<Seq<char>>,
        reason: Option<Seq<char>>,
    },
}

/// The view of an optional string.
pub open spec fn opt_text(s: Option<String>) -> Option<Seq<char>> {
    match s {
        Some(t) => Some(t@),
        None => None,
    }
}

/// Whether an append is the one a view describes.
pub open spec fn append_matches(a: BatchAppend, v: AppendView) -> bool {
    match (a, v) {
        (BatchAppend::HookContext { text }, AppendView::HookContext { text: t }) => text@ == t,
        (
            BatchAppend::ToolResult { source_event_id, message },
            AppendView::ToolResult { call_id, source_event_id: s, result },
        ) => source_event_id == s && match result {
            ResultView::Produced { message: m } => message == m,
            ResultView::Error { tool_name, reason } => is_error_result(message, call_id, tool_name, reason),
        },
        (
            BatchAppend::Completion { payload },
            AppendView::Completion {
                turn_id,
                call_id,
                snapshot_id,
                tool_name,
                success,
                args_fingerprint,
                duration_ms,
                finish_order,
                cancellation,
            },
        ) => {
            &&& payload.subject.turn_id@ == turn_id
            &&& payload.subject.call_id@ == call_id
            &&& payload.snapshot_id@ == snapshot_id
            &&& payload.tool_name@ == tool_name
            &&& payload.success == success
            &&& opt_text(payload.args_fingerprint) == args_fingerprint
            &&& payload.duration_ms == duration_ms
            &&& payload.finish_order == finish_order
            &&& payload.cancellation == cancellation
        },
        (
            BatchAppend::TurnWaiting { turn_id, call_id, snapshot_id, waiting_on_event_id, approval_id, reason },
            AppendView::TurnWaiting {
                turn_id: t,
                call_id: c,
                snapshot_id: s,
                waiting_on_event_id: w,
                approval_id: a,
                reason: r,
            },
        ) => turn_id@ == t && call_id@ == c && snapshot_id@ == s && waiting_on_event_id == w && opt_text(approval_id)
            == a && opt_text(reason) == r,
        _ => false,
    }
}

/// Whether each append of `plan` is the one `views` describes at its place.
pub open spec fn plan_matches(plan: Seq<BatchAppend>, views: Seq<AppendView>) -> bool {
    plan.len() == views.len() && forall|k: int| 0 <= k < plan.len() ==> append_matches(#[trigger] plan[k], views[k])
}

/// The hook contexts that are appended: the non-blank ones, in order.
pub open spec fn context_appends(contexts: Seq<String>) -> Seq<AppendView>
    decreases contexts.len(),
{
    if contexts.len() == 0 {
        Seq::empty()
    } else {
        let rest = context_appends(contexts.drop_last());
        if is_blank(contexts.last()@) {
            rest
        } else {
            rest.push(AppendView::HookContext { text: contexts.last()@ })
        }
    }
}

/// What one prepared outcome appends.
pub open spec fn outcome_appends(turn_id: Seq<char>, outcome: Result<PreparedToolCallOutcome, VerletError>) -> Seq<
    AppendView,
> {
    match outcome {
        Ok(
            PreparedToolCallOutcome::Completed {
                call_id,
                tool_name,
                snapshot_id,
                args_fingerprint,
                source_event_id,
                finish_order,
                cancellation,
                outcome,
            },
        ) => context_appends(outcome.pre_model_contexts@) + seq![
            AppendView::ToolResult {
                call_id: call_id@,
                source_event_id,
                result: ResultView::Produced { message: outcome.result },
            },
            AppendView::Completion {
                turn_id,
                call_id: call_id@,
                snapshot_id: snapshot_id@,
                tool_name: tool_name@,
                success: result_succeeded(outcome.result),
                args_fingerprint: opt_text(args_fingerprint),
                duration_ms: Some(outcome.duration_ms),
                finish_order: Some(finish_order),
                cancellation,
            },
        ] + context_appends(outcome.post_model_contexts@),
        Ok(
            PreparedToolCallOutcome::Denied {
                call_id,
                tool_name,
                snapshot_id,
                args_fingerprint,
                source_event_id,
                finish_order,
                reason,
            },
        ) => seq![
            AppendView::ToolResult {
                call_id: call_id@,
                source_event_id,
                result: ResultView::Error { tool_name: tool_name@, reason: reason@ },
            },
            AppendView::Completion {
                turn_id,
                call_id: call_id@,
                snapshot_id: snapshot_id@,
                tool_name: tool_name@,
                success: false,
                args_fingerprint: opt_text(args_fingerprint),
                duration_ms: Some(0),
                finish_order: Some(finish_order),
                cancellation: None,
            },
        ],
        Ok(PreparedToolCallOutcome::Suspended { call_id, snapshot_id, waiting_on_event_id, approval_id, reason }) => seq![
            AppendView::TurnWaiting {
                turn_id,
                call_id: call_id@,
                snapshot_id: snapshot_id@,
                waiting_on_event_id,
                approval_id: opt_text(approval_id),
                reason: opt_text(reason),
            },
        ],
        Ok(PreparedToolCallOutcome::Abandoned) => Seq::empty(),
        Err(_) => Seq::empty(),
    }
}

/// What a batch appends: each outcome's appends, in the batch's order.
pub open spec fn batch_appends(turn_id: Seq<char>, outcomes: Seq<Result<PreparedToolCallOutcome, VerletError>>) -> Seq<
    AppendView,
>
    decreases outcomes.len(),
{
    if outcomes.len() == 0 {
        Seq::empty()
    } else {
        batch_appends(turn_id, outcomes.drop_last()) + outcome_appends(turn_id, outcomes.last())
    }
}

/// Appends the non-blank contexts to the plan.
fn push_contexts(plan: &mut Vec<BatchAppend>, contexts: Vec<String>, views: Ghost<Seq<AppendView>>)
    requires
        plan_matches(old(plan)@, views@),
    ensures
        plan_matches(final(plan)@, views@ + context_appends(contexts@)),
{
    let ghost original = contexts@;
    let n = contexts.len();
    let mut contexts = contexts;
    let mut i: usize = 0;
    while i < n
        invariant
            i <= n,
            n == original.len(),
            contexts@ == original.skip(i as int),
            plan_matches(plan@, views@ + context_appends(original.take(i as int))),
        decreases n - i,
    {
        let text = contexts.remove(0);
        proof {
            assert(original.skip(i as int)[0] == text);
            assert(contexts@ =~= original.skip(i as int + 1));
            assert(original.take(i as int + 1).drop_last() =~= original.take(i as int));
        }
        let blank = text_is_blank(text.as_str());
        if !blank {
            let ghost before = plan@;
            plan.push(BatchAppend::HookContext { text });
            proof {
                let v = views@ + context_appends(original.take(i as int + 1));
                assert(v =~= (views@ + context_appends(original.take(i as int))).push(
                    AppendView::HookContext { text: original[i as int]@ },
                ));
                assert forall|k: int| 0 <= k < plan@.len() implies append_matches(#[trigger] plan@[k], v[k]) by {
                    if k < before.len() {
                        assert(plan@[k] == before[k]);
                    }
                }
            }
        } else {
            proof {
                assert(views@ + context_appends(original.take(i as int + 1)) =~= views@ + context_appends(
                    original.take(i as int),
                ));
            }
        }
        i = i + 1;
    }
    proof {
        assert(original.take(n as int) =~= original);
    }
}

proof fn lemma_push_matches(plan: Seq<BatchAppend>, views: Seq<AppendView>, a: BatchAppend, v: AppendView)
    requires
        plan_matches(plan, views),
        append_matches(a, v),
    ensures
        plan_matches(plan.push(a), views.push(v)),
{
    assert forall|k: int| 0 <= k < plan.push(a).len() implies append_matches(#[trigger] plan.push(a)[k], views.push(v)[k]) by {
        if k < plan.len() {
            assert(plan.push(a)[k] == plan[k]);
        }
    }
}

/// The records a tool batch appends, in order (failed outcomes append
/// nothing; the batch's own result is `batch_append_outcome`).
pub fn tool_batch_append_plan(turn_id: &str, outcomes: Vec<Result<PreparedToolCallOutcome, VerletError>>) -> (plan: Vec<
    BatchAppend,
>)
    ensures
        plan_matches(plan@, batch_appends(turn_id@, outcomes@)),
{
    let ghost original = outcomes@;
    let n = outcomes.len();
    let mut outcomes = outcomes;
    let mut plan: Vec<BatchAppend> = Vec::new();
    let mut i: usize = 0;
    while i < n
        invariant
            i <= n,
            n == original.len(),
            outcomes@ == original.skip(i as int),
            plan_matches(plan@, batch_appends(turn_id@, original.take(i as int))),
        decreases n - i,
    {
        let outcome = outcomes.remove(0);
        let ghost before = batch_appends(turn_id@, original.take(i as int));
        proof {
            assert(original.skip(i as int)[0] == outcome);
            assert(outcomes@ =~= original.skip(i as int + 1));
            assert(original.take(i as int + 1).drop_last() =~= original.take(i as int));
            assert(batch_appends(turn_id@, original.take(i as int + 1)) == before + outcome_appends(turn_id@, outcome));
        }
        match outcome {
            Ok(
                PreparedToolCallOutcome::Completed {
                    call_id,
                    tool_name,
                    snapshot_id,
                    args_fingerprint,
                    source_event_id,
                    finish_order,
                    cancellation,
                    outcome,
                },
            ) => {
                let ghost result = outcome.result;
                let ghost post = outcome.post_model_contexts@;
                let ghost pre_views = before + context_appends(outcome.pre_model_contexts@);
                let success = match &outcome.result {
                    CanonicalMessage::ToolResult { is_error, .. } => !*is_error,
                    _ => false,
                };
                let ghost fp = opt_text(args_fingerprint);
                push_contexts(&mut plan, outcome.pre_model_contexts, Ghost(before));
                let ghost rv = AppendView::ToolResult {
                    call_id: call_id@,
                    source_event_id,
                    result: ResultView::Produced { message: result },
                };
                let ghost cv = AppendView::Completion {
                    turn_id: turn_id@,
                    call_id: call_id@,
                    snapshot_id: snapshot_id@,
                    tool_name: tool_name@,
                    success: result_succeeded(result),
                    args_fingerprint: fp,
                    duration_ms: Some(outcome.duration_ms),
                    finish_order: Some(finish_order),
                    cancellation,
                };
                proof {
                    lemma_push_matches(plan@, pre_views, BatchAppend::ToolResult { source_event_id, message: outcome.result }, rv);
                }
                plan.push(BatchAppend::ToolResult { source_event_id, message: outcome.result });
                let payload = ToolCallCompletedPayload {
                    subject: ToolCallSubject { turn_id: String::from_str(turn_id), call_id },
                    snapshot_id,
                    tool_name,
                    success,
                    args_fingerprint,
                    duration_ms: Some(outcome.duration_ms),
                    finish_order: Some(finish_order),
                    cancellation,
                };
                proof {
                    lemma_push_matches(plan@, pre_views.push(rv), BatchAppend::Completion { payload }, cv);
                }
                plan.push(BatchAppend::Completion { payload });
                push_contexts(&mut plan, outcome.post_model_contexts, Ghost(pre_views.push(rv).push(cv)));
                proof {
                    assert(pre_views.push(rv).push(cv) + context_appends(post) =~= before + outcome_appends(
                        turn_id@,
                        original[i as int],
                    ));
                }
            },
            Ok(
                PreparedToolCallOutcome::Denied {
                    call_id,
                    tool_name,
                    snapshot_id,
                    args_fingerprint,
                    source_event_id,
                    finish_order,
                    reason,
                },
            ) => {
                let message = error_result(&call_id, &tool_name, reason.as_str());
                let ghost rv = AppendView::ToolResult {
                    call_id: call_id@,
                    source_event_id,
                    result: ResultView::Error { tool_name: tool_name@, reason: reason@ },
                };
                let ghost cv = AppendView::Completion {
                    turn_id: turn_id@,
                    call_id: call_id@,
                    snapshot_id: snapshot_id@,
                    tool_name: tool_name@,
                    success: false,
                    args_fingerprint: opt_text(args_fingerprint),
                    duration_ms: Some(0),
                    finish_order: Some(finish_order),
                    cancellation: None,
                };
                proof {
                    lemma_push_matches(plan@, before, BatchAppend::ToolResult { source_event_id, message }, rv);
                }
                plan.push(BatchAppend::ToolResult { source_event_id, message });
                let payload = ToolCallCompletedPayload {
                    subject: ToolCallSubject { turn_id: String::from_str(turn_id), call_id },
                    snapshot_id,
                    tool_name,
                    success: false,
                    args_fingerprint,
                    duration_ms: Some(0),
                    finish_order: Some(finish_order),
                    cancellation: None,
                };
                proof {
                    lemma_push_matches(plan@, before.push(rv), BatchAppend::Completion { payload }, cv);
                    assert(before.push(rv).push(cv) =~= before + outcome_appends(turn_id@, original[i as int]));
                }
                plan.push(BatchAppend::Completion { payload });
            },
            Ok(PreparedToolCallOutcome::Suspended { call_id, snapshot_id, waiting_on_event_id, approval_id, reason }) => {
                let ghost wv = AppendView::TurnWaiting {
                    turn_id: turn_id@,
                    call_id: call_id@,
                    snapshot_id: snapshot_id@,
                    waiting_on_event_id,
                    approval_id: opt_text(approval_id),
                    reason: opt_text(reason),
                };
                let a = BatchAppend::TurnWaiting {
                    turn_id: String::from_str(turn_id),
                    call_id,
                    snapshot_id,
                    waiting_on_event_id,
                    approval_id,
                    reason,
                };
                proof {
                    lemma_push_matches(plan@, before, a, wv);
                    assert(before.push(wv) =~= before + outcome_appends(turn_id@, original[i as int]));
                }
                plan.push(a);
            },
            _ => {
                proof {
                    assert(before =~= before + outcome_appends(turn_id@, original[i as int]));
                }
            },
        }
        i = i + 1;
    }
    proof {
        assert(original.take(n as int) =~= original);
    }
    plan
}

/// The call ids of the tool results among `views`, in order.
pub open spec fn result_call_ids(views: Seq<AppendView>) -> Seq<Seq<char>>
    decreases views.len(),
{
    if views.len() == 0 {
        Seq::empty()
    } else {
        let rest = result_call_ids(views.drop_last());
        match views.last() {
            AppendView::ToolResult { call_id, .. } => rest.push(call_id),
            _ => rest,
        }
    }
}

/// The call id an outcome answers with a result, if it does: a completed
/// or a denied call.
pub open spec fn answered_call_id(outcome: Result<PreparedToolCallOutcome, VerletError>) -> Seq<Seq<char>> {
    match outcome {
        Ok(PreparedToolCallOutcome::Completed { call_id, .. }) => seq![call_id@],
        Ok(PreparedToolCallOutcome::Denied { call_id, .. }) => seq![call_id@],
        _ => Seq::empty(),
    }
}

/// The call ids of the outcomes that answer their call with a result, in
/// the batch's order.
pub open spec fn answered_call_ids(outcomes: Seq<Result<PreparedToolCallOutcome, VerletError>>) -> Seq<Seq<char>>
    decreases outcomes.len(),
{
    if outcomes.len() == 0 {
        Seq::empty()
    } else {
        answered_call_ids(outcomes.drop_last()) + answered_call_id(outcomes.last())
    }
}

/// Every tool result is followed at once by the completion fact of the
/// same call in turn `turn_id`.
pub open spec fn results_then_completions(views: Seq<AppendView>, turn_id: Seq<char>) -> bool {
    forall|k: int|
        0 <= k < views.len() && (#[trigger] views[k] is ToolResult) ==> k + 1 < views.len() && (views[k
            + 1] matches AppendView::Completion { turn_id: t, call_id: c, .. } && t == turn_id && c
            == views[k]->ToolResult_call_id)
}

proof fn lemma_context_appends_are_contexts(contexts: Seq<String>)
    ensures
        forall|k: int| 0 <= k < context_appends(contexts).len() ==> #[trigger] context_appends(contexts)[k] is HookContext,
        result_call_ids(context_appends(contexts)) == Seq::<Seq<char>>::empty(),
    decreases contexts.len(),
{
    if contexts.len() > 0 {
        lemma_context_appends_are_contexts(contexts.drop_last());
        let rest = context_appends(contexts.drop_last());
        let h = AppendView::HookContext { text: contexts.last()@ };
        assert(rest.push(h).drop_last() =~= rest);
    }
}

proof fn lemma_result_call_ids_concat(a: Seq<AppendView>, b: Seq<AppendView>)
    ensures
        result_call_ids(a + b) == result_call_ids(a) + result_call_ids(b),
    decreases b.len(),
{
    if b.len() == 0 {
        assert(a + b =~= a);
    } else {
        lemma_result_call_ids_concat(a, b.drop_last());
        assert((a + b).drop_last() =~= a + b.drop_last());
    }
}

proof fn lemma_results_then_completions_concat(a: Seq<AppendView>, b: Seq<AppendView>, turn_id: Seq<char>)
    requires
        results_then_completions(a, turn_id),
        results_then_completions(b, turn_id),
    ensures
        results_then_completions(a + b, turn_id),
{
    assert forall|k: int|
        0 <= k < (a + b).len() && (#[trigger] (a + b)[k] is ToolResult) implies k + 1 < (a + b).len() && ((a
        + b)[k + 1] matches AppendView::Completion { turn_id: t, call_id: c, .. } && t == turn_id && c == (a
        + b)[k]->ToolResult_call_id) by {
        if k < a.len() {
            assert(a[k] is ToolResult);
        } else {
            assert(b[k - a.len()] is ToolResult);
        }
    }
}

proof fn lemma_result_between_contexts(
    pre: Seq<AppendView>,
    r: AppendView,
    c: AppendView,
    post: Seq<AppendView>,
    turn_id: Seq<char>,
    call_id: Seq<char>,
)
    requires
        forall|k: int| 0 <= k < pre.len() ==> #[trigger] pre[k] is HookContext,
        forall|k: int| 0 <= k < post.len() ==> #[trigger] post[k] is HookContext,
        r matches AppendView::ToolResult { call_id: x, .. } && x == call_id,
        c matches AppendView::Completion { turn_id: t, call_id: x, .. } && t == turn_id && x == call_id,
    ensures
        results_then_completions(pre + seq![r, c] + post, turn_id),
{
    let w = pre + seq![r, c] + post;
    assert forall|k: int| 0 <= k < w.len() && (#[trigger] w[k] is ToolResult) implies k + 1 < w.len() && (w[k
        + 1] matches AppendView::Completion { turn_id: t, call_id: x, .. } && t == turn_id && x
        == w[k]->ToolResult_call_id) by {
        if k < pre.len() {
            assert(w[k] == pre[k]);
        } else if k == pre.len() {
            assert(w[k] == r);
            assert(w[k + 1] == c);
        } else if k == pre.len() + 1 {
            assert(w[k] == c);
        } else {
            assert(w[k] == post[k - pre.len() - 2]);
        }
    }
}

proof fn lemma_result_ids_between_contexts(
    pre: Seq<AppendView>,
    r: AppendView,
    c: AppendView,
    post: Seq<AppendView>,
    call_id: Seq<char>,
)
    requires
        result_call_ids(pre) == Seq::<Seq<char>>::empty(),
        result_call_ids(post) == Seq::<Seq<char>>::empty(),
        r matches AppendView::ToolResult { call_id: x, .. } && x == call_id,
        c is Completion,
    ensures
        result_call_ids(pre + seq![r, c] + post) == seq![call_id],
{
    let mid = seq![r, c];
    lemma_result_call_ids_concat(pre, mid);
    lemma_result_call_ids_concat(pre + mid, post);
    assert(mid.drop_last() =~= seq![r]);
    assert(seq![r].drop_last() =~= Seq::<AppendView>::empty());
    assert(result_call_ids(Seq::<AppendView>::empty()) =~= Seq::<Seq<char>>::empty());
    assert(seq![r].last() == r);
    assert(result_call_ids(seq![r]) =~= seq![call_id]);
    assert(result_call_ids(mid) =~= seq![call_id]);
    assert(Seq::<Seq<char>>::empty() + seq![call_id] + Seq::<Seq<char>>::empty() =~= seq![call_id]);
}

proof fn lemma_outcome_appends_shape(turn_id: Seq<char>, outcome: Result<PreparedToolCallOutcome, VerletError>)
    ensures
        results_then_completions(outcome_appends(turn_id, outcome), turn_id),
        result_call_ids(outcome_appends(turn_id, outcome)) == answered_call_id(outcome),
{
    let v = outcome_appends(turn_id, outcome);
    match outcome {
        Ok(PreparedToolCallOutcome::Completed { call_id, outcome: o, .. }) => {
            lemma_context_appends_are_contexts(o.pre_model_contexts@);
            lemma_context_appends_are_contexts(o.post_model_contexts@);
            let pre = context_appends(o.pre_model_contexts@);
            let post = context_appends(o.post_model_contexts@);
            lemma_result_between_contexts(pre, v[pre.len() as int], v[pre.len() as int + 1], post, turn_id, call_id@);
            lemma_result_ids_between_contexts(pre, v[pre.len() as int], v[pre.len() as int + 1], post, call_id@);
            assert(v =~= pre + seq![v[pre.len() as int], v[pre.len() as int + 1]] + post);
        },
        Ok(PreparedToolCallOutcome::Denied { call_id, .. }) => {
            lemma_result_between_contexts(Seq::empty(), v[0], v[1], Seq::empty(), turn_id, call_id@);
            lemma_result_ids_between_contexts(Seq::empty(), v[0], v[1], Seq::empty(), call_id@);
            assert(v =~= Seq::<AppendView>::empty() + seq![v[0], v[1]] + Seq::<AppendView>::empty());
        },
        Ok(PreparedToolCallOutcome::Suspended { .. }) => {
            assert(v.drop_last() =~= Seq::<AppendView>::empty());
        },
        _ => {},
    }
}

/// The order of a tool round's appends: each tool result is followed at
/// once by the completion fact of its call in this turn, and the results
/// come in the batch's order, one for each completed or denied call.
pub proof fn lemma_each_result_is_followed_by_its_completion(
    turn_id: Seq<char>,
    outcomes: Seq<Result<PreparedToolCallOutcome, VerletError>>,
)
    ensures
        results_then_completions(batch_appends(turn_id, outcomes), turn_id),
        result_call_ids(batch_appends(turn_id, outcomes)) == answered_call_ids(outcomes),
    decreases outcomes.len(),
{
    if outcomes.len() > 0 {
        lemma_each_result_is_followed_by_its_completion(turn_id, outcomes.drop_last());
        lemma_outcome_appends_shape(turn_id, outcomes.last());
        lemma_results_then_completions_concat(
            batch_appends(turn_id, outcomes.drop_last()),
            outcome_appends(turn_id, outcomes.last()),
            turn_id,
        );
        lemma_result_call_ids_concat(
            batch_appends(turn_id, outcomes.drop_last()),
            outcome_appends(turn_id, outcomes.last()),
        );
    }
}

// ---------------------------------------------------------------------------
// Settling a swept call
// ---------------------------------------------------------------------------

/// Why a call that a cancelled child turn left dangling was settled.
pub open spec fn abandoned_reason() -> Seq<char> {
    "tool call was abandoned by an interrupt before daemon shutdown"@
}

/// What settling one swept request appends: when a result of the call was
/// already persisted, only its completion (successful as that result is);
/// otherwise an error result with the abandonment reason and a failed
/// completion. Either completion takes the request's snapshot, tool and
/// fingerprint, no duration, the given finish order, and marks the call as
/// cancelled past its grace.
pub open spec fn swept_call_appends(
    request: ToolCallRequestedPayload,
    request_event_id: u64,
    finish_order: u64,
    existing_result: Option<CanonicalMessage>,
) -> Seq<AppendView> {
    let completion = |success: bool|
        AppendView::Completion {
            turn_id: request.subject.turn_id@,
            call_id: request.subject.call_id@,
            snapshot_id: request.snapshot_id@,
            tool_name: request.tool_name@,
            success,
            args_fingerprint: opt_text(request.args_fingerprint),
            duration_ms: Some(0),
            finish_order: Some(finish_order),
            cancellation: Some(ToolCallCancellation::CancelledExceededGrace),
        };
    match existing_result {
        Some(result) => seq![completion(result_succeeded(result))],
        None => seq![
            AppendView::ToolResult {
                call_id: request.subject.call_id@,
                source_event_id: request_event_id,
                result: ResultView::Error { tool_name: request.tool_name@, reason: abandoned_reason() },
            },
            completion(false),
        ],
    }
}

/// The records that settle one swept request (see `swept_call_appends`).
pub fn swept_call_plan(
    request: &ToolCallRequestedPayload,
    request_event_id: u64,
    finish_order: u64,
    existing_result: &Option<CanonicalMessage>,
) -> (plan: Vec<BatchAppend>)
    ensures
        plan_matches(plan@, swept_call_appends(*request, request_event_id, finish_order, *existing_result)),
{
    let mut plan: Vec<BatchAppend> = Vec::new();
    let success = match existing_result {
        Some(CanonicalMessage::ToolResult { is_error, .. }) => !*is_error,
        _ => false,
    };
    if existing_result.is_none() {
        let message = error_result(
            &request.subject.call_id,
            &request.tool_name,
            "tool call was abandoned by an interrupt before daemon shutdown",
        );
        plan.push(BatchAppend::ToolResult { source_event_id: request_event_id, message });
    }
    let fingerprint: Option<String> = match &request.args_fingerprint {
        Some(f) => Some(f.clone()),
        None => None,
    };
    plan.push(
        BatchAppend::Completion {
            payload: ToolCallCompletedPayload {
                subject: ToolCallSubject {
                    turn_id: request.subject.turn_id.clone(),
                    call_id: request.subject.call_id.clone(),
                },
                snapshot_id: request.snapshot_id.clone(),
                tool_name: request.tool_name.clone(),
                success,
                args_fingerprint: fingerprint,
                duration_ms: Some(0),
                finish_order: Some(finish_order),
                cancellation: Some(ToolCallCancellation::CancelledExceededGrace),
            },
        },
    );
    proof {
        reveal_strlit("tool call was abandoned by an interrupt before daemon shutdown");
        let v = swept_call_appends(*request, request_event_id, finish_order, *existing_result);
        assert forall|k: int| 0 <= k < plan@.len() implies append_matches(#[trigger] plan@[k], v[k]) by {}
    }
    plan
}

} // verus!
