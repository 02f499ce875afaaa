//! A tool batch: which calls run, in which order their holds let them start,
//! what an interrupted or cancelled call amounts to, and what appending the
//! batch's results amounts to.

use vstd::prelude::*;
use crate::commands::ToolAppendOutcome;
use crate::events::{ToolCallCancellation, VerletError};
use crate::history::{CanonicalContent, CanonicalMessage, ProviderToolCall};
use crate::json::duplicate_value;
use crate::recovery::ToolRecoveryAction;
use crate::text::{debug_quoted, debug_quoted_text, decimal, push_decimal, push_str, same_text};

verus! {

// ---------------------------------------------------------------------------
// Which calls of a batch run
// ---------------------------------------------------------------------------

/// The first index `j` whose call id also occurs at an earlier index.
pub open spec fn first_duplicate_from(calls: Seq<ProviderToolCall>, j: int) -> Option<int>
    decreases calls.len() - j,
{
    if j < 0 || j >= calls.len() {
        None
    } else if exists|i: int| 0 <= i < j && #[trigger] calls[i].id@ == calls[j].id@ {
        Some(j)
    } else {
        first_duplicate_from(calls, j + 1)
    }
}

proof fn lemma_first_duplicate_from(calls: Seq<ProviderToolCall>, from: int)
    requires
        0 <= from,
    ensures
        first_duplicate_from(calls, from) is None <==> forall|i: int, j: int|
            0 <= i < j < calls.len() && from <= j ==> #[trigger] calls[i].id@ != #[trigger] calls[j].id@,
        first_duplicate_from(calls, from) matches Some(j) ==> {
            &&& from <= j < calls.len()
            &&& exists|i: int| 0 <= i < j && #[trigger] calls[i].id@ == calls[j].id@
            &&& forall|a: int, b: int| 0 <= a < b < j && from <= b ==> #[trigger] calls[a].id@ != #[trigger] calls[b].id@
        },
    decreases calls.len() - from,
{
    if from < calls.len() {
        lemma_first_duplicate_from(calls, from + 1);
        if exists|i: int| 0 <= i < from && #[trigger] calls[i].id@ == calls[from].id@ {
            let i = choose|i: int| 0 <= i < from && #[trigger] calls[i].id@ == calls[from].id@;
            assert(calls[i].id@ == calls[from].id@);
        }
    }
}

/// A batch is rejected exactly when two of its calls, at any positions,
/// share an id: the duplicate reported is the first call whose id an earlier
/// call already has, and a batch whose ids are pairwise distinct passes.
pub proof fn lemma_duplicate_ids_are_found_anywhere(calls: Seq<ProviderToolCall>)
    ensures
        first_duplicate_from(calls, 0) is None <==> forall|i: int, j: int|
            0 <= i < j < calls.len() ==> #[trigger] calls[i].id@ != #[trigger] calls[j].id@,
        first_duplicate_from(calls, 0) matches Some(j) ==> {
            &&& 0 <= j < calls.len()
            &&& exists|i: int| 0 <= i < j && #[trigger] calls[i].id@ == calls[j].id@
            &&& forall|a: int, b: int| 0 <= a < b < j ==> #[trigger] calls[a].id@ != #[trigger] calls[b].id@
        },
{
    lemma_first_duplicate_from(calls, 0);
}

/// The error for a batch in which two calls share an id, given the id as
/// `Debug` renders it.
pub fn duplicate_call_id_error(quoted_id: String) -> (error: VerletError)
    ensures
        error matches VerletError::RuntimeExecution(m) && m@ == "duplicate tool call id "@ + quoted_id@
            + " in one assistant batch"@,
{
    let mut message = String::from_str("duplicate tool call id ");
    push_str(&mut message, quoted_id.as_str());
    push_str(&mut message, " in one assistant batch");
    VerletError::RuntimeExecution(message)
}

/// Rejects a batch in which two calls share an id.
pub fn check_unique_call_ids(calls: &Vec<ProviderToolCall>) -> (checked: Result<(), VerletError>)
    ensures
        match first_duplicate_from(calls@, 0) {
            None => checked is Ok,
            Some(j) => checked matches Err(VerletError::RuntimeExecution(m)) && m@
                == "duplicate tool call id "@ + debug_quoted_text(calls@[j].id@) + " in one assistant batch"@,
        },
{
    let mut j: usize = 0;
    while j < calls.len()
        invariant
            j <= calls.len(),
            first_duplicate_from(calls@, 0) == first_duplicate_from(calls@, j as int),
        decreases calls.len() - j,
    {
        let mut i: usize = 0;
        while i < j
            invariant
                i <= j < calls.len(),
                first_duplicate_from(calls@, 0) == first_duplicate_from(calls@, j as int),
                forall|m: int| 0 <= m < i ==> #[trigger] calls@[m].id@ != calls@[j as int].id@,
            decreases j - i,
        {
            if same_text(calls[i].id.as_str(), calls[j].id.as_str()) {
                assert(calls@[i as int].id@ == calls@[j as int].id@);
                return Err(duplicate_call_id_error(debug_quoted(calls[j].id.as_str())));
            }
            i = i + 1;
        }
        j = j + 1;
    }
    Ok(())
}

/// Whether `name` is among `names`.
pub open spec fn names_contain(names: Seq<String>, name: Seq<char>) -> bool {
    exists|i: int| 0 <= i < names.len() && #[trigger] names[i]@ == name
}

fn contains_name(names: &Vec<String>, name: &str) -> (b: bool)
    ensures
        b == names_contain(names@, name@),
{
    let mut i: usize = 0;
    while i < names.len()
        invariant
            i <= names.len(),
            forall|m: int| 0 <= m < i ==> #[trigger] names@[m]@ != name@,
        decreases names.len() - i,
    {
        if same_text(names[i].as_str(), name) {
            return true;
        }
        i = i + 1;
    }
    false
}

/// The calls whose tool is among `names`, in order.
pub open spec fn known_calls(calls: Seq<ProviderToolCall>, names: Seq<String>) -> Seq<ProviderToolCall>
    decreases calls.len(),
{
    if calls.len() == 0 {
        calls
    } else if names_contain(names, calls.last().name@) {
        known_calls(calls.drop_last(), names).push(calls.last())
    } else {
        known_calls(calls.drop_last(), names)
    }
}

/// The calls of a batch that run: none without a tool router; otherwise, once
/// the ids are known to be unique, all calls under a strict router and only
/// the calls of advertised tools under a lenient one. An empty result means
/// the batch has no tools.
pub fn batch_calls_to_run(
    calls: Vec<ProviderToolCall>,
    has_tool_router: bool,
    strict_unknown_tools: bool,
    advertised_tool_names: &Vec<String>,
) -> (run: Result<Vec<ProviderToolCall>, VerletError>)
    ensures
        !has_tool_router ==> (run matches Ok(v) && v.len() == 0),
        has_tool_router ==> match first_duplicate_from(calls@, 0) {
            Some(j) => (run matches Err(VerletError::RuntimeExecution(m)) && m@
                == "duplicate tool call id "@ + debug_quoted_text(calls@[j].id@) + " in one assistant batch"@),
            None => (run matches Ok(v) && v@ == (if strict_unknown_tools {
                calls@
            } else {
                known_calls(calls@, advertised_tool_names@)
            })),
        },
{
    if !has_tool_router {
        return Ok(Vec::new());
    }
    match check_unique_call_ids(&calls) {
        Err(e) => {
            return Err(e);
        },
        Ok(()) => {},
    }
    if strict_unknown_tools {
        return Ok(calls);
    }
    let ghost original = calls@;
    let n = calls.len();
    let mut calls = calls;
    let mut kept: Vec<ProviderToolCall> = Vec::new();
    let mut i: usize = 0;
    while i < n
        invariant
            i <= n,
            n == original.len(),
            calls@ == original.skip(i as int),
            kept@ == known_calls(original.take(i as int), advertised_tool_names@),
        decreases n - i,
    {
        let call = calls.remove(0);
        proof {
            assert(original.skip(i as int)[0] == call);
            assert(calls@ =~= original.skip(i as int + 1));
            assert(original.take(i as int + 1).drop_last() =~= original.take(i as int));
        }
        if contains_name(advertised_tool_names, call.name.as_str()) {
            kept.push(call);
        }
        i = i + 1;
    }
    proof {
        assert(original.take(n as int) =~= original);
    }
    Ok(kept)
}

/// A tool a model may call.
#[derive(Debug)]
pub struct ToolDefinition {
    pub name: String,
    pub description: String,
    pub input_schema: serde_json::Value,
}

/// The names of a list of tools.
pub open spec fn tool_names(tools: Seq<ToolDefinition>) -> Seq<Seq<char>> {
    tools.map_values(|t: ToolDefinition| t.name@)
}

/// The router tools among the first `k` that join the configured ones: each
/// whose name neither a configured tool nor an earlier joining tool has.
pub open spec fn joining_tools(configured: Seq<Seq<char>>, router: Seq<ToolDefinition>, k: int) -> Seq<ToolDefinition>
    decreases k,
{
    if k <= 0 {
        Seq::empty()
    } else {
        let before = joining_tools(configured, router, k - 1);
        if configured.contains(router[k - 1].name@) || tool_names(before).contains(router[k - 1].name@) {
            before
        } else {
            before.push(router[k - 1])
        }
    }
}

fn name_listed(tools: &Vec<ToolDefinition>, name: &str) -> (b: bool)
    ensures
        b == tool_names(tools@).contains(name@),
{
    let mut i: usize = 0;
    while i < tools.len()
        invariant
            i <= tools.len(),
            forall|m: int| 0 <= m < i ==> tool_names(tools@)[m] != name@,
        decreases tools.len() - i,
    {
        assert(tool_names(tools@)[i as int] == tools@[i as int].name@);
        if same_text(tools[i].name.as_str(), name) {
            return true;
        }
        i = i + 1;
    }
    false
}

/// The tools offered to the model: the configured tools, then each router
/// tool whose name is not taken yet.
pub fn merge_tool_definitions(configured: Vec<ToolDefinition>, router: Vec<ToolDefinition>) -> (tools: Vec<
    ToolDefinition,
>)
    ensures
        tools@ == configured@ + joining_tools(tool_names(configured@), router@, router.len() as int),
{
    let ghost names = tool_names(configured@);
    let ghost conf = configured@;
    let ghost rt = router@;
    let n = router.len();
    let mut tools = configured;
    let mut joined: Vec<ToolDefinition> = Vec::new();
    let mut router = router;
    let mut k: usize = 0;
    while k < n
        invariant
            k <= n,
            n == rt.len(),
            router@ == rt.skip(k as int),
            tools@ == conf,
            names == tool_names(conf),
            joined@ == joining_tools(names, rt, k as int),
        decreases n - k,
    {
        let tool = router.remove(0);
        proof {
            assert(rt.skip(k as int)[0] == tool);
            assert(router@ =~= rt.skip(k as int + 1));
        }
        if !name_listed(&tools, tool.name.as_str()) && !name_listed(&joined, tool.name.as_str()) {
            joined.push(tool);
        }
        k = k + 1;
    }
    tools.append(&mut joined);
    tools
}

// ---------------------------------------------------------------------------
// The order in which holds let calls start
// ---------------------------------------------------------------------------

/// Whether every call that call `i` waits on has completed.
pub open spec fn dependencies_done(wait_edges: Seq<Vec<usize>>, completed: Seq<bool>, i: int) -> bool {
    forall|j: int| 0 <= j < wait_edges[i].len() ==> completed[#[trigger] wait_edges[i]@[j] as int]
}

/// What the batch scheduler does next, per call index.
#[derive(Debug)]
pub struct ScheduleStep {
    /// Calls that never started and end cancelled (the turn was cancelled).
    pub cancel: Vec<bool>,
    /// Calls that start now.
    pub launch: Vec<bool>,
}

/// One scheduling step over a batch: when the turn is cancelled every call
/// that has not started ends cancelled; otherwise every call that has not
/// started and whose dependencies have all completed starts.
pub fn schedule_step(
    wait_edges: &Vec<Vec<usize>>,
    launched: &Vec<bool>,
    completed: &Vec<bool>,
    cancelled: bool,
) -> (step: ScheduleStep)
    requires
        launched.len() == wait_edges.len(),
        completed.len() == wait_edges.len(),
        forall|i: int, j: int| 0 <= i < wait_edges.len() && 0 <= j < wait_edges@[i].len()
            ==> #[trigger] wait_edges@[i]@[j] < wait_edges.len(),
    ensures
        step.cancel.len() == wait_edges.len(),
        step.launch.len() == wait_edges.len(),
        forall|i: int| 0 <= i < wait_edges.len() ==> #[trigger] step.cancel@[i] == (cancelled && !launched@[i]),
        forall|i: int| 0 <= i < wait_edges.len() ==> #[trigger] step.launch@[i] == (!launched@[i] && !cancelled
            && dependencies_done(wait_edges@, completed@, i)),
{
    let n = wait_edges.len();
    let mut cancel: Vec<bool> = Vec::new();
    let mut launch: Vec<bool> = Vec::new();
    let mut i: usize = 0;
    while i < n
        invariant
            i <= n,
            n == wait_edges.len(),
            launched.len() == n,
            completed.len() == n,
            forall|a: int, b: int| 0 <= a < n && 0 <= b < wait_edges@[a].len() ==> #[trigger] wait_edges@[a]@[b] < n,
            cancel.len() == i,
            launch.len() == i,
            forall|x: int| 0 <= x < i ==> #[trigger] cancel@[x] == (cancelled && !launched@[x]),
            forall|x: int| 0 <= x < i ==> #[trigger] launch@[x] == (!launched@[x] && !cancelled
                && dependencies_done(wait_edges@, completed@, x)),
        decreases n - i,
    {
        let deps = &wait_edges[i];
        let mut ready = true;
        let mut j: usize = 0;
        while j < deps.len()
            invariant
                i < n,
                n == wait_edges.len(),
                completed.len() == n,
                *deps == wait_edges@[i as int],
                forall|a: int, b: int| 0 <= a < n && 0 <= b < wait_edges@[a].len() ==> #[trigger] wait_edges@[a]@[b] < n,
                j <= deps.len(),
                ready == (forall|b: int| 0 <= b < j ==> completed@[#[trigger] deps@[b] as int]),
            decreases deps.len() - j,
        {
            if !completed[deps[j]] {
                ready = false;
            }
            j = j + 1;
        }
        assert(ready == dependencies_done(wait_edges@, completed@, i as int));
        cancel.push(cancelled && !launched[i]);
        launch.push(!launched[i] && !cancelled && ready);
        i = i + 1;
    }
    ScheduleStep { cancel, launch }
}

/// The message for a call that the scheduler never ran (its holds formed a cycle).
pub fn unexecuted_call_error(index: usize) -> (error: VerletError)
    ensures
        error matches VerletError::RuntimeExecution(m) && m@ == "tool batch scheduler did not execute call "@
            + decimal(index as nat),
{
    let mut message = String::from_str("tool batch scheduler did not execute call ");
    push_decimal(&mut message, index as u64);
    VerletError::RuntimeExecution(message)
}

// ---------------------------------------------------------------------------
// Outcomes of prepared calls
// ---------------------------------------------------------------------------

/// A call of a batch together with what its request witnessed.
#[derive(Debug)]
pub struct WitnessedToolCall {
    pub tool_call: ProviderToolCall,
    pub snapshot_id: String,
    pub args_fingerprint: Option<String>,
    pub request_event_id: u64,
    pub recovery_action: ToolRecoveryAction,
    pub recovery_source_event_id: Option<u64>,
    pub recovery_fingerprint_mismatch: bool,
}

/// A permission decision taken before a tool ran.
#[derive(Debug)]
pub enum ToolPermissionDecision {
    Allow,
    Deny { reason: String },
}

/// What running a tool produced.
#[derive(Debug)]
pub struct ToolExecutionOutcome {
    pub result: CanonicalMessage,
    pub pre_model_contexts: Vec<String>,
    pub post_model_contexts: Vec<String>,
    pub permission_decision: Option<ToolPermissionDecision>,
    pub duration_ms: u64,
}

/// What preparing one call of a batch amounted to.
#[derive(Debug)]
pub enum PreparedToolCallOutcome {
    Completed {
        call_id: String,
        tool_name: String,
        snapshot_id: String,
        args_fingerprint: Option<String>,
        source_event_id: u64,
        finish_order: u64,
        cancellation: Option<ToolCallCancellation>,
        outcome: ToolExecutionOutcome,
    },
    Denied {
        call_id: String,
        tool_name: String,
        snapshot_id: String,
        args_fingerprint: Option<String>,
        source_event_id: u64,
        finish_order: u64,
        reason: String,
    },
    Suspended {
        call_id: String,
        snapshot_id: String,
        waiting_on_event_id: u64,
        approval_id: Option<String>,
        reason: Option<String>,
    },
    Abandoned,
}

/// The error tool result `CanonicalMessage::tool_result(call, tool, text, true)`:
/// one text block.
pub open spec fn is_error_result(message: CanonicalMessage, call_id: Seq<char>, tool_name: Seq<char>, text: Seq<char>) -> bool {
    match message {
        CanonicalMessage::ToolResult { tool_call_id, tool_name: name, content, is_error } => {
            &&& tool_call_id@ == call_id
            &&& name@ == tool_name
            &&& is_error
            &&& content.len() == 1
            &&& content@[0] matches CanonicalContent::Text { text: t } && t@ == text
        },
        _ => false,
    }
}

/// Whether `outcome` is the completion that stands for a call that could not
/// run: the witnessed call's identity, the given finish order and
/// cancellation, an error result with `reason`, and nothing else.
pub open spec fn is_synthetic_completion(
    outcome: PreparedToolCallOutcome,
    witness: WitnessedToolCall,
    finish_order: u64,
    cancellation: Option<ToolCallCancellation>,
    reason: Seq<char>,
) -> bool {
    match outcome {
        PreparedToolCallOutcome::Completed {
            call_id,
            tool_name,
            snapshot_id,
            args_fingerprint,
            source_event_id,
            finish_order: order,
            cancellation: c,
            outcome,
        } => {
            &&& call_id@ == witness.tool_call.id@
            &&& tool_name@ == witness.tool_call.name@
            &&& snapshot_id@ == witness.snapshot_id@
            &&& args_fingerprint == witness.args_fingerprint
            &&& source_event_id == witness.request_event_id
            &&& order == finish_order
            &&& c == cancellation
            &&& is_error_result(outcome.result, witness.tool_call.id@, witness.tool_call.name@, reason)
            &&& outcome.pre_model_contexts.len() == 0
            &&& outcome.post_model_contexts.len() == 0
            &&& outcome.permission_decision is None
            &&& outcome.duration_ms == 0
        },
        _ => false,
    }
}

pub(crate) fn error_result(call_id: &String, tool_name: &String, reason: &str) -> (message: CanonicalMessage)
    ensures
        is_error_result(message, call_id@, tool_name@, reason@),
{
    let mut content: Vec<CanonicalContent> = Vec::new();
    content.push(CanonicalContent::Text { text: String::from_str(reason) });
    CanonicalMessage::ToolResult {
        tool_call_id: call_id.clone(),
        tool_name: tool_name.clone(),
        content,
        is_error: true,
    }
}

/// The completion recorded for a call that was cancelled: an error result
/// carrying `reason`, marked with the cancellation.
pub fn cancelled_tool_call_outcome(
    witness: &WitnessedToolCall,
    finish_order: u64,
    cancellation: ToolCallCancellation,
    reason: &str,
) -> (outcome: PreparedToolCallOutcome)
    ensures
        is_synthetic_completion(outcome, *witness, finish_order, Some(cancellation), reason@),
{
    PreparedToolCallOutcome::Completed {
        call_id: witness.tool_call.id.clone(),
        tool_name: witness.tool_call.name.clone(),
        snapshot_id: witness.snapshot_id.clone(),
        args_fingerprint: match &witness.args_fingerprint {
            Some(f) => Some(f.clone()),
            None => None,
        },
        source_event_id: witness.request_event_id,
        finish_order,
        cancellation: Some(cancellation),
        outcome: ToolExecutionOutcome {
            result: error_result(&witness.tool_call.id, &witness.tool_call.name, reason),
            pre_model_contexts: Vec::new(),
            post_model_contexts: Vec::new(),
            permission_decision: None,
            duration_ms: 0,
        },
    }
}

/// The completion recorded for a call that failed without running: an error
/// result carrying `reason`, without a cancellation mark.
pub fn failed_tool_call_outcome(witness: &WitnessedToolCall, finish_order: u64, reason: &str) -> (outcome:
    PreparedToolCallOutcome)
    ensures
        is_synthetic_completion(outcome, *witness, finish_order, None, reason@),
{
    let outcome = cancelled_tool_call_outcome(
        witness,
        finish_order,
        ToolCallCancellation::CancelledAcknowledged,
        reason,
    );
    match outcome {
        PreparedToolCallOutcome::Completed {
            call_id,
            tool_name,
            snapshot_id,
            args_fingerprint,
            source_event_id,
            finish_order,
            outcome,
            ..
        } => PreparedToolCallOutcome::Completed {
            call_id,
            tool_name,
            snapshot_id,
            args_fingerprint,
            source_event_id,
            finish_order,
            cancellation: None,
            outcome,
        },
        other => other,
    }
}

/// The reason a call awaiting a controller decision is cancelled with, when
/// the controller gave none.
pub open spec fn awaiting_decision_reason() -> Seq<char> {
    "tool call was cancelled while awaiting a controller decision"@
}

/// How a prepared call settles once its invocation was cancelled. A
/// completion keeps its result and takes the cancellation mark; a denial and
/// a suspension become cancelled completions (a denial keeps its finish order
/// and reason; a suspension takes `next_finish_order` and its reason, or a
/// default); an abandoned call stays abandoned; a failure (rendered as
/// `failure`) becomes a cancelled completion taking `next_finish_order`. The
/// flag says whether `next_finish_order` was taken.
pub fn settle_prepared_for_cancellation(
    outcome: Result<PreparedToolCallOutcome, String>,
    witness: &WitnessedToolCall,
    next_finish_order: u64,
    cancellation: ToolCallCancellation,
) -> (settled: (PreparedToolCallOutcome, bool))
    ensures
        match outcome {
            Ok(PreparedToolCallOutcome::Completed { call_id, tool_name, snapshot_id, args_fingerprint, source_event_id, finish_order, outcome, .. }) =>
                settled == (PreparedToolCallOutcome::Completed {
                    call_id, tool_name, snapshot_id, args_fingerprint, source_event_id, finish_order,
                    cancellation: Some(cancellation), outcome,
                }, false),
            Ok(PreparedToolCallOutcome::Denied { finish_order, reason, .. }) =>
                is_synthetic_completion(settled.0, *witness, finish_order, Some(cancellation), reason@) && !settled.1,
            Ok(PreparedToolCallOutcome::Suspended { reason, .. }) =>
                is_synthetic_completion(settled.0, *witness, next_finish_order, Some(cancellation), match reason {
                    Some(r) => r@,
                    None => awaiting_decision_reason(),
                }) && settled.1,
            Ok(PreparedToolCallOutcome::Abandoned) => settled == (PreparedToolCallOutcome::Abandoned, false),
            Err(failure) => is_synthetic_completion(settled.0, *witness, next_finish_order, Some(cancellation),
                "cancelled tool invocation failed: "@ + failure@) && settled.1,
        },
{
    match outcome {
        Ok(PreparedToolCallOutcome::Completed { call_id, tool_name, snapshot_id, args_fingerprint, source_event_id, finish_order, outcome, .. }) =>
            (PreparedToolCallOutcome::Completed {
                call_id, tool_name, snapshot_id, args_fingerprint, source_event_id, finish_order,
                cancellation: Some(cancellation), outcome,
            }, false),
        Ok(PreparedToolCallOutcome::Denied { finish_order, reason, .. }) =>
            (cancelled_tool_call_outcome(witness, finish_order, cancellation, reason.as_str()), false),
        Ok(PreparedToolCallOutcome::Suspended { reason, .. }) => {
            let outcome = match &reason {
                Some(r) => cancelled_tool_call_outcome(witness, next_finish_order, cancellation, r.as_str()),
                None => cancelled_tool_call_outcome(
                    witness,
                    next_finish_order,
                    cancellation,
                    "tool call was cancelled while awaiting a controller decision",
                ),
            };
            (outcome, true)
        },
        Ok(PreparedToolCallOutcome::Abandoned) => (PreparedToolCallOutcome::Abandoned, false),
        Err(failure) => {
            let mut reason = String::from_str("cancelled tool invocation failed: ");
            push_str(&mut reason, failure.as_str());
            (cancelled_tool_call_outcome(witness, next_finish_order, cancellation, reason.as_str()), true)
        },
    }
}

// ---------------------------------------------------------------------------
// Preparing one call
// ---------------------------------------------------------------------------

/// How a call is prepared, before any controller is asked.
#[derive(Debug)]
pub enum RecoveryPreparation {
    /// Reuse the canonical result recorded under this request event.
    ReuseRecorded { source_event_id: u64 },
    /// Record a failed completion with this reason instead of running the call.
    FailConservatively { reason: String },
    /// Consult the tool's controller and run the call.
    Execute,
}

/// The reason of a conservative failure.
pub open spec fn conservative_failure_reason(fingerprint_mismatch: bool) -> Seq<char> {
    if fingerprint_mismatch {
        "tool invocation recovery found a fingerprint mismatch; effect class at-most-once forbids automatic re-execution"@
    } else {
        "tool invocation was interrupted before a witnessed outcome; effect class at-most-once forbids automatic re-execution"@
    }
}

/// Decides how a witnessed call is prepared from its recovery action; a reuse
/// without a recorded result is a history error.
pub fn recovery_preparation(witness: &WitnessedToolCall, turn_id: &str) -> (prep: Result<RecoveryPreparation, VerletError>)
    ensures
        match witness.recovery_action {
            ToolRecoveryAction::Reuse => match witness.recovery_source_event_id {
                Some(source) => prep == Ok::<RecoveryPreparation, VerletError>(RecoveryPreparation::ReuseRecorded { source_event_id: source }),
                None => prep matches Err(VerletError::History(m)) && m@ == "recorded tool outcome for "@ + turn_id@ + "/"@
                    + witness.tool_call.id@ + " has no reusable canonical result"@,
            },
            ToolRecoveryAction::ConservativeFailure => prep matches Ok(RecoveryPreparation::FailConservatively { reason })
                && reason@ == conservative_failure_reason(witness.recovery_fingerprint_mismatch),
            ToolRecoveryAction::Reexecute => prep matches Ok(RecoveryPreparation::Execute),
        },
{
    match witness.recovery_action {
        ToolRecoveryAction::Reuse => match witness.recovery_source_event_id {
            Some(source) => Ok(RecoveryPreparation::ReuseRecorded { source_event_id: source }),
            None => {
                let mut message = String::from_str("recorded tool outcome for ");
                push_str(&mut message, turn_id);
                push_str(&mut message, "/");
                push_str(&mut message, witness.tool_call.id.as_str());
                push_str(&mut message, " has no reusable canonical result");
                Err(VerletError::History(message))
            },
        },
        ToolRecoveryAction::ConservativeFailure => {
            let reason = if witness.recovery_fingerprint_mismatch {
                String::from_str("tool invocation recovery found a fingerprint mismatch; effect class at-most-once forbids automatic re-execution")
            } else {
                String::from_str("tool invocation was interrupted before a witnessed outcome; effect class at-most-once forbids automatic re-execution")
            };
            Ok(RecoveryPreparation::FailConservatively { reason })
        },
        ToolRecoveryAction::Reexecute => Ok(RecoveryPreparation::Execute),
    }
}

/// A tool controller's decision about one call.
#[derive(Debug)]
pub enum ToolCallDecision {
    NoDecision,
    Allow { consumed_fact_id: u64 },
    Rewrite { consumed_fact_id: u64, arguments: serde_json::Value },
    Deny { consumed_fact_id: Option<u64>, reason: String },
    Wait { consumed_fact_id: u64, approval_id: Option<String>, reason: Option<String> },
}

/// What a controller's decision makes of a call about to run.
#[derive(Debug)]
pub enum ControlledExecution {
    /// Record a denial with this reason.
    Deny { reason: String },
    /// Run the call with these arguments.
    Run { arguments: serde_json::Value },
    /// Suspend the call until the fact it waits on arrives.
    Suspend { waiting_on_event_id: u64, approval_id: Option<String>, reason: Option<String> },
}

/// Applies a controller's decision to a call with `arguments`: no terminal
/// decision denies fail-closed, an allowance runs the call as is, a rewrite
/// runs it with the rewritten arguments, a denial denies, a wait suspends.
pub fn controlled_execution(decision: ToolCallDecision, arguments: serde_json::Value) -> (plan: ControlledExecution)
    ensures
        match decision {
            ToolCallDecision::NoDecision => plan matches ControlledExecution::Deny { reason }
                && reason@ == "tool controller did not emit a terminal decision"@,
            ToolCallDecision::Allow { .. } => plan == (ControlledExecution::Run { arguments }),
            ToolCallDecision::Rewrite { arguments: rewritten, .. } => plan == (ControlledExecution::Run { arguments: rewritten }),
            ToolCallDecision::Deny { reason, .. } => plan == (ControlledExecution::Deny { reason }),
            ToolCallDecision::Wait { consumed_fact_id, approval_id, reason } => plan == (ControlledExecution::Suspend {
                waiting_on_event_id: consumed_fact_id,
                approval_id,
                reason,
            }),
        },
{
    match decision {
        ToolCallDecision::NoDecision => ControlledExecution::Deny {
            reason: String::from_str("tool controller did not emit a terminal decision"),
        },
        ToolCallDecision::Allow { .. } => ControlledExecution::Run { arguments },
        ToolCallDecision::Rewrite { arguments: rewritten, .. } => ControlledExecution::Run { arguments: rewritten },
        ToolCallDecision::Deny { reason, .. } => ControlledExecution::Deny { reason },
        ToolCallDecision::Wait { consumed_fact_id, approval_id, reason } => ControlledExecution::Suspend {
            waiting_on_event_id: consumed_fact_id,
            approval_id,
            reason,
        },
    }
}

/// What resuming a suspended call does.
#[derive(Debug)]
pub enum ResumedToolCallAction {
    Execute(serde_json::Value),
    Deny(String),
}

/// Applies a controller's decision to a suspended call: no decision or a wait
/// keeps it waiting (`None`); otherwise the fact the decision consumed (a
/// denial without one consumes the request itself) and the action.
pub fn resumed_tool_call_action(
    decision: ToolCallDecision,
    request_event_id: u64,
    request_arguments: serde_json::Value,
) -> (action: Option<(u64, ResumedToolCallAction)>)
    ensures
        match decision {
            ToolCallDecision::NoDecision | ToolCallDecision::Wait { .. } => action is None,
            ToolCallDecision::Allow { consumed_fact_id } => action == Some((consumed_fact_id, ResumedToolCallAction::Execute(request_arguments))),
            ToolCallDecision::Rewrite { consumed_fact_id, arguments } => action == Some((consumed_fact_id, ResumedToolCallAction::Execute(arguments))),
            ToolCallDecision::Deny { consumed_fact_id, reason } => action == Some((
                match consumed_fact_id {
                    Some(id) => id,
                    None => request_event_id,
                },
                ResumedToolCallAction::Deny(reason),
            )),
        },
{
    match decision {
        ToolCallDecision::NoDecision | ToolCallDecision::Wait { .. } => None,
        ToolCallDecision::Allow { consumed_fact_id } => Some((consumed_fact_id, ResumedToolCallAction::Execute(request_arguments))),
        ToolCallDecision::Rewrite { consumed_fact_id, arguments } => Some((consumed_fact_id, ResumedToolCallAction::Execute(arguments))),
        ToolCallDecision::Deny { consumed_fact_id, reason } => Some((
            match consumed_fact_id {
                Some(id) => id,
                None => request_event_id,
            },
            ResumedToolCallAction::Deny(reason),
        )),
    }
}

// ---------------------------------------------------------------------------
// Appending a batch's results
// ---------------------------------------------------------------------------

/// The index of the first failed outcome.
pub open spec fn first_failure(outcomes: Seq<Result<PreparedToolCallOutcome, VerletError>>, from: int) -> Option<int>
    decreases outcomes.len() - from,
{
    if from < 0 || from >= outcomes.len() {
        None
    } else if outcomes[from] is Err {
        Some(from)
    } else {
        first_failure(outcomes, from + 1)
    }
}

/// Whether some outcome is a suspension.
pub open spec fn any_suspended(outcomes: Seq<Result<PreparedToolCallOutcome, VerletError>>) -> bool {
    exists|i: int| 0 <= i < outcomes.len() && #[trigger] outcomes[i] matches Ok(PreparedToolCallOutcome::Suspended { .. })
}

/// What appending a batch amounts to once every prepared outcome was appended
/// (failed outcomes are skipped): the first failure, else a suspension if any
/// call is suspended, else appended results.
pub fn batch_append_outcome(outcomes: Vec<Result<PreparedToolCallOutcome, VerletError>>) -> (appended: Result<
    ToolAppendOutcome,
    VerletError,
>)
    ensures
        match first_failure(outcomes@, 0) {
            Some(i) => appended matches Err(e) && outcomes@[i] == Err::<PreparedToolCallOutcome, VerletError>(e),
            None => appended == Ok::<ToolAppendOutcome, VerletError>(if any_suspended(outcomes@) {
                ToolAppendOutcome::Suspended
            } else {
                ToolAppendOutcome::AppendedResults
            }),
        },
{
    let ghost original = outcomes@;
    let n = outcomes.len();
    let mut outcomes = outcomes;
    let mut suspended = false;
    let mut first_error: Option<VerletError> = None;
    let mut i: usize = 0;
    while i < n
        invariant
            i <= n,
            n == original.len(),
            outcomes@ == original.skip(i as int),
            suspended == exists|m: int| 0 <= m < i && #[trigger] original[m] matches Ok(PreparedToolCallOutcome::Suspended { .. }),
            match first_error {
                Some(e) => first_failure(original, 0) matches Some(f) && f < i && original[f] == Err::<PreparedToolCallOutcome, VerletError>(e),
                None => first_failure(original, 0) == first_failure(original, i as int),
            },
        decreases n - i,
    {
        let outcome = outcomes.remove(0);
        proof {
            assert(original.skip(i as int)[0] == outcome);
            assert(outcomes@ =~= original.skip(i as int + 1));
        }
        match outcome {
            Err(e) => {
                if first_error.is_none() {
                    first_error = Some(e);
                }
            },
            Ok(PreparedToolCallOutcome::Suspended { .. }) => {
                suspended = true;
            },
            Ok(_) => {},
        }
        i = i + 1;
    }
    match first_error {
        Some(e) => Err(e),
        None => Ok(if suspended { ToolAppendOutcome::Suspended } else { ToolAppendOutcome::AppendedResults }),
    }
}

/// The static segments a context receipt lists: the manifest's static
/// segments, then the skill segments.
pub fn context_receipt_static_segments<T>(static_segments: Vec<T>, skill_segments: Vec<T>) -> (segments: Vec<T>)
    ensures
        segments@ == static_segments@ + skill_segments@,
{
    let mut segments = static_segments;
    let mut skills = skill_segments;
    segments.append(&mut skills);
    segments
}

/// The message of a tool invocation's panic: the payload's text when the
/// payload is a string (`payload_text`), else a fixed message.
pub fn panic_payload_message(payload_text: Option<String>) -> (message: String)
    ensures
        message@ == match payload_text {
            Some(text) => text@,
            None => "non-string panic payload"@,
        },
{
    match payload_text {
        Some(text) => text,
        None => String::from_str("non-string panic payload"),
    }
}

/// Whether a tool result reports success: a tool-result message that is not
/// an error.
pub open spec fn result_succeeded(result: CanonicalMessage) -> bool {
    result matches CanonicalMessage::ToolResult { is_error, .. } && !is_error
}

/// The level of a tool's log line.
#[derive(Clone, Copy, Debug, PartialEq, Eq, Structural)]
pub enum ToolLogLevel {
    Info,
    Error,
}

/// The log line recorded when a tool finishes: whether it succeeded, and the
/// level and message that say so.
pub fn tool_completion_log(result: &CanonicalMessage) -> (log: (bool, ToolLogLevel, String))
    ensures
        log.0 == result_succeeded(*result),
        log.1 == (if log.0 {
            ToolLogLevel::Info
        } else {
            ToolLogLevel::Error
        }),
        log.2@ == (if log.0 {
            "tool completed"@
        } else {
            "tool failed"@
        }),
{
    let success = match result {
        CanonicalMessage::ToolResult { is_error, .. } => !*is_error,
        _ => false,
    };
    if success {
        (true, ToolLogLevel::Info, String::from_str("tool completed"))
    } else {
        (false, ToolLogLevel::Error, String::from_str("tool failed"))
    }
}

} // verus!
