//! The decisions of a provider turn: the tool-round budget, what follows an
//! assistant message and a tool batch, and how a round concludes.

use vstd::prelude::*;
use crate::commands::{ToolAppendOutcome, ToolBatchAwaitOutcome};
use crate::events::VerletError;
use crate::text::{decimal, push_decimal, push_str, same_text};

verus! {

/// Tool rounds a runtime allows unless its thread says otherwise.
pub const MAX_TOOL_ROUTER_ROUNDS: usize = 8;

/// The budget that is exhausted after `completed_rounds` rounds, if any.
pub open spec fn exhausted_budget(max_tool_rounds: Option<usize>, completed_rounds: usize) -> Option<usize> {
    match max_tool_rounds {
        Some(max) => if completed_rounds >= max { Some(max) } else { None },
        None => None,
    }
}

/// The round budget, when the completed rounds have used it up.
pub fn exhausted_tool_round_budget(max_tool_rounds: Option<usize>, completed_rounds: usize) -> (exhausted:
    Option<usize>)
    ensures
        exhausted == exhausted_budget(max_tool_rounds, completed_rounds),
{
    match max_tool_rounds {
        Some(max) => if completed_rounds >= max { Some(max) } else { None },
        None => None,
    }
}

/// A budget of `max` rounds lets exactly `max` tool rounds run: tools run
/// while fewer rounds completed and never after; no budget never runs out.
pub proof fn lemma_round_budget_allows_exactly_max_rounds(max_tool_rounds: Option<usize>, completed_rounds: usize)
    ensures
        max_tool_rounds matches Some(max) ==> (exhausted_budget(max_tool_rounds, completed_rounds) is None
            <==> completed_rounds < max),
        max_tool_rounds is None ==> exhausted_budget(max_tool_rounds, completed_rounds) is None,
{
}

/// The endpoint a turn runs on: the one the turn's endpoint router resolved
/// when the turn started, if it resolved one, else the endpoint the loop was
/// launched with. The turn keeps it for all its requests, whatever the
/// router resolves meanwhile.
pub fn turn_endpoint<E>(resolved: Option<E>, launch: E) -> (endpoint: E)
    ensures
        endpoint == match resolved {
            Some(e) => e,
            None => launch,
        },
{
    match resolved {
        Some(e) => e,
        None => launch,
    }
}

/// What follows a persisted assistant message.
#[derive(Debug)]
pub enum AssistantFollowUp {
    /// No tools to run: the round is over.
    Done,
    /// The tool-round budget is used up: the turn fails with code
    /// `tool_router` and this reason.
    BudgetExceeded { reason: String },
    /// Run the requested tools.
    RunTools,
}

/// The failure reason of an exhausted round budget.
pub open spec fn budget_exceeded_reason(max: usize) -> Seq<char> {
    "tool router exceeded "@ + decimal(max as nat) + " rounds"@
}

/// Decides what follows an assistant message that requested
/// `tool_call_count` tools after `tool_rounds` completed rounds.
pub fn assistant_follow_up(
    has_tool_router: bool,
    tool_call_count: usize,
    max_tool_rounds: Option<usize>,
    tool_rounds: usize,
) -> (follow: AssistantFollowUp)
    ensures
        !(has_tool_router && tool_call_count > 0) ==> follow is Done,
        has_tool_router && tool_call_count > 0 ==> match exhausted_budget(max_tool_rounds, tool_rounds) {
            Some(max) => follow matches AssistantFollowUp::BudgetExceeded { reason } && reason@
                == budget_exceeded_reason(max),
            None => follow is RunTools,
        },
{
    if !(has_tool_router && tool_call_count > 0) {
        return AssistantFollowUp::Done;
    }
    match exhausted_tool_round_budget(max_tool_rounds, tool_rounds) {
        Some(max) => {
            let mut reason = String::from_str("tool router exceeded ");
            push_decimal(&mut reason, max as u64);
            push_str(&mut reason, " rounds");
            AssistantFollowUp::BudgetExceeded { reason }
        },
        None => AssistantFollowUp::RunTools,
    }
}

/// What a round does with the outcome of its tool batch.
#[derive(Debug)]
pub enum TurnBatchReaction {
    /// No tool ran: the round goes on to its conclusion.
    NoTools,
    /// Results were appended: one more round is taken and the turn continues.
    NextRound,
    /// A call is suspended: the turn pauses.
    Suspend,
    /// The batch failed: the round fails with code `tool_router`.
    FailRound { error: VerletError },
    /// The batch was cancelled: the turn ends cancelled (already recorded).
    EndCancelled { reason: String },
    /// Shutdown arrived during the batch: the thread stops.
    EndStopped,
    /// A command failed during the batch: the thread fails with this code.
    EndFailed { code: String, reason: String },
}

/// The reaction of a round to its tool batch's outcome.
pub fn turn_batch_reaction(outcome: ToolBatchAwaitOutcome) -> (reaction: TurnBatchReaction)
    ensures
        match outcome {
            ToolBatchAwaitOutcome::Completed(Ok(ToolAppendOutcome::NoTools)) => reaction is NoTools,
            ToolBatchAwaitOutcome::Completed(Ok(ToolAppendOutcome::AppendedResults)) => reaction is NextRound,
            ToolBatchAwaitOutcome::Completed(Ok(ToolAppendOutcome::Suspended)) => reaction is Suspend,
            ToolBatchAwaitOutcome::Completed(Err(error)) => reaction == (TurnBatchReaction::FailRound { error }),
            ToolBatchAwaitOutcome::Cancelled { reason } => reaction == (TurnBatchReaction::EndCancelled { reason }),
            ToolBatchAwaitOutcome::Shutdown => reaction is EndStopped,
            ToolBatchAwaitOutcome::Failed { code, reason } => reaction == (TurnBatchReaction::EndFailed { code, reason }),
        },
{
    match outcome {
        ToolBatchAwaitOutcome::Completed(Ok(ToolAppendOutcome::NoTools)) => TurnBatchReaction::NoTools,
        ToolBatchAwaitOutcome::Completed(Ok(ToolAppendOutcome::AppendedResults)) => TurnBatchReaction::NextRound,
        ToolBatchAwaitOutcome::Completed(Ok(ToolAppendOutcome::Suspended)) => TurnBatchReaction::Suspend,
        ToolBatchAwaitOutcome::Completed(Err(error)) => TurnBatchReaction::FailRound { error },
        ToolBatchAwaitOutcome::Cancelled { reason } => TurnBatchReaction::EndCancelled { reason },
        ToolBatchAwaitOutcome::Shutdown => TurnBatchReaction::EndStopped,
        ToolBatchAwaitOutcome::Failed { code, reason } => TurnBatchReaction::EndFailed { code, reason },
    }
}

/// The reaction to a batch replayed when a turn resumes: like
/// `turn_batch_reaction`, except that appended results only let the turn
/// proceed and a batch without tools proceeds too.
pub fn resumed_batch_reaction(outcome: ToolBatchAwaitOutcome) -> (reaction: TurnBatchReaction)
    ensures
        match outcome {
            ToolBatchAwaitOutcome::Completed(Ok(ToolAppendOutcome::Suspended)) => reaction is Suspend,
            ToolBatchAwaitOutcome::Completed(Ok(_)) => reaction is NoTools,
            ToolBatchAwaitOutcome::Completed(Err(error)) => reaction == (TurnBatchReaction::FailRound { error }),
            ToolBatchAwaitOutcome::Cancelled { reason } => reaction == (TurnBatchReaction::EndCancelled { reason }),
            ToolBatchAwaitOutcome::Shutdown => reaction is EndStopped,
            ToolBatchAwaitOutcome::Failed { code, reason } => reaction == (TurnBatchReaction::EndFailed { code, reason }),
        },
{
    match outcome {
        ToolBatchAwaitOutcome::Completed(Ok(ToolAppendOutcome::Suspended)) => TurnBatchReaction::Suspend,
        ToolBatchAwaitOutcome::Completed(Ok(_)) => TurnBatchReaction::NoTools,
        ToolBatchAwaitOutcome::Completed(Err(error)) => TurnBatchReaction::FailRound { error },
        ToolBatchAwaitOutcome::Cancelled { reason } => TurnBatchReaction::EndCancelled { reason },
        ToolBatchAwaitOutcome::Shutdown => TurnBatchReaction::EndStopped,
        ToolBatchAwaitOutcome::Failed { code, reason } => TurnBatchReaction::EndFailed { code, reason },
    }
}

/// What a provider-turn round gathered before it concludes.
#[derive(Debug)]
pub struct TurnRoundState {
    pub terminal_join_recorded: bool,
    pub shutdown_after_turn: bool,
    pub failed: bool,
    pub failure_code: Option<String>,
    pub failure_reason: Option<String>,
    pub emit_failure_signal: bool,
    pub continue_after_tools: bool,
    pub suspended_after_tools: bool,
}

/// How a provider-turn round concludes.
#[derive(Debug)]
pub enum TurnConclusion {
    /// The turn was cancelled: record the cancelled `thread.joined` when
    /// `record_terminal`, report the cancellation, return to idle.
    Cancelled { reason: String, record_terminal: bool },
    /// Shutdown: emit the stopped terminal and stop the thread.
    Stopped,
    /// Failure: record the failed `thread.joined` when `record_terminal`,
    /// signal it when `emit_signal`, and fail the thread with `code`.
    Failed { code: String, reason: String, record_terminal: bool, emit_signal: bool },
    /// A tool call is suspended: return to idle.
    Suspended,
    /// Tool results were appended: assemble the next round.
    NextRound,
    /// The turn is done: run the stop hooks and record its completion.
    Complete,
}

/// The conclusion of a round whose turn was cancelled.
pub fn cancelled_round_conclusion(reason: String, terminal_join_recorded: bool) -> (conclusion: TurnConclusion)
    ensures
        conclusion == (TurnConclusion::Cancelled { reason, record_terminal: !terminal_join_recorded }),
{
    TurnConclusion::Cancelled { reason, record_terminal: !terminal_join_recorded }
}

/// The default failure reason of a round.
pub open spec fn default_failure_reason() -> Seq<char> {
    "provider turn failed without reason detail"@
}

/// Decides how a round that was not cancelled concludes: shutdown wins, then
/// failure, then suspension, then another round, else completion.
pub fn conclude_turn_round(state: TurnRoundState) -> (conclusion: TurnConclusion)
    ensures
        state.shutdown_after_turn ==> conclusion is Stopped,
        !state.shutdown_after_turn && state.failed ==> (conclusion matches TurnConclusion::Failed {
            code,
            reason,
            record_terminal,
            emit_signal,
        } && code@ == (match state.failure_code {
            Some(c) => c@,
            None => "runtime_execution"@,
        }) && reason@ == (match state.failure_reason {
            Some(r) => r@,
            None => default_failure_reason(),
        }) && record_terminal == !state.terminal_join_recorded && emit_signal == state.emit_failure_signal),
        !state.shutdown_after_turn && !state.failed && state.suspended_after_tools ==> conclusion is Suspended,
        !state.shutdown_after_turn && !state.failed && !state.suspended_after_tools && state.continue_after_tools
            ==> conclusion is NextRound,
        !state.shutdown_after_turn && !state.failed && !state.suspended_after_tools && !state.continue_after_tools
            ==> conclusion is Complete,
{
    if state.shutdown_after_turn {
        return TurnConclusion::Stopped;
    }
    if state.failed {
        let reason = match state.failure_reason {
            Some(reason) => reason,
            None => String::from_str("provider turn failed without reason detail"),
        };
        let code = match state.failure_code {
            Some(code) => code,
            None => String::from_str("runtime_execution"),
        };
        return TurnConclusion::Failed {
            code,
            reason,
            record_terminal: !state.terminal_join_recorded,
            emit_signal: state.emit_failure_signal,
        };
    }
    if state.suspended_after_tools {
        return TurnConclusion::Suspended;
    }
    if state.continue_after_tools {
        return TurnConclusion::NextRound;
    }
    TurnConclusion::Complete
}

/// Whether a suspension of the turn is still pending: the turn then stays
/// paused instead of running.
pub fn turn_has_pending_suspension(suspended_turn_ids: &Vec<String>, turn_id: &str) -> (pending: bool)
    ensures
        pending == exists|i: int| 0 <= i < suspended_turn_ids.len() && #[trigger] suspended_turn_ids@[i]@ == turn_id@,
{
    let mut i: usize = 0;
    while i < suspended_turn_ids.len()
        invariant
            i <= suspended_turn_ids.len(),
            forall|m: int| 0 <= m < i ==> #[trigger] suspended_turn_ids@[m]@ != turn_id@,
        decreases suspended_turn_ids.len() - i,
    {
        if same_text(suspended_turn_ids[i].as_str(), turn_id) {
            return true;
        }
        i = i + 1;
    }
    false
}

// ---------------------------------------------------------------------------
// The round budget a thread asks for
// ---------------------------------------------------------------------------

/// Why a decimal text is not an unsigned integer (as `ParseIntError` reports it).
#[derive(Clone, Copy, Debug, PartialEq, Eq, Structural)]
pub enum IntParseFailure {
    Empty,
    InvalidDigit,
    PosOverflow,
}

/// The digit value of `c`, if it is an ASCII digit.
pub open spec fn digit_value(c: char) -> Option<nat> {
    if '0' <= c && c <= '9' { Some((c as nat - '0' as nat) as nat) } else { None }
}

/// Parsing `text[from..]` onto `acc`, character by character: an invalid
/// character fails first, then a value above `usize::MAX`.
pub open spec fn parse_digits(text: Seq<char>, from: int, acc: nat) -> Result<nat, IntParseFailure>
    decreases text.len() - from,
{
    if from < 0 || from >= text.len() {
        Ok(acc)
    } else {
        match digit_value(text[from]) {
            None => Err(IntParseFailure::InvalidDigit),
            Some(d) => if acc * 10 + d > usize::MAX {
                Err(IntParseFailure::PosOverflow)
            } else {
                parse_digits(text, from + 1, acc * 10 + d)
            },
        }
    }
}

proof fn lemma_parse_digits_bounded(text: Seq<char>, from: int, acc: nat)
    requires
        acc <= usize::MAX,
    ensures
        parse_digits(text, from, acc) matches Ok(v) ==> v <= usize::MAX,
    decreases text.len() - from,
{
    if 0 <= from < text.len() {
        if let Some(d) = digit_value(text[from]) {
            if acc * 10 + d <= usize::MAX {
                lemma_parse_digits_bounded(text, from + 1, acc * 10 + d);
            }
        }
    }
}

/// `usize::from_str`: decimal digits after an optional `+`.
pub open spec fn parse_usize(text: Seq<char>) -> Result<nat, IntParseFailure> {
    if text.len() == 0 {
        Err(IntParseFailure::Empty)
    } else if text[0] == '+' {
        if text.len() == 1 {
            Err(IntParseFailure::InvalidDigit)
        } else {
            parse_digits(text, 1, 0)
        }
    } else {
        parse_digits(text, 0, 0)
    }
}

/// Parses an unsigned decimal integer as `usize::from_str` does.
pub fn parse_usize_decimal(text: &str) -> (parsed: Result<usize, IntParseFailure>)
    ensures
        match parse_usize(text@) {
            Ok(v) => parsed == Ok::<usize, IntParseFailure>(v as usize),
            Err(f) => parsed == Err::<usize, IntParseFailure>(f),
        },
{
    let n = text.unicode_len();
    if n == 0 {
        return Err(IntParseFailure::Empty);
    }
    let mut i: usize = 0;
    if text.get_char(0) == '+' {
        if n == 1 {
            return Err(IntParseFailure::InvalidDigit);
        }
        i = 1;
    }
    let start = i;
    let mut acc: usize = 0;
    while i < n
        invariant
            start <= i <= n,
            n == text@.len(),
            parse_usize(text@) == parse_digits(text@, i as int, acc as nat),
        decreases n - i,
    {
        let c = text.get_char(i);
        if !('0' <= c && c <= '9') {
            return Err(IntParseFailure::InvalidDigit);
        }
        let d: usize = (c as u32 - '0' as u32) as usize;
        assert(digit_value(c) == Some(d as nat));
        let scaled = match acc.checked_mul(10) {
            Some(v) => v,
            None => {
                return Err(IntParseFailure::PosOverflow);
            },
        };
        acc = match scaled.checked_add(d) {
            Some(v) => v,
            None => {
                return Err(IntParseFailure::PosOverflow);
            },
        };
        i = i + 1;
    }
    Ok(acc)
}

/// The message `ParseIntError` renders for a failure.
pub open spec fn parse_failure_text(failure: IntParseFailure) -> Seq<char> {
    match failure {
        IntParseFailure::Empty => "cannot parse integer from empty string"@,
        IntParseFailure::InvalidDigit => "invalid digit found in string"@,
        IntParseFailure::PosOverflow => "number too large to fit in target type"@,
    }
}

/// The tool-round budget of a thread: its metadata value `unlimited` lifts
/// the limit, a positive integer sets it, no value keeps the runtime's
/// default, and anything else is rejected.
pub open spec fn thread_round_budget(value: Option<Seq<char>>, default: Option<usize>) -> Result<
    Option<usize>,
    Seq<char>,
> {
    match value {
        None => Ok(default),
        Some(v) => if v == "unlimited"@ {
            Ok(None)
        } else {
            match parse_usize(v) {
                Err(f) => Err(
                    "manifest runtime max_tool_rounds metadata is invalid: "@ + parse_failure_text(f),
                ),
                Ok(rounds) => if rounds == 0 {
                    Err("manifest runtime max_tool_rounds metadata must be > 0 or \"unlimited\""@)
                } else {
                    Ok(Some(rounds as usize))
                },
            }
        },
    }
}

/// Resolves the tool-round budget from a thread's
/// `cooldis.agent.runtime.max_tool_rounds` metadata value.
pub fn max_tool_rounds_for_thread(value: Option<&str>, default: Option<usize>) -> (budget: Result<
    Option<usize>,
    VerletError,
>)
    ensures
        match thread_round_budget(
            match value {
                Some(v) => Some(v@),
                None => None,
            },
            default,
        ) {
            Ok(b) => budget == Ok::<Option<usize>, VerletError>(b),
            Err(message) => budget matches Err(VerletError::RuntimeFactory(m)) && m@ == message,
        },
{
    let v = match value {
        None => {
            return Ok(default);
        },
        Some(v) => v,
    };
    proof {
        lemma_parse_digits_bounded(v@, 0, 0);
        lemma_parse_digits_bounded(v@, 1, 0);
    }
    if same_text(v, "unlimited") {
        return Ok(None);
    }
    match parse_usize_decimal(v) {
        Err(failure) => {
            let mut message = String::from_str("manifest runtime max_tool_rounds metadata is invalid: ");
            match failure {
                IntParseFailure::Empty => push_str(&mut message, "cannot parse integer from empty string"),
                IntParseFailure::InvalidDigit => push_str(&mut message, "invalid digit found in string"),
                IntParseFailure::PosOverflow => push_str(
                    &mut message,
                    "number too large to fit in target type",
                ),
            }
            Err(VerletError::RuntimeFactory(message))
        },
        Ok(rounds) => {
            if rounds == 0 {
                Err(
                    VerletError::RuntimeFactory(
                        String::from_str(
                            "manifest runtime max_tool_rounds metadata must be > 0 or \"unlimited\"",
                        ),
                    ),
                )
            } else {
                Ok(Some(rounds))
            }
        },
    }
}

} // verus!
