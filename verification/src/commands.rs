//! What the loop does with each thread command: while idle, while a provider
//! turn is active, and while a tool batch is being prepared or committed.

use vstd::prelude::*;
use crate::events::VerletError;
use crate::text::{decimal, push_decimal, push_str};

verus! {

/// How a submitted turn relates to an active one.
#[derive(Clone, Copy, Debug, PartialEq, Eq, Structural)]
pub enum TurnSubmissionMode {
    Queue,
    Steer,
    Interrupt,
}

/// What triggered a compaction.
#[derive(Clone, Copy, Debug, PartialEq, Eq, Structural)]
pub enum CompactionTrigger {
    Manual,
    Auto,
}

/// The input of a turn.
#[derive(Debug)]
pub struct TurnInput {
    pub text: String,
    pub watchdog_id: Option<String>,
}

/// A command sent to a thread.
#[derive(Debug)]
pub enum ThreadCommand {
    Submit { turn_id: String, input: TurnInput, mode: TurnSubmissionMode },
    Compact { turn_id: String, trigger: CompactionTrigger, summary: Option<String> },
    ResumeToolCall { turn_id: String, call_id: String },
    Cancel { reason: String },
    CancelTurn { watchdog_token_id: String, reason: String },
    Shutdown,
}

// ---------------------------------------------------------------------------
// Commands while a provider turn is active
// ---------------------------------------------------------------------------

/// How handling a command during an active turn ends.
#[derive(Debug)]
pub enum ActiveProviderCommandOutcome {
    Continue,
    Cancelled { reason: String },
    Shutdown,
    Failed { code: String, reason: String },
}

/// What the loop does with a command that arrives while a turn is active.
#[derive(Debug)]
pub enum ActiveCommandStep {
    /// Mark the thread cancelling, signal the interrupt with `reason`, cancel
    /// the turn; when `cancels` the turn ends cancelled, recording the
    /// cancelled `thread.joined` first when `record_terminal`; otherwise the
    /// turn was already cancelled and the loop continues.
    Cancel { reason: String, record_terminal: bool, cancels: bool },
    /// A watchdog cancellation for another turn: ignored.
    Ignore,
    /// Signal shutdown, emit the stopped terminal, cancel the turn; the turn
    /// ends with shutdown.
    Shutdown,
    /// Signal the queued submission and put the command at the back of the
    /// pending commands; the loop continues.
    Queue { command: ThreadCommand },
    /// Append the steering input to the active turn (see `steer_append_step`).
    Steer { turn_id: String, input: TurnInput },
    /// Mark the thread cancelling, signal the interrupting turn, cancel the
    /// turn, and put `resubmit` (the same submission, queued) at the front of
    /// the pending commands; the rest as for `Cancel`.
    Interrupt { reason: String, resubmit: ThreadCommand, record_terminal: bool, cancels: bool },
    /// Put the command at the back of the pending commands; the loop continues.
    Defer { command: ThreadCommand },
}

/// Whether a command is the watchdog cancellation of the active turn.
pub open spec fn watchdog_matches(turn_watchdog: Option<Seq<char>>, token: Seq<char>) -> bool {
    turn_watchdog == Some(token)
}

/// The reason recorded when a turn is interrupted by another.
pub open spec fn interrupt_reason(turn_id: Seq<char>) -> Seq<char> {
    "interrupted by turn "@ + turn_id
}

/// Whether `step` is what a command during an active turn calls for.
/// `command` is `None` when the command channel closed; `turn_watchdog` is
/// the active turn's watchdog id.
pub open spec fn is_active_command_step(
    command: Option<ThreadCommand>,
    turn_watchdog: Option<Seq<char>>,
    already_cancelled: bool,
    defer_cancel_terminal: bool,
    step: ActiveCommandStep,
) -> bool {
    let record_terminal = !already_cancelled && !defer_cancel_terminal;
    let cancels = !already_cancelled;
    match command {
        Some(ThreadCommand::Cancel { reason }) => step == (ActiveCommandStep::Cancel {
            reason,
            record_terminal,
            cancels,
        }),
        Some(ThreadCommand::CancelTurn { watchdog_token_id, reason }) => if watchdog_matches(
            turn_watchdog,
            watchdog_token_id@,
        ) {
            step == (ActiveCommandStep::Cancel { reason, record_terminal, cancels })
        } else {
            step is Ignore
        },
        Some(ThreadCommand::Shutdown) | None => step is Shutdown,
        Some(ThreadCommand::Submit { turn_id, input, mode }) => match mode {
            TurnSubmissionMode::Queue => step == (ActiveCommandStep::Queue {
                command: ThreadCommand::Submit { turn_id, input, mode },
            }),
            TurnSubmissionMode::Steer => step == (ActiveCommandStep::Steer { turn_id, input }),
            TurnSubmissionMode::Interrupt => step matches ActiveCommandStep::Interrupt {
                reason,
                resubmit,
                record_terminal: r,
                cancels: c,
            } && reason@ == interrupt_reason(turn_id@) && resubmit == (ThreadCommand::Submit {
                turn_id,
                input,
                mode: TurnSubmissionMode::Queue,
            }) && r == record_terminal && c == cancels,
        },
        Some(ThreadCommand::Compact { turn_id, trigger, summary }) => step == (ActiveCommandStep::Defer {
            command: ThreadCommand::Compact { turn_id, trigger, summary },
        }),
        Some(ThreadCommand::ResumeToolCall { turn_id, call_id }) => step == (ActiveCommandStep::Defer {
            command: ThreadCommand::ResumeToolCall { turn_id, call_id },
        }),
    }
}

/// Decides what a command that arrives during an active turn does.
pub fn decide_active_command(
    command: Option<ThreadCommand>,
    turn_watchdog: Option<&str>,
    already_cancelled: bool,
    defer_cancel_terminal: bool,
) -> (step: ActiveCommandStep)
    ensures
        is_active_command_step(
            command,
            match turn_watchdog {
                Some(w) => Some(w@),
                None => None,
            },
            already_cancelled,
            defer_cancel_terminal,
            step,
        ),
{
    match command {
        Some(ThreadCommand::Cancel { reason }) => ActiveCommandStep::Cancel {
            reason,
            record_terminal: !already_cancelled && !defer_cancel_terminal,
            cancels: !already_cancelled,
        },
        Some(ThreadCommand::CancelTurn { watchdog_token_id, reason }) => {
            let matches = match turn_watchdog {
                Some(w) => crate::text::same_text(w, watchdog_token_id.as_str()),
                None => false,
            };
            if matches {
                ActiveCommandStep::Cancel {
                    reason,
                    record_terminal: !already_cancelled && !defer_cancel_terminal,
                    cancels: !already_cancelled,
                }
            } else {
                ActiveCommandStep::Ignore
            }
        },
        Some(ThreadCommand::Shutdown) | None => ActiveCommandStep::Shutdown,
        Some(ThreadCommand::Submit { turn_id, input, mode }) => match mode {
            TurnSubmissionMode::Queue => ActiveCommandStep::Queue {
                command: ThreadCommand::Submit { turn_id, input, mode },
            },
            TurnSubmissionMode::Steer => ActiveCommandStep::Steer { turn_id, input },
            TurnSubmissionMode::Interrupt => {
                let mut reason = String::from_str("interrupted by turn ");
                push_str(&mut reason, turn_id.as_str());
                ActiveCommandStep::Interrupt {
                    reason,
                    resubmit: ThreadCommand::Submit {
                        turn_id,
                        input,
                        mode: TurnSubmissionMode::Queue,
                    },
                    record_terminal: !already_cancelled && !defer_cancel_terminal,
                    cancels: !already_cancelled,
                }
            },
        },
        Some(ThreadCommand::Compact { turn_id, trigger, summary }) => ActiveCommandStep::Defer {
            command: ThreadCommand::Compact { turn_id, trigger, summary },
        },
        Some(ThreadCommand::ResumeToolCall { turn_id, call_id }) => ActiveCommandStep::Defer {
            command: ThreadCommand::ResumeToolCall { turn_id, call_id },
        },
    }
}

/// How a cancelling step ends handling: cancelled with its reason, or (when
/// the turn was already cancelled) continuing.
pub fn cancel_step_outcome(reason: String, cancels: bool) -> (outcome: ActiveProviderCommandOutcome)
    ensures
        cancels ==> outcome == (ActiveProviderCommandOutcome::Cancelled { reason }),
        !cancels ==> outcome is Continue,
{
    if cancels {
        ActiveProviderCommandOutcome::Cancelled { reason }
    } else {
        ActiveProviderCommandOutcome::Continue
    }
}

/// What follows the append of a steering input during an active turn.
#[derive(Debug)]
pub enum SteerAppendStep {
    /// Mirror the entry and signal the steer (tagged with the active turn); continue.
    Delivered,
    /// Cancel the turn, record the failed `thread.joined` when
    /// `record_terminal`, and fail with code `history`.
    Failed { reason: String, record_terminal: bool },
}

/// Decides what follows the append of a steering input; `appended` carries the
/// append's error message on failure.
pub fn steer_append_step(appended: Result<(), String>, defer_cancel_terminal: bool) -> (step:
    SteerAppendStep)
    ensures
        match appended {
            Ok(_) => step is Delivered,
            Err(reason) => step == (SteerAppendStep::Failed {
                reason,
                record_terminal: !defer_cancel_terminal,
            }),
        },
{
    match appended {
        Ok(()) => SteerAppendStep::Delivered,
        Err(reason) => SteerAppendStep::Failed { reason, record_terminal: !defer_cancel_terminal },
    }
}

/// The outcome of a failed steering append.
pub fn steer_failure_outcome(reason: String) -> (outcome: ActiveProviderCommandOutcome)
    ensures
        outcome matches ActiveProviderCommandOutcome::Failed { code, reason: r } && code@ == "history"@
            && r == reason,
{
    ActiveProviderCommandOutcome::Failed { code: String::from_str("history"), reason }
}

// ---------------------------------------------------------------------------
// Commands while a tool batch is prepared or committed
// ---------------------------------------------------------------------------

/// Whether a command that arrives while a tool batch commits must wait for
/// the commit before it is handled: all but queued submissions, compactions
/// and tool resumptions.
pub open spec fn must_wait_for_commit(command: Option<ThreadCommand>) -> bool {
    !(command matches Some(ThreadCommand::Submit { mode: TurnSubmissionMode::Queue, .. })
        || command matches Some(ThreadCommand::Compact { .. })
        || command matches Some(ThreadCommand::ResumeToolCall { .. }))
}

/// Whether a command must wait for the tool batch's commit.
pub fn tool_batch_command_must_wait_for_commit(command: &Option<ThreadCommand>) -> (b: bool)
    ensures
        b == must_wait_for_commit(*command),
{
    match command {
        Some(ThreadCommand::Submit { mode: TurnSubmissionMode::Queue, .. }) => false,
        Some(ThreadCommand::Compact { .. }) => false,
        Some(ThreadCommand::ResumeToolCall { .. }) => false,
        _ => true,
    }
}

/// How waiting for a tool batch ends.
#[derive(Debug)]
pub enum ToolBatchAwaitOutcome {
    Completed(Result<ToolAppendOutcome, VerletError>),
    Cancelled { reason: String },
    Shutdown,
    Failed { code: String, reason: String },
}

/// What appending a batch's results amounted to.
#[derive(Clone, Copy, Debug, PartialEq, Eq, Structural)]
pub enum ToolAppendOutcome {
    NoTools,
    AppendedResults,
    Suspended,
}

/// The batch outcome that a command's handling ends waiting with, if any.
pub fn tool_batch_outcome_for_command(outcome: ActiveProviderCommandOutcome) -> (batch: Option<
    ToolBatchAwaitOutcome,
>)
    ensures
        match outcome {
            ActiveProviderCommandOutcome::Continue => batch is None,
            ActiveProviderCommandOutcome::Cancelled { reason } => batch == Some(
                ToolBatchAwaitOutcome::Cancelled { reason },
            ),
            ActiveProviderCommandOutcome::Shutdown => batch == Some(ToolBatchAwaitOutcome::Shutdown),
            ActiveProviderCommandOutcome::Failed { code, reason } => batch == Some(
                ToolBatchAwaitOutcome::Failed { code, reason },
            ),
        },
{
    match outcome {
        ActiveProviderCommandOutcome::Continue => None,
        ActiveProviderCommandOutcome::Cancelled { reason } => Some(
            ToolBatchAwaitOutcome::Cancelled { reason },
        ),
        ActiveProviderCommandOutcome::Shutdown => Some(ToolBatchAwaitOutcome::Shutdown),
        ActiveProviderCommandOutcome::Failed { code, reason } => Some(
            ToolBatchAwaitOutcome::Failed { code, reason },
        ),
    }
}

/// Terminal state recorded for a thread.
#[derive(Clone, Copy, Debug, PartialEq, Eq, Structural)]
pub enum ThreadTerminalState {
    Completed,
    Cancelled,
    Failed,
}

/// The `thread.joined` a deferred batch outcome records once the batch is
/// committed: cancelled or failed with the outcome's reason; nothing for
/// shutdown or completion.
pub fn deferred_batch_terminal(outcome: &ToolBatchAwaitOutcome) -> (terminal: Option<
    (ThreadTerminalState, String),
>)
    ensures
        match *outcome {
            ToolBatchAwaitOutcome::Cancelled { reason } => terminal matches Some((state, r))
                && state == ThreadTerminalState::Cancelled && r@ == reason@,
            ToolBatchAwaitOutcome::Failed { reason, .. } => terminal matches Some((state, r))
                && state == ThreadTerminalState::Failed && r@ == reason@,
            _ => terminal is None,
        },
{
    match outcome {
        ToolBatchAwaitOutcome::Cancelled { reason } => Some((ThreadTerminalState::Cancelled, reason.clone())),
        ToolBatchAwaitOutcome::Failed { reason, .. } => Some((ThreadTerminalState::Failed, reason.clone())),
        _ => None,
    }
}

// ---------------------------------------------------------------------------
// Commands while idle
// ---------------------------------------------------------------------------

/// What the loop does with a command while no turn is active.
#[derive(Debug)]
pub enum IdleCommandStep {
    /// Append the steering input as history, then reject it (see
    /// `idle_steer_rejection`): no turn is active to steer.
    SteerWithoutTurn { turn_id: String, input: TurnInput },
    /// Mark the thread running, compact if needed, append the input and run a turn.
    StartTurn { turn_id: String, input: TurnInput },
    /// Mark the thread running and compact.
    Compact { turn_id: String, trigger: CompactionTrigger, summary: Option<String> },
    /// Mark the thread running and resume a suspended tool call.
    Resume { turn_id: String, call_id: String },
    /// Mark the thread cancelling, signal and report the cancellation, and
    /// return to idle.
    CancelIdle { reason: String },
    /// A watchdog cancellation with no active turn: nothing to do.
    Ignore,
    /// Signal shutdown, emit the stopped terminal, mark the thread stopped; the loop ends.
    Shutdown,
}

/// Decides what a command does while the thread is idle.
pub fn decide_idle_command(command: ThreadCommand) -> (step: IdleCommandStep)
    ensures
        match command {
            ThreadCommand::Submit { turn_id, input, mode } => if mode == TurnSubmissionMode::Steer {
                step == (IdleCommandStep::SteerWithoutTurn { turn_id, input })
            } else {
                step == (IdleCommandStep::StartTurn { turn_id, input })
            },
            ThreadCommand::Compact { turn_id, trigger, summary } => step == (IdleCommandStep::Compact {
                turn_id,
                trigger,
                summary,
            }),
            ThreadCommand::ResumeToolCall { turn_id, call_id } => step == (IdleCommandStep::Resume {
                turn_id,
                call_id,
            }),
            ThreadCommand::Cancel { reason } => step == (IdleCommandStep::CancelIdle { reason }),
            ThreadCommand::CancelTurn { .. } => step is Ignore,
            ThreadCommand::Shutdown => step is Shutdown,
        },
{
    match command {
        ThreadCommand::Submit { turn_id, input, mode } => match mode {
            TurnSubmissionMode::Steer => IdleCommandStep::SteerWithoutTurn { turn_id, input },
            _ => IdleCommandStep::StartTurn { turn_id, input },
        },
        ThreadCommand::Compact { turn_id, trigger, summary } => IdleCommandStep::Compact {
            turn_id,
            trigger,
            summary,
        },
        ThreadCommand::ResumeToolCall { turn_id, call_id } => IdleCommandStep::Resume { turn_id, call_id },
        ThreadCommand::Cancel { reason } => IdleCommandStep::CancelIdle { reason },
        ThreadCommand::CancelTurn { .. } => IdleCommandStep::Ignore,
        ThreadCommand::Shutdown => IdleCommandStep::Shutdown,
    }
}

/// The policy rejection reported for a steer with no active turn: code and message.
pub fn idle_steer_rejection() -> (rejection: (String, String))
    ensures
        rejection.0@ == "no_active_turn"@,
        rejection.1@ == "steer input requires an active provider turn"@,
{
    (String::from_str("no_active_turn"), String::from_str("steer input requires an active provider turn"))
}

/// The key a compaction started before a turn runs under.
pub fn auto_compaction_turn_id(turn_id: &str) -> (key: String)
    ensures
        key@ == turn_id@ + ":auto_compact"@,
{
    let mut key = String::from_str(turn_id);
    push_str(&mut key, ":auto_compact");
    key
}

/// How resuming a suspended tool call ended.
#[derive(Clone, Copy, Debug, PartialEq, Eq, Structural)]
pub enum ToolResumeOutcome {
    Resumed { source_event_id: u64, turn_delivery_start_sequence: u64, turn_anchor_timestamp_ms: i64 },
    StillWaiting,
    AlreadyCompleted,
}

/// What the idle loop does after a resumption or compaction.
#[derive(Debug)]
pub enum IdleFollowUp {
    /// Run the resumed turn from its original bounds.
    RunTurn { source_event_id: u64, turn_delivery_start_sequence: u64, turn_anchor_timestamp_ms: i64 },
    /// Return to idle; the loop goes on.
    Idle,
    /// Fail the thread with `code` and `message`; the loop ends.
    Fail { code: String, message: String },
}

/// The follow-up of a resumption attempt.
pub fn idle_resume_follow_up(resumed: Result<ToolResumeOutcome, String>) -> (follow: IdleFollowUp)
    ensures
        match resumed {
            Ok(ToolResumeOutcome::Resumed { source_event_id, turn_delivery_start_sequence, turn_anchor_timestamp_ms }) =>
                follow == (IdleFollowUp::RunTurn { source_event_id, turn_delivery_start_sequence, turn_anchor_timestamp_ms }),
            Ok(_) => follow is Idle,
            Err(message) => follow matches IdleFollowUp::Fail { code, message: m } && code@ == "tool_resume"@ && m == message,
        },
{
    match resumed {
        Ok(ToolResumeOutcome::Resumed { source_event_id, turn_delivery_start_sequence, turn_anchor_timestamp_ms }) =>
            IdleFollowUp::RunTurn { source_event_id, turn_delivery_start_sequence, turn_anchor_timestamp_ms },
        Ok(_) => IdleFollowUp::Idle,
        Err(message) => IdleFollowUp::Fail { code: String::from_str("tool_resume"), message },
    }
}

/// The follow-up of a compaction command.
pub fn idle_compaction_follow_up(compacted: Result<(), String>) -> (follow: IdleFollowUp)
    ensures
        match compacted {
            Ok(_) => follow is Idle,
            Err(message) => follow matches IdleFollowUp::Fail { code, message: m } && code@ == "compaction"@ && m == message,
        },
{
    match compacted {
        Ok(()) => IdleFollowUp::Idle,
        Err(message) => IdleFollowUp::Fail { code: String::from_str("compaction"), message },
    }
}

/// No command is lost during an active turn: compactions and tool
/// resumptions are deferred as they came, to run once the turn is over; a
/// deferred or queued step carries exactly the command that arrived; and the
/// only command ignored is a watchdog cancel meant for another turn.
pub proof fn lemma_active_turns_lose_no_command(
    command: Option<ThreadCommand>,
    turn_watchdog: Option<Seq<char>>,
    already_cancelled: bool,
    defer_cancel_terminal: bool,
    step: ActiveCommandStep,
)
    requires
        is_active_command_step(command, turn_watchdog, already_cancelled, defer_cancel_terminal, step),
    ensures
        (command matches Some(ThreadCommand::ResumeToolCall { .. }) || command matches Some(ThreadCommand::Compact { .. }))
            ==> step == (ActiveCommandStep::Defer { command: command->Some_0 }),
        step matches ActiveCommandStep::Defer { command: c } ==> command == Some(c),
        step matches ActiveCommandStep::Queue { command: c } ==> command == Some(c),
        step is Ignore ==> command matches Some(ThreadCommand::CancelTurn { .. }),
{
}

/// A cancelled `thread.joined` is recorded during an active turn only by the
/// command that actually cancels it, and never while that terminal is
/// deferred: cancelling an already-cancelled turn records nothing more.
pub proof fn lemma_terminal_is_recorded_only_by_the_cancelling_command(
    command: Option<ThreadCommand>,
    turn_watchdog: Option<Seq<char>>,
    already_cancelled: bool,
    defer_cancel_terminal: bool,
    step: ActiveCommandStep,
)
    requires
        is_active_command_step(command, turn_watchdog, already_cancelled, defer_cancel_terminal, step),
    ensures
        step matches ActiveCommandStep::Cancel { record_terminal, cancels, .. } ==> (record_terminal ==> cancels
            && !defer_cancel_terminal) && (cancels <==> !already_cancelled),
        step matches ActiveCommandStep::Interrupt { record_terminal, cancels, .. } ==> (record_terminal ==> cancels
            && !defer_cancel_terminal) && (cancels <==> !already_cancelled),
{
}

/// Only a cancel, a watchdog cancel of the active turn, or an interrupting
/// submission cancels an active turn; queued submissions and deferred
/// commands leave it running.
pub proof fn lemma_only_cancels_and_interrupts_stop_the_turn(
    command: Option<ThreadCommand>,
    turn_watchdog: Option<Seq<char>>,
    already_cancelled: bool,
    defer_cancel_terminal: bool,
    step: ActiveCommandStep,
)
    requires
        is_active_command_step(command, turn_watchdog, already_cancelled, defer_cancel_terminal, step),
        command matches Some(ThreadCommand::Submit { mode, .. }) ==> mode != TurnSubmissionMode::Interrupt,
        !(command matches Some(ThreadCommand::Cancel { .. })),
        !(command matches Some(ThreadCommand::CancelTurn { .. })),
        !(command matches Some(ThreadCommand::Shutdown)),
        command is Some,
    ensures
        !(step is Cancel) && !(step is Interrupt) && !(step is Shutdown),
{
}

} // verus!
