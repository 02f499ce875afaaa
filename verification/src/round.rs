//! The rounds of a provider turn as a state machine: the boundary where
//! ready commands are handled, the assembly of a request and its compile
//! receipt, the model request, the persisted assistant entry, and the tool
//! batch whose persisted results end the round. Commands handled while the
//! request is assembled or runs take effect when it is over: a cancel ends
//! the turn cancelled, a failed command fails it, and a shutdown stops the
//! thread once the turn's response was dealt with.

use vstd::prelude::*;
use crate::turn::exhausted_budget;

verus! {

/// Where a provider turn stands.
#[derive(Clone, Copy, Debug, PartialEq, Eq, Structural)]
pub enum RoundPhase {
    /// A tool round ended: `ready` commands were waiting when it did, and
    /// `handled` of them were handled since.
    Boundary { ready: usize, handled: usize },
    /// The request is assembled and its compile receipt recorded.
    Compiling,
    /// The model request runs.
    Requesting,
    /// The assistant entry that requested `tool_calls` calls is persisted.
    Persisting { tool_calls: usize },
    /// The tool batch runs and its results are appended.
    Tools,
    /// The batch a resumed turn left open runs and its results are appended.
    ResumedTools,
    /// The stop hooks of a completing turn run.
    StopHooks,
    /// The turn's completion is recorded.
    RecordingCompletion,
    /// The turn is over.
    Finished,
}

/// A provider turn: its configuration, the tool rounds it completed, its
/// phase, and what the commands handled while its request was assembled or
/// ran asked for.
#[derive(Clone, Copy, Debug, PartialEq, Eq, Structural)]
pub struct ProviderRound {
    pub has_tool_router: bool,
    pub max_tool_rounds: Option<usize>,
    pub tool_rounds: usize,
    pub phase: RoundPhase,
    pub cancelled: bool,
    pub command_failed: bool,
    pub shutdown_after_turn: bool,
}

/// What polling the command channel gave.
#[derive(Clone, Copy, Debug, PartialEq, Eq, Structural)]
pub enum CommandPoll {
    Ready,
    Empty,
    Disconnected,
}

/// How a handled command ends the turn.
#[derive(Clone, Copy, Debug, PartialEq, Eq, Structural)]
pub enum CommandEnd {
    Cancelled,
    Shutdown,
    Failed,
}

/// How a tool batch ended.
#[derive(Clone, Copy, Debug, PartialEq, Eq, Structural)]
pub enum BatchResult {
    /// The batch had nothing to run.
    NoTools,
    /// Every result was appended.
    AppendedResults,
    /// A call is suspended, waiting for a decision.
    Suspended,
    /// Appending the results failed.
    AppendFailed,
    /// A command handled during the batch cancelled the turn.
    Cancelled,
    /// A command handled during the batch shut the thread down.
    Shutdown,
    /// A command handled during the batch failed.
    CommandFailed,
}

/// What happened since the last step.
#[derive(Clone, Copy, Debug, PartialEq, Eq, Structural)]
pub enum RoundEvent {
    /// At a boundary, before polling: whether the command channel is closed.
    Tick { closed: bool },
    /// At a boundary, what polling the command channel gave.
    Polled { poll: CommandPoll },
    /// A handled command ended the turn this way.
    CommandEnded { end: CommandEnd },
    /// Recording the request's compile receipt succeeded or failed.
    ReceiptRecorded { ok: bool },
    /// The model answered (with `tool_calls` tool calls) or failed.
    ModelReplied { ok: bool, tool_calls: usize },
    /// Persisting the assistant entry succeeded or failed.
    AssistantPersisted { ok: bool },
    /// The tool batch ended; `ready_commands` commands wait in the channel.
    BatchFinished { result: BatchResult, ready_commands: usize },
    /// The stop hooks ran, or failed.
    StopHooksRan { ok: bool },
    /// Recording the turn's completion succeeded or failed.
    CompletionRecorded { ok: bool },
}

/// How a finished turn ended.
#[derive(Clone, Copy, Debug, PartialEq, Eq, Structural)]
pub enum RoundEnd {
    Complete,
    Failed,
    Suspended,
    Cancelled,
    Stopped,
}

/// What the runtime does next.
#[derive(Clone, Copy, Debug, PartialEq, Eq, Structural)]
pub enum RoundAction {
    /// Poll the command channel.
    PollCommand,
    /// Handle the polled command.
    HandleCommand,
    /// Handle the closed channel (as a shutdown); unless that ends the turn,
    /// assemble the request and record its compile receipt.
    HandleClosedChannel,
    /// Assemble the request and record its compile receipt.
    Assemble,
    /// Send the model request.
    SendRequest,
    /// Persist the assistant entry.
    PersistAssistant,
    /// Run the tool batch and append its results.
    RunTools,
    /// Run the batch the resumed turn left open and append its results.
    RunResumedTools,
    /// Run the stop hooks.
    RunStopHooks,
    /// Record the turn's completion.
    RecordCompletion,
    /// A tool round ended: go to the boundary.
    EnterBoundary,
    /// Conclude the turn.
    Conclude { end: RoundEnd },
    /// Nothing to do for this event.
    Wait,
}

/// The state a turn starts in and its first action, after `tool_rounds`
/// persisted rounds, with `ready_commands` commands waiting. A resumed turn
/// (one with persisted rounds) that has a suspended call waits for its
/// decision; one that left a batch open runs that batch first; otherwise it
/// starts at a boundary, where waiting commands are handled first. A fresh
/// turn assembles at once.
pub open spec fn round_start(
    has_tool_router: bool,
    max_tool_rounds: Option<usize>,
    tool_rounds: usize,
    ready_commands: usize,
    pending_suspension: bool,
    pending_batch: bool,
) -> (ProviderRound, RoundAction) {
    let s = ProviderRound {
        has_tool_router,
        max_tool_rounds,
        tool_rounds,
        phase: RoundPhase::Compiling,
        cancelled: false,
        command_failed: false,
        shutdown_after_turn: false,
    };
    if tool_rounds == 0 {
        (s, RoundAction::Assemble)
    } else if pending_suspension {
        finish(s, RoundEnd::Suspended)
    } else if pending_batch {
        (ProviderRound { phase: RoundPhase::ResumedTools, ..s }, RoundAction::RunResumedTools)
    } else {
        (ProviderRound { phase: RoundPhase::Boundary { ready: ready_commands, handled: 0 }, ..s }, RoundAction::EnterBoundary)
    }
}

/// How a command that ends the turn at once concludes it.
pub open spec fn command_conclusion(end: CommandEnd) -> RoundEnd {
    match end {
        CommandEnd::Cancelled => RoundEnd::Cancelled,
        CommandEnd::Shutdown => RoundEnd::Stopped,
        CommandEnd::Failed => RoundEnd::Failed,
    }
}

/// The turn concluded with `end`.
pub open spec fn finish(s: ProviderRound, end: RoundEnd) -> (ProviderRound, RoundAction) {
    (ProviderRound { phase: RoundPhase::Finished, ..s }, RoundAction::Conclude { end })
}

/// The turn's response was dealt with and leads to `end`; a shutdown asked
/// for meanwhile stops the thread instead, and a turn that completes runs its
/// stop hooks first.
pub open spec fn settle(s: ProviderRound, end: RoundEnd) -> (ProviderRound, RoundAction) {
    if s.shutdown_after_turn {
        finish(s, RoundEnd::Stopped)
    } else if end == RoundEnd::Complete {
        (ProviderRound { phase: RoundPhase::StopHooks, ..s }, RoundAction::RunStopHooks)
    } else {
        finish(s, end)
    }
}

/// The assembly or the request is over, with a reply (`ok`, asking for
/// `tool_calls` calls) or without: a cancel asked for meanwhile concludes the
/// turn cancelled; a failed command or a failure fails it; otherwise the
/// assistant entry is persisted.
pub open spec fn request_over(s: ProviderRound, ok: bool, tool_calls: usize) -> (ProviderRound, RoundAction) {
    if s.cancelled {
        finish(s, RoundEnd::Cancelled)
    } else if s.command_failed || !ok {
        settle(s, RoundEnd::Failed)
    } else {
        (ProviderRound { phase: RoundPhase::Persisting { tool_calls }, ..s }, RoundAction::PersistAssistant)
    }
}

/// The next state and action of a turn after an event.
pub open spec fn round_next(s: ProviderRound, e: RoundEvent) -> (ProviderRound, RoundAction) {
    match (s.phase, e) {
        (RoundPhase::Finished, _) => (s, RoundAction::Wait),
        (RoundPhase::Boundary { .. }, RoundEvent::CommandEnded { end }) => finish(s, command_conclusion(end)),
        (RoundPhase::Compiling, RoundEvent::CommandEnded { end }) | (
            RoundPhase::Requesting,
            RoundEvent::CommandEnded { end },
        ) => (
            match end {
                CommandEnd::Cancelled => ProviderRound { cancelled: true, ..s },
                CommandEnd::Shutdown => ProviderRound { shutdown_after_turn: true, ..s },
                CommandEnd::Failed => ProviderRound { command_failed: true, ..s },
            },
            RoundAction::Wait,
        ),
        (RoundPhase::Boundary { ready, handled }, RoundEvent::Tick { closed }) => if handled < ready || closed {
            (s, RoundAction::PollCommand)
        } else {
            (ProviderRound { phase: RoundPhase::Compiling, ..s }, RoundAction::Assemble)
        },
        (RoundPhase::Boundary { ready, handled }, RoundEvent::Polled { poll }) => match poll {
            CommandPoll::Ready => (
                ProviderRound {
                    phase: RoundPhase::Boundary {
                        ready,
                        handled: if handled < ready { (handled + 1) as usize } else { handled },
                    },
                    ..s
                },
                RoundAction::HandleCommand,
            ),
            CommandPoll::Empty => (ProviderRound { phase: RoundPhase::Compiling, ..s }, RoundAction::Assemble),
            CommandPoll::Disconnected => (
                ProviderRound { phase: RoundPhase::Compiling, ..s },
                RoundAction::HandleClosedChannel,
            ),
        },
        (RoundPhase::Compiling, RoundEvent::ReceiptRecorded { ok }) => if ok {
            (ProviderRound { phase: RoundPhase::Requesting, ..s }, RoundAction::SendRequest)
        } else {
            request_over(s, false, 0)
        },
        (RoundPhase::Requesting, RoundEvent::ModelReplied { ok, tool_calls }) => request_over(s, ok, tool_calls),
        (RoundPhase::Persisting { tool_calls }, RoundEvent::AssistantPersisted { ok }) => if !ok {
            settle(s, RoundEnd::Failed)
        } else if !(s.has_tool_router && tool_calls > 0) {
            settle(s, RoundEnd::Complete)
        } else if exhausted_budget(s.max_tool_rounds, s.tool_rounds) is Some {
            settle(s, RoundEnd::Failed)
        } else {
            (ProviderRound { phase: RoundPhase::Tools, ..s }, RoundAction::RunTools)
        },
        (RoundPhase::Tools, RoundEvent::BatchFinished { result, ready_commands }) => match result {
            BatchResult::NoTools => settle(s, RoundEnd::Complete),
            BatchResult::AppendedResults => if s.shutdown_after_turn {
                finish(s, RoundEnd::Stopped)
            } else {
                (
                    ProviderRound {
                        tool_rounds: if s.tool_rounds < usize::MAX { (s.tool_rounds + 1) as usize } else { s.tool_rounds },
                        phase: RoundPhase::Boundary { ready: ready_commands, handled: 0 },
                        ..s
                    },
                    RoundAction::EnterBoundary,
                )
            },
            BatchResult::Suspended => settle(s, RoundEnd::Suspended),
            BatchResult::AppendFailed => settle(s, RoundEnd::Failed),
            BatchResult::Cancelled => finish(s, RoundEnd::Cancelled),
            BatchResult::Shutdown => finish(s, RoundEnd::Stopped),
            BatchResult::CommandFailed => finish(s, RoundEnd::Failed),
        },
        (RoundPhase::ResumedTools, RoundEvent::BatchFinished { result, ready_commands }) => match result {
            BatchResult::NoTools | BatchResult::AppendedResults => (
                ProviderRound { phase: RoundPhase::Boundary { ready: ready_commands, handled: 0 }, ..s },
                RoundAction::EnterBoundary,
            ),
            BatchResult::Suspended => finish(s, RoundEnd::Suspended),
            BatchResult::Cancelled => finish(s, RoundEnd::Cancelled),
            BatchResult::Shutdown => finish(s, RoundEnd::Stopped),
            BatchResult::AppendFailed | BatchResult::CommandFailed => finish(s, RoundEnd::Failed),
        },
        (RoundPhase::StopHooks, RoundEvent::StopHooksRan { ok }) => if ok {
            (ProviderRound { phase: RoundPhase::RecordingCompletion, ..s }, RoundAction::RecordCompletion)
        } else {
            finish(s, RoundEnd::Failed)
        },
        (RoundPhase::RecordingCompletion, RoundEvent::CompletionRecorded { ok }) => if ok {
            finish(s, RoundEnd::Complete)
        } else {
            finish(s, RoundEnd::Failed)
        },
        _ => (s, RoundAction::Wait),
    }
}

/// The state a turn starts in and its first action (see `round_start`).
pub fn start_round(
    has_tool_router: bool,
    max_tool_rounds: Option<usize>,
    tool_rounds: usize,
    ready_commands: usize,
    pending_suspension: bool,
    pending_batch: bool,
) -> (start: (ProviderRound, RoundAction))
    ensures
        start == round_start(has_tool_router, max_tool_rounds, tool_rounds, ready_commands, pending_suspension, pending_batch),
{
    let s = ProviderRound {
        has_tool_router,
        max_tool_rounds,
        tool_rounds,
        phase: RoundPhase::Compiling,
        cancelled: false,
        command_failed: false,
        shutdown_after_turn: false,
    };
    if tool_rounds == 0 {
        (s, RoundAction::Assemble)
    } else if pending_suspension {
        finish_exec(s, RoundEnd::Suspended)
    } else if pending_batch {
        (ProviderRound { phase: RoundPhase::ResumedTools, ..s }, RoundAction::RunResumedTools)
    } else {
        (ProviderRound { phase: RoundPhase::Boundary { ready: ready_commands, handled: 0 }, ..s }, RoundAction::EnterBoundary)
    }
}

fn finish_exec(s: ProviderRound, end: RoundEnd) -> (next: (ProviderRound, RoundAction))
    ensures
        next == finish(s, end),
{
    (ProviderRound { phase: RoundPhase::Finished, ..s }, RoundAction::Conclude { end })
}

fn settle_exec(s: ProviderRound, end: RoundEnd) -> (next: (ProviderRound, RoundAction))
    ensures
        next == settle(s, end),
{
    if s.shutdown_after_turn {
        finish_exec(s, RoundEnd::Stopped)
    } else if end == RoundEnd::Complete {
        (ProviderRound { phase: RoundPhase::StopHooks, ..s }, RoundAction::RunStopHooks)
    } else {
        finish_exec(s, end)
    }
}

fn request_over_exec(s: ProviderRound, ok: bool, tool_calls: usize) -> (next: (ProviderRound, RoundAction))
    ensures
        next == request_over(s, ok, tool_calls),
{
    if s.cancelled {
        finish_exec(s, RoundEnd::Cancelled)
    } else if s.command_failed || !ok {
        settle_exec(s, RoundEnd::Failed)
    } else {
        (ProviderRound { phase: RoundPhase::Persisting { tool_calls }, ..s }, RoundAction::PersistAssistant)
    }
}

/// Takes one step of a provider turn (see `round_next`).
pub fn round_step(s: ProviderRound, e: RoundEvent) -> (next: (ProviderRound, RoundAction))
    ensures
        next == round_next(s, e),
{
    match (s.phase, e) {
        (RoundPhase::Finished, _) => (s, RoundAction::Wait),
        (RoundPhase::Boundary { .. }, RoundEvent::CommandEnded { end }) => {
            let conclusion = match end {
                CommandEnd::Cancelled => RoundEnd::Cancelled,
                CommandEnd::Shutdown => RoundEnd::Stopped,
                CommandEnd::Failed => RoundEnd::Failed,
            };
            finish_exec(s, conclusion)
        },
        (RoundPhase::Compiling, RoundEvent::CommandEnded { end }) | (
            RoundPhase::Requesting,
            RoundEvent::CommandEnded { end },
        ) => (
            match end {
                CommandEnd::Cancelled => ProviderRound { cancelled: true, ..s },
                CommandEnd::Shutdown => ProviderRound { shutdown_after_turn: true, ..s },
                CommandEnd::Failed => ProviderRound { command_failed: true, ..s },
            },
            RoundAction::Wait,
        ),
        (RoundPhase::Boundary { ready, handled }, RoundEvent::Tick { closed }) => if handled < ready || closed {
            (s, RoundAction::PollCommand)
        } else {
            (ProviderRound { phase: RoundPhase::Compiling, ..s }, RoundAction::Assemble)
        },
        (RoundPhase::Boundary { ready, handled }, RoundEvent::Polled { poll }) => match poll {
            CommandPoll::Ready => (
                ProviderRound {
                    phase: RoundPhase::Boundary {
                        ready,
                        handled: if handled < ready { handled + 1 } else { handled },
                    },
                    ..s
                },
                RoundAction::HandleCommand,
            ),
            CommandPoll::Empty => (ProviderRound { phase: RoundPhase::Compiling, ..s }, RoundAction::Assemble),
            CommandPoll::Disconnected => (
                ProviderRound { phase: RoundPhase::Compiling, ..s },
                RoundAction::HandleClosedChannel,
            ),
        },
        (RoundPhase::Compiling, RoundEvent::ReceiptRecorded { ok }) => if ok {
            (ProviderRound { phase: RoundPhase::Requesting, ..s }, RoundAction::SendRequest)
        } else {
            request_over_exec(s, false, 0)
        },
        (RoundPhase::Requesting, RoundEvent::ModelReplied { ok, tool_calls }) => request_over_exec(s, ok, tool_calls),
        (RoundPhase::Persisting { tool_calls }, RoundEvent::AssistantPersisted { ok }) => if !ok {
            settle_exec(s, RoundEnd::Failed)
        } else if !(s.has_tool_router && tool_calls > 0) {
            settle_exec(s, RoundEnd::Complete)
        } else if crate::turn::exhausted_tool_round_budget(s.max_tool_rounds, s.tool_rounds).is_some() {
            settle_exec(s, RoundEnd::Failed)
        } else {
            (ProviderRound { phase: RoundPhase::Tools, ..s }, RoundAction::RunTools)
        },
        (RoundPhase::Tools, RoundEvent::BatchFinished { result, ready_commands }) => match result {
            BatchResult::NoTools => settle_exec(s, RoundEnd::Complete),
            BatchResult::AppendedResults => if s.shutdown_after_turn {
                finish_exec(s, RoundEnd::Stopped)
            } else {
                (
                    ProviderRound {
                        tool_rounds: if s.tool_rounds < usize::MAX { s.tool_rounds + 1 } else { s.tool_rounds },
                        phase: RoundPhase::Boundary { ready: ready_commands, handled: 0 },
                        ..s
                    },
                    RoundAction::EnterBoundary,
                )
            },
            BatchResult::Suspended => settle_exec(s, RoundEnd::Suspended),
            BatchResult::AppendFailed => settle_exec(s, RoundEnd::Failed),
            BatchResult::Cancelled => finish_exec(s, RoundEnd::Cancelled),
            BatchResult::Shutdown => finish_exec(s, RoundEnd::Stopped),
            BatchResult::CommandFailed => finish_exec(s, RoundEnd::Failed),
        },
        (RoundPhase::ResumedTools, RoundEvent::BatchFinished { result, ready_commands }) => match result {
            BatchResult::NoTools | BatchResult::AppendedResults => (
                ProviderRound { phase: RoundPhase::Boundary { ready: ready_commands, handled: 0 }, ..s },
                RoundAction::EnterBoundary,
            ),
            BatchResult::Suspended => finish_exec(s, RoundEnd::Suspended),
            BatchResult::Cancelled => finish_exec(s, RoundEnd::Cancelled),
            BatchResult::Shutdown => finish_exec(s, RoundEnd::Stopped),
            BatchResult::AppendFailed | BatchResult::CommandFailed => finish_exec(s, RoundEnd::Failed),
        },
        (RoundPhase::StopHooks, RoundEvent::StopHooksRan { ok }) => if ok {
            (ProviderRound { phase: RoundPhase::RecordingCompletion, ..s }, RoundAction::RecordCompletion)
        } else {
            finish_exec(s, RoundEnd::Failed)
        },
        (RoundPhase::RecordingCompletion, RoundEvent::CompletionRecorded { ok }) => if ok {
            finish_exec(s, RoundEnd::Complete)
        } else {
            finish_exec(s, RoundEnd::Failed)
        },
        _ => (s, RoundAction::Wait),
    }
}

// ---------------------------------------------------------------------------
// Runs of a turn
// ---------------------------------------------------------------------------

/// The state of a turn that started in `s` after the first `n` events.
pub open spec fn state_after(s: ProviderRound, events: Seq<RoundEvent>, n: int) -> ProviderRound
    decreases n,
{
    if n <= 0 {
        s
    } else {
        round_next(state_after(s, events, n - 1), events[n - 1]).0
    }
}

/// The action a turn that started in `s` takes on event `i`.
pub open spec fn action_at(s: ProviderRound, events: Seq<RoundEvent>, i: int) -> RoundAction {
    round_next(state_after(s, events, i), events[i]).1
}

/// How many of the first `n` events had a command handled.
pub open spec fn handled_commands(s: ProviderRound, events: Seq<RoundEvent>, n: int) -> nat
    decreases n,
{
    if n <= 0 {
        0
    } else {
        handled_commands(s, events, n - 1) + if action_at(s, events, n - 1) == RoundAction::HandleCommand {
            1nat
        } else {
            0nat
        }
    }
}

/// An action taken while a boundary is still handling commands.
pub open spec fn handling_commands(a: RoundAction) -> bool {
    a == RoundAction::PollCommand || a == RoundAction::HandleCommand || a == RoundAction::Wait
}

// ---------------------------------------------------------------------------
// Laws
// ---------------------------------------------------------------------------

/// A model request is sent only once its compile receipt is recorded: a
/// failed recording ends the turn without a request.
pub proof fn lemma_requests_follow_recorded_receipts(s: ProviderRound, e: RoundEvent)
    ensures
        round_next(s, e).1 == RoundAction::SendRequest ==> s.phase == RoundPhase::Compiling && e
            == (RoundEvent::ReceiptRecorded { ok: true }),
        s.phase == RoundPhase::Compiling && e == (RoundEvent::ReceiptRecorded { ok: false }) ==> round_next(s, e).1
            != RoundAction::SendRequest && round_next(s, e).0.phase == RoundPhase::Finished,
{
}

/// A tool round ends only after the assistant entry and every tool result
/// are persisted: the round count changes only when a batch, which runs
/// only after a persisted assistant entry, appended its results, and then it
/// grows by one (below the counter's limit) and the turn goes to a boundary;
/// a boundary is otherwise entered only once a resumed turn's open batch was
/// dealt with.
pub proof fn lemma_rounds_end_after_persisted_results(s: ProviderRound, e: RoundEvent)
    ensures
        round_next(s, e).0.tool_rounds != s.tool_rounds ==> {
            &&& s.phase == RoundPhase::Tools
            &&& (e matches RoundEvent::BatchFinished { result: BatchResult::AppendedResults, .. })
            &&& round_next(s, e).0.tool_rounds == s.tool_rounds + 1
            &&& round_next(s, e).0.phase is Boundary
        },
        s.phase == RoundPhase::Tools && s.tool_rounds < usize::MAX && !s.shutdown_after_turn && (
        e matches RoundEvent::BatchFinished { result: BatchResult::AppendedResults, .. }) ==> round_next(
            s,
            e,
        ).0.tool_rounds == s.tool_rounds + 1,
        round_next(s, e).0.phase == RoundPhase::Tools ==> s.phase == RoundPhase::Tools || (s.phase is Persisting
            && e == (RoundEvent::AssistantPersisted { ok: true })),
        round_next(s, e).0.phase is Boundary ==> s.phase is Boundary || (s.phase == RoundPhase::Tools && (e matches RoundEvent::BatchFinished {
            result: BatchResult::AppendedResults,
            ..
        })) || (s.phase == RoundPhase::ResumedTools && (e matches RoundEvent::BatchFinished { result, .. } && (result
            == BatchResult::AppendedResults || result == BatchResult::NoTools))),
{
}

/// At a boundary the commands that were ready when the round ended come
/// first: while fewer were handled than were ready, the only step is to
/// poll the next one; the next request is assembled only once as many were
/// handled as were ready (and the channel is open), or the channel is empty
/// or closed; assembly starts nowhere but at a boundary; and a command that
/// ends the turn there concludes it at once (a cancel as cancelled).
pub proof fn lemma_ready_commands_come_before_assembly(s: ProviderRound, e: RoundEvent)
    ensures
        (s.phase matches RoundPhase::Boundary { ready, handled } && handled < ready) && e is Tick ==> round_next(
            s,
            e,
        ) == (s, RoundAction::PollCommand),
        round_next(s, e).0.phase == RoundPhase::Compiling && s.phase != RoundPhase::Compiling ==> {
            &&& (s.phase matches RoundPhase::Boundary { ready, handled } && ((handled >= ready && e == (
            RoundEvent::Tick { closed: false })) || e == (RoundEvent::Polled { poll: CommandPoll::Empty }) || e == (
            RoundEvent::Polled { poll: CommandPoll::Disconnected })))
        },
        round_next(s, e).1 == RoundAction::Assemble ==> s.phase is Boundary,
        s.phase is Boundary && e == (RoundEvent::CommandEnded { end: CommandEnd::Cancelled }) ==> round_next(s, e)
            == finish(s, RoundEnd::Cancelled),
{
}

proof fn lemma_boundary_keeps_count(s: ProviderRound, events: Seq<RoundEvent>, n: int, ready: usize)
    requires
        0 <= n <= events.len(),
        s.phase == (RoundPhase::Boundary { ready, handled: 0 }),
        forall|j: int| 0 <= j < n ==> handling_commands(#[trigger] action_at(s, events, j)),
    ensures
        state_after(s, events, n).phase == (RoundPhase::Boundary {
            ready,
            handled: if handled_commands(s, events, n) < ready {
                handled_commands(s, events, n) as usize
            } else {
                ready
            },
        }),
    decreases n,
{
    if n > 0 {
        lemma_boundary_keeps_count(s, events, n - 1, ready);
        assert(handling_commands(action_at(s, events, n - 1)));
    }
}

/// Over a whole run from a boundary where `ready` commands were waiting:
/// the first step that is not about commands assembles the request only
/// after at least `ready` commands were handled, or when polling found the
/// channel empty.
pub proof fn lemma_assembly_waits_for_ready_commands(s: ProviderRound, events: Seq<RoundEvent>, ready: usize, i: int)
    requires
        s.phase == (RoundPhase::Boundary { ready, handled: 0 }),
        0 <= i < events.len(),
        action_at(s, events, i) == RoundAction::Assemble,
        forall|j: int| 0 <= j < i ==> handling_commands(#[trigger] action_at(s, events, j)),
    ensures
        handled_commands(s, events, i) >= ready || events[i] == (RoundEvent::Polled { poll: CommandPoll::Empty }),
{
    lemma_boundary_keeps_count(s, events, i, ready);
}

proof fn lemma_finished_stays_finished(s: ProviderRound, events: Seq<RoundEvent>, i: int, j: int)
    requires
        0 <= i <= j <= events.len(),
        state_after(s, events, i).phase == RoundPhase::Finished,
    ensures
        state_after(s, events, j).phase == RoundPhase::Finished,
        j < events.len() ==> action_at(s, events, j) == RoundAction::Wait,
    decreases j - i,
{
    if i < j {
        lemma_finished_stays_finished(s, events, i, j - 1);
    }
}

/// A concluded turn stays concluded: after the step that concludes it,
/// every later event is answered with nothing to do, so no request is sent,
/// nothing is persisted and no tool runs.
pub proof fn lemma_concluded_turns_do_nothing_more(s: ProviderRound, events: Seq<RoundEvent>, i: int, j: int)
    requires
        0 <= i < j < events.len(),
        action_at(s, events, i) is Conclude,
    ensures
        action_at(s, events, j) == RoundAction::Wait,
{
    assert(state_after(s, events, i + 1).phase == RoundPhase::Finished);
    lemma_finished_stays_finished(s, events, i + 1, j);
}

/// A fresh turn assembles at once. A resumed turn never assembles first: a
/// suspended call makes it wait, an open batch runs first, and otherwise it
/// starts at a boundary, where waiting commands are handled first.
pub proof fn lemma_resumed_turns_start_at_a_boundary(
    has_tool_router: bool,
    max_tool_rounds: Option<usize>,
    tool_rounds: usize,
    ready_commands: usize,
    pending_suspension: bool,
    pending_batch: bool,
)
    ensures
        tool_rounds == 0 ==> round_start(has_tool_router, max_tool_rounds, tool_rounds, ready_commands, pending_suspension, pending_batch).1
            == RoundAction::Assemble,
        tool_rounds > 0 ==> round_start(has_tool_router, max_tool_rounds, tool_rounds, ready_commands, pending_suspension, pending_batch).1
            != RoundAction::Assemble,
        tool_rounds > 0 && !pending_suspension && !pending_batch ==> round_start(
            has_tool_router,
            max_tool_rounds,
            tool_rounds,
            ready_commands,
            pending_suspension,
            pending_batch,
        ).0.phase == (RoundPhase::Boundary { ready: ready_commands, handled: 0 }),
{
}

} // verus!
