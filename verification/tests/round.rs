use verlet_agent_loop::round::{
    round_step, start_round, BatchResult, CommandEnd, CommandPoll, ProviderRound, RoundAction, RoundEnd, RoundEvent,
    RoundPhase,
};

fn step(s: ProviderRound, e: RoundEvent) -> (ProviderRound, RoundAction) {
    round_step(s, e)
}

fn at(phase: RoundPhase) -> ProviderRound {
    ProviderRound {
        has_tool_router: true,
        max_tool_rounds: None,
        tool_rounds: 1,
        phase,
        cancelled: false,
        command_failed: false,
        shutdown_after_turn: false,
    }
}

#[test]
fn a_fresh_turn_assembles_at_once_and_a_resumed_one_starts_at_a_boundary() {
    assert_eq!(start_round(true, Some(4), 0, 3, false, false).1, RoundAction::Assemble);
    let (s, a) = start_round(true, Some(4), 2, 3, false, false);
    assert_eq!((s.phase, a), (RoundPhase::Boundary { ready: 3, handled: 0 }, RoundAction::EnterBoundary));
    assert_eq!(start_round(true, Some(4), 2, 3, true, true).1, RoundAction::Conclude { end: RoundEnd::Suspended });
    let (s, a) = start_round(true, Some(4), 2, 3, false, true);
    assert_eq!((s.phase, a), (RoundPhase::ResumedTools, RoundAction::RunResumedTools));
    let (s, a) = step(s, RoundEvent::BatchFinished { result: BatchResult::AppendedResults, ready_commands: 1 });
    assert_eq!((s.tool_rounds, s.phase, a), (2, RoundPhase::Boundary { ready: 1, handled: 0 }, RoundAction::EnterBoundary));
}

#[test]
fn a_tool_round_runs_in_order_and_ends_at_a_boundary() {
    let s = start_round(true, Some(4), 0, 0, false, false).0;
    let (s, a) = step(s, RoundEvent::ReceiptRecorded { ok: true });
    assert_eq!(a, RoundAction::SendRequest);
    let (s, a) = step(s, RoundEvent::ModelReplied { ok: true, tool_calls: 2 });
    assert_eq!(a, RoundAction::PersistAssistant);
    assert_eq!(s.phase, RoundPhase::Persisting { tool_calls: 2 });
    let (s, a) = step(s, RoundEvent::AssistantPersisted { ok: true });
    assert_eq!(a, RoundAction::RunTools);
    assert_eq!(s.tool_rounds, 0);
    let (s, a) = step(s, RoundEvent::BatchFinished { result: BatchResult::AppendedResults, ready_commands: 2 });
    assert_eq!(a, RoundAction::EnterBoundary);
    assert_eq!(s.tool_rounds, 1);
    assert_eq!(s.phase, RoundPhase::Boundary { ready: 2, handled: 0 });
}

#[test]
fn ready_commands_are_handled_before_the_next_assembly() {
    let s = at(RoundPhase::Boundary { ready: 2, handled: 0 });
    let (s, a) = step(s, RoundEvent::Tick { closed: false });
    assert_eq!(a, RoundAction::PollCommand);
    let (s, a) = step(s, RoundEvent::Polled { poll: CommandPoll::Ready });
    assert_eq!(a, RoundAction::HandleCommand);
    let (s, a) = step(s, RoundEvent::Tick { closed: false });
    assert_eq!(a, RoundAction::PollCommand);
    let (s, a) = step(s, RoundEvent::Polled { poll: CommandPoll::Ready });
    assert_eq!(a, RoundAction::HandleCommand);
    assert_eq!(s.phase, RoundPhase::Boundary { ready: 2, handled: 2 });
    let (s, a) = step(s, RoundEvent::Tick { closed: false });
    assert_eq!(a, RoundAction::Assemble);
    assert_eq!(s.phase, RoundPhase::Compiling);
}

#[test]
fn a_cancel_among_the_ready_commands_ends_the_turn_without_a_request() {
    let s = at(RoundPhase::Boundary { ready: 2, handled: 0 });
    let (s, _) = step(s, RoundEvent::Polled { poll: CommandPoll::Ready });
    let (s, a) = step(s, RoundEvent::CommandEnded { end: CommandEnd::Cancelled });
    assert_eq!(a, RoundAction::Conclude { end: RoundEnd::Cancelled });
    for e in [
        RoundEvent::Tick { closed: false },
        RoundEvent::ReceiptRecorded { ok: true },
        RoundEvent::ModelReplied { ok: true, tool_calls: 1 },
    ] {
        assert_eq!(step(s, e).1, RoundAction::Wait);
    }
}

#[test]
fn an_empty_or_closed_channel_at_a_boundary_leads_to_assembly() {
    let boundary = at(RoundPhase::Boundary { ready: 1, handled: 0 });
    let (s, a) = step(boundary, RoundEvent::Polled { poll: CommandPoll::Empty });
    assert_eq!((s.phase, a), (RoundPhase::Compiling, RoundAction::Assemble));
    let (s, a) = step(boundary, RoundEvent::Tick { closed: true });
    assert_eq!((s, a), (boundary, RoundAction::PollCommand));
    let (s, a) = step(boundary, RoundEvent::Polled { poll: CommandPoll::Disconnected });
    assert_eq!((s.phase, a), (RoundPhase::Compiling, RoundAction::HandleClosedChannel));
}

#[test]
fn a_failed_receipt_ends_the_turn_without_a_request() {
    let s = start_round(true, None, 0, 0, false, false).0;
    let (s, a) = step(s, RoundEvent::ReceiptRecorded { ok: false });
    assert_eq!(a, RoundAction::Conclude { end: RoundEnd::Failed });
    assert_eq!(s.phase, RoundPhase::Finished);
    let (_, a) = step(s, RoundEvent::ModelReplied { ok: true, tool_calls: 0 });
    assert_eq!(a, RoundAction::Wait);
}

#[test]
fn commands_during_the_request_take_effect_when_it_is_over() {
    let requesting = at(RoundPhase::Requesting);
    let (cancelled, a) = step(requesting, RoundEvent::CommandEnded { end: CommandEnd::Cancelled });
    assert_eq!(a, RoundAction::Wait);
    assert_eq!(
        step(cancelled, RoundEvent::ModelReplied { ok: true, tool_calls: 1 }).1,
        RoundAction::Conclude { end: RoundEnd::Cancelled }
    );
    let (failed, _) = step(requesting, RoundEvent::CommandEnded { end: CommandEnd::Failed });
    assert_eq!(
        step(failed, RoundEvent::ModelReplied { ok: true, tool_calls: 1 }).1,
        RoundAction::Conclude { end: RoundEnd::Failed }
    );
    let (shutdown, _) = step(requesting, RoundEvent::CommandEnded { end: CommandEnd::Shutdown });
    let (s, a) = step(shutdown, RoundEvent::ModelReplied { ok: true, tool_calls: 1 });
    assert_eq!(a, RoundAction::PersistAssistant);
    let (s, a) = step(s, RoundEvent::AssistantPersisted { ok: true });
    assert_eq!(a, RoundAction::RunTools);
    assert_eq!(
        step(s, RoundEvent::BatchFinished { result: BatchResult::AppendedResults, ready_commands: 0 }).1,
        RoundAction::Conclude { end: RoundEnd::Stopped }
    );
}

#[test]
fn a_reply_without_tool_calls_completes_the_turn() {
    let s = at(RoundPhase::Persisting { tool_calls: 0 });
    let (hooks, a) = step(s, RoundEvent::AssistantPersisted { ok: true });
    assert_eq!(a, RoundAction::RunStopHooks);
    let (recording, a) = step(hooks, RoundEvent::StopHooksRan { ok: true });
    assert_eq!(a, RoundAction::RecordCompletion);
    assert_eq!(step(recording, RoundEvent::CompletionRecorded { ok: true }).1, RoundAction::Conclude { end: RoundEnd::Complete });
    assert_eq!(step(recording, RoundEvent::CompletionRecorded { ok: false }).1, RoundAction::Conclude { end: RoundEnd::Failed });
    assert_eq!(step(hooks, RoundEvent::StopHooksRan { ok: false }).1, RoundAction::Conclude { end: RoundEnd::Failed });
    let no_router = ProviderRound { has_tool_router: false, phase: RoundPhase::Persisting { tool_calls: 3 }, ..s };
    assert_eq!(step(no_router, RoundEvent::AssistantPersisted { ok: true }).1, RoundAction::RunStopHooks);
    assert_eq!(step(s, RoundEvent::AssistantPersisted { ok: false }).1, RoundAction::Conclude { end: RoundEnd::Failed });
}

#[test]
fn an_exhausted_round_budget_fails_the_turn_before_tools_run() {
    let s = ProviderRound { max_tool_rounds: Some(8), tool_rounds: 8, ..at(RoundPhase::Persisting { tool_calls: 1 }) };
    assert_eq!(step(s, RoundEvent::AssistantPersisted { ok: true }).1, RoundAction::Conclude { end: RoundEnd::Failed });
    let within = ProviderRound { tool_rounds: 7, ..s };
    assert_eq!(step(within, RoundEvent::AssistantPersisted { ok: true }).1, RoundAction::RunTools);
}

#[test]
fn batch_outcomes_and_commands_conclude_the_turn() {
    let tools = at(RoundPhase::Tools);
    let end = |r: BatchResult| step(tools, RoundEvent::BatchFinished { result: r, ready_commands: 0 }).1;
    assert_eq!(end(BatchResult::NoTools), RoundAction::RunStopHooks);
    assert_eq!(end(BatchResult::Suspended), RoundAction::Conclude { end: RoundEnd::Suspended });
    assert_eq!(end(BatchResult::AppendFailed), RoundAction::Conclude { end: RoundEnd::Failed });
    assert_eq!(end(BatchResult::Cancelled), RoundAction::Conclude { end: RoundEnd::Cancelled });
    assert_eq!(end(BatchResult::Shutdown), RoundAction::Conclude { end: RoundEnd::Stopped });
    assert_eq!(end(BatchResult::CommandFailed), RoundAction::Conclude { end: RoundEnd::Failed });
    let boundary = at(RoundPhase::Boundary { ready: 0, handled: 0 });
    assert_eq!(
        step(boundary, RoundEvent::CommandEnded { end: CommandEnd::Shutdown }).1,
        RoundAction::Conclude { end: RoundEnd::Stopped }
    );
}
