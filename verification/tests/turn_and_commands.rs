use verlet_agent_loop::commands::{
    auto_compaction_turn_id, cancel_step_outcome, decide_active_command, decide_idle_command, deferred_batch_terminal,
    idle_compaction_follow_up, idle_resume_follow_up, idle_steer_rejection, steer_append_step, steer_failure_outcome,
    tool_batch_command_must_wait_for_commit, tool_batch_outcome_for_command, ActiveCommandStep,
    ActiveProviderCommandOutcome, CompactionTrigger, IdleCommandStep, IdleFollowUp, SteerAppendStep, ThreadCommand,
    ThreadTerminalState, ToolAppendOutcome, ToolBatchAwaitOutcome, ToolResumeOutcome, TurnInput, TurnSubmissionMode,
};
use verlet_agent_loop::events::VerletError;
use verlet_agent_loop::turn::{
    assistant_follow_up, cancelled_round_conclusion, conclude_turn_round, exhausted_tool_round_budget,
    max_tool_rounds_for_thread, parse_usize_decimal, resumed_batch_reaction, turn_batch_reaction,
    turn_has_pending_suspension, AssistantFollowUp, IntParseFailure, TurnBatchReaction, TurnConclusion,
    TurnRoundState, MAX_TOOL_ROUTER_ROUNDS,
};

fn submit(mode: TurnSubmissionMode) -> ThreadCommand {
    ThreadCommand::Submit {
        turn_id: "turn-2".to_string(),
        input: TurnInput { text: "more".to_string(), watchdog_id: None },
        mode,
    }
}

fn factory_message<T: std::fmt::Debug>(result: Result<T, VerletError>) -> String {
    match result {
        Err(VerletError::RuntimeFactory(message)) => message,
        other => panic!("expected a factory error, got {other:?}"),
    }
}

fn round(shutdown: bool, failed: bool, suspended: bool, more: bool) -> TurnRoundState {
    TurnRoundState {
        terminal_join_recorded: false,
        shutdown_after_turn: shutdown,
        failed,
        failure_code: None,
        failure_reason: None,
        emit_failure_signal: true,
        continue_after_tools: more,
        suspended_after_tools: suspended,
    }
}

#[test]
fn default_tool_round_budget_is_eight_rounds() {
    assert_eq!(MAX_TOOL_ROUTER_ROUNDS, 8);
    assert_eq!(exhausted_tool_round_budget(Some(8), 7), None);
    assert_eq!(exhausted_tool_round_budget(Some(8), 8), Some(8));
    assert_eq!(exhausted_tool_round_budget(None, 1000), None);
    match assistant_follow_up(true, 2, Some(8), 8) {
        AssistantFollowUp::BudgetExceeded { reason } => assert_eq!(reason, "tool router exceeded 8 rounds"),
        other => panic!("unexpected {other:?}"),
    }
    assert!(matches!(assistant_follow_up(true, 2, Some(64), 8), AssistantFollowUp::RunTools));
    assert!(matches!(assistant_follow_up(true, 0, Some(1), 8), AssistantFollowUp::Done));
    assert!(matches!(assistant_follow_up(false, 3, Some(1), 8), AssistantFollowUp::Done));
}

#[test]
fn thread_metadata_sets_or_lifts_the_round_budget() {
    assert_eq!(max_tool_rounds_for_thread(None, Some(8)).unwrap(), Some(8));
    assert_eq!(max_tool_rounds_for_thread(Some("unlimited"), Some(8)).unwrap(), None);
    assert_eq!(max_tool_rounds_for_thread(Some("64"), Some(8)).unwrap(), Some(64));
    assert_eq!(max_tool_rounds_for_thread(Some("+3"), None).unwrap(), Some(3));
    assert_eq!(
        factory_message(max_tool_rounds_for_thread(Some("0"), Some(8))),
        "manifest runtime max_tool_rounds metadata must be > 0 or \"unlimited\""
    );
    assert_eq!(
        factory_message(max_tool_rounds_for_thread(Some("many"), Some(8))),
        format!("manifest runtime max_tool_rounds metadata is invalid: {}", "many".parse::<usize>().unwrap_err())
    );
    assert_eq!(
        factory_message(max_tool_rounds_for_thread(Some(""), Some(8))),
        format!("manifest runtime max_tool_rounds metadata is invalid: {}", "".parse::<usize>().unwrap_err())
    );
    let huge = "99999999999999999999999999";
    assert_eq!(
        factory_message(max_tool_rounds_for_thread(Some(huge), Some(8))),
        format!("manifest runtime max_tool_rounds metadata is invalid: {}", huge.parse::<usize>().unwrap_err())
    );
}

#[test]
fn decimal_parsing_agrees_with_std() {
    for text in ["0", "7", "+12", "18446744073709551615", "18446744073709551616", "", "+", "-1", "1_0", " 1", "0009"] {
        let expected = text.parse::<usize>().ok();
        assert_eq!(parse_usize_decimal(text).ok(), expected, "{text:?}");
    }
    assert_eq!(parse_usize_decimal(""), Err(IntParseFailure::Empty));
    assert_eq!(parse_usize_decimal("+"), Err(IntParseFailure::InvalidDigit));
    assert_eq!(parse_usize_decimal("1x"), Err(IntParseFailure::InvalidDigit));
}

#[test]
fn active_commands_cancel_queue_steer_interrupt_or_defer() {
    match decide_active_command(Some(ThreadCommand::Cancel { reason: "stop".to_string() }), None, false, false) {
        ActiveCommandStep::Cancel { reason, record_terminal, cancels } => {
            assert_eq!(reason, "stop");
            assert!(record_terminal && cancels);
        },
        other => panic!("unexpected {other:?}"),
    }
    match decide_active_command(Some(ThreadCommand::Cancel { reason: "stop".to_string() }), None, true, false) {
        ActiveCommandStep::Cancel { record_terminal, cancels, .. } => assert!(!record_terminal && !cancels),
        other => panic!("unexpected {other:?}"),
    }
    let watchdog = ThreadCommand::CancelTurn { watchdog_token_id: "w-1".to_string(), reason: "timeout".to_string() };
    assert!(matches!(decide_active_command(Some(watchdog), Some("w-2"), false, false), ActiveCommandStep::Ignore));
    let watchdog = ThreadCommand::CancelTurn { watchdog_token_id: "w-1".to_string(), reason: "timeout".to_string() };
    match decide_active_command(Some(watchdog), Some("w-1"), false, true) {
        ActiveCommandStep::Cancel { reason, record_terminal, cancels } => {
            assert_eq!(reason, "timeout");
            assert!(!record_terminal && cancels);
        },
        other => panic!("unexpected {other:?}"),
    }
    assert!(matches!(decide_active_command(None, None, false, false), ActiveCommandStep::Shutdown));
    assert!(matches!(decide_active_command(Some(ThreadCommand::Shutdown), None, false, false), ActiveCommandStep::Shutdown));
    assert!(matches!(
        decide_active_command(Some(submit(TurnSubmissionMode::Queue)), None, false, false),
        ActiveCommandStep::Queue { command: ThreadCommand::Submit { mode: TurnSubmissionMode::Queue, .. } }
    ));
    assert!(matches!(
        decide_active_command(Some(submit(TurnSubmissionMode::Steer)), None, false, false),
        ActiveCommandStep::Steer { ref turn_id, .. } if turn_id == "turn-2"
    ));
    match decide_active_command(Some(submit(TurnSubmissionMode::Interrupt)), None, false, false) {
        ActiveCommandStep::Interrupt { reason, resubmit, record_terminal, cancels } => {
            assert_eq!(reason, "interrupted by turn turn-2");
            assert!(matches!(resubmit, ThreadCommand::Submit { mode: TurnSubmissionMode::Queue, .. }));
            assert!(record_terminal && cancels);
        },
        other => panic!("unexpected {other:?}"),
    }
    let compact = ThreadCommand::Compact { turn_id: "c".to_string(), trigger: CompactionTrigger::Manual, summary: None };
    assert!(matches!(decide_active_command(Some(compact), None, false, false), ActiveCommandStep::Defer { .. }));
}

#[test]
fn only_queued_submissions_compactions_and_resumptions_skip_the_commit_wait() {
    assert!(!tool_batch_command_must_wait_for_commit(&Some(submit(TurnSubmissionMode::Queue))));
    assert!(tool_batch_command_must_wait_for_commit(&Some(submit(TurnSubmissionMode::Steer))));
    assert!(tool_batch_command_must_wait_for_commit(&Some(submit(TurnSubmissionMode::Interrupt))));
    assert!(!tool_batch_command_must_wait_for_commit(&Some(ThreadCommand::Compact {
        turn_id: "c".to_string(),
        trigger: CompactionTrigger::Auto,
        summary: None,
    })));
    assert!(!tool_batch_command_must_wait_for_commit(&Some(ThreadCommand::ResumeToolCall {
        turn_id: "t".to_string(),
        call_id: "c".to_string(),
    })));
    assert!(tool_batch_command_must_wait_for_commit(&Some(ThreadCommand::Shutdown)));
    assert!(tool_batch_command_must_wait_for_commit(&None));
}

#[test]
fn command_outcomes_translate_into_batch_outcomes_and_terminals() {
    assert!(matches!(cancel_step_outcome("r".to_string(), true), ActiveProviderCommandOutcome::Cancelled { .. }));
    assert!(matches!(cancel_step_outcome("r".to_string(), false), ActiveProviderCommandOutcome::Continue));
    assert!(matches!(steer_append_step(Ok(()), false), SteerAppendStep::Delivered));
    match steer_append_step(Err("disk full".to_string()), true) {
        SteerAppendStep::Failed { reason, record_terminal } => {
            assert_eq!(reason, "disk full");
            assert!(!record_terminal);
        },
        other => panic!("unexpected {other:?}"),
    }
    match steer_failure_outcome("disk full".to_string()) {
        ActiveProviderCommandOutcome::Failed { code, reason } => {
            assert_eq!(code, "history");
            assert_eq!(reason, "disk full");
        },
        other => panic!("unexpected {other:?}"),
    }
    assert!(tool_batch_outcome_for_command(ActiveProviderCommandOutcome::Continue).is_none());
    let cancelled = tool_batch_outcome_for_command(ActiveProviderCommandOutcome::Cancelled { reason: "r".to_string() }).unwrap();
    assert_eq!(deferred_batch_terminal(&cancelled), Some((ThreadTerminalState::Cancelled, "r".to_string())));
    let failed = ToolBatchAwaitOutcome::Failed { code: "history".to_string(), reason: "x".to_string() };
    assert_eq!(deferred_batch_terminal(&failed), Some((ThreadTerminalState::Failed, "x".to_string())));
    assert_eq!(deferred_batch_terminal(&ToolBatchAwaitOutcome::Shutdown), None);
}

#[test]
fn idle_commands_start_turns_and_reject_steering() {
    assert!(matches!(decide_idle_command(submit(TurnSubmissionMode::Steer)), IdleCommandStep::SteerWithoutTurn { .. }));
    assert!(matches!(decide_idle_command(submit(TurnSubmissionMode::Queue)), IdleCommandStep::StartTurn { .. }));
    assert!(matches!(decide_idle_command(submit(TurnSubmissionMode::Interrupt)), IdleCommandStep::StartTurn { .. }));
    assert!(matches!(
        decide_idle_command(ThreadCommand::CancelTurn { watchdog_token_id: "w".to_string(), reason: "r".to_string() }),
        IdleCommandStep::Ignore
    ));
    assert!(matches!(decide_idle_command(ThreadCommand::Shutdown), IdleCommandStep::Shutdown));
    assert_eq!(
        idle_steer_rejection(),
        ("no_active_turn".to_string(), "steer input requires an active provider turn".to_string())
    );
    assert_eq!(auto_compaction_turn_id("turn-5"), "turn-5:auto_compact");
    assert!(matches!(
        idle_resume_follow_up(Ok(ToolResumeOutcome::Resumed {
            source_event_id: 4,
            turn_delivery_start_sequence: 9,
            turn_anchor_timestamp_ms: 100
        })),
        IdleFollowUp::RunTurn { source_event_id: 4, turn_delivery_start_sequence: 9, turn_anchor_timestamp_ms: 100 }
    ));
    assert!(matches!(idle_resume_follow_up(Ok(ToolResumeOutcome::StillWaiting)), IdleFollowUp::Idle));
    assert!(matches!(
        idle_resume_follow_up(Err("gone".to_string())),
        IdleFollowUp::Fail { ref code, ref message } if code == "tool_resume" && message == "gone"
    ));
    assert!(matches!(
        idle_compaction_follow_up(Err("bad".to_string())),
        IdleFollowUp::Fail { ref code, .. } if code == "compaction"
    ));
    assert!(matches!(idle_compaction_follow_up(Ok(())), IdleFollowUp::Idle));
}

#[test]
fn rounds_conclude_by_precedence() {
    assert!(matches!(conclude_turn_round(round(true, true, true, true)), TurnConclusion::Stopped));
    match conclude_turn_round(round(false, true, true, true)) {
        TurnConclusion::Failed { code, reason, record_terminal, emit_signal } => {
            assert_eq!(code, "runtime_execution");
            assert_eq!(reason, "provider turn failed without reason detail");
            assert!(record_terminal && emit_signal);
        },
        other => panic!("unexpected {other:?}"),
    }
    assert!(matches!(conclude_turn_round(round(false, false, true, true)), TurnConclusion::Suspended));
    assert!(matches!(conclude_turn_round(round(false, false, false, true)), TurnConclusion::NextRound));
    assert!(matches!(conclude_turn_round(round(false, false, false, false)), TurnConclusion::Complete));
    assert!(matches!(
        cancelled_round_conclusion("r".to_string(), true),
        TurnConclusion::Cancelled { record_terminal: false, .. }
    ));
    assert!(turn_has_pending_suspension(&vec!["a".to_string(), "b".to_string()], "b"));
    assert!(!turn_has_pending_suspension(&vec!["a".to_string()], "b"));
}

#[test]
fn batch_outcomes_steer_the_round() {
    assert!(matches!(turn_batch_reaction(ToolBatchAwaitOutcome::Completed(Ok(ToolAppendOutcome::NoTools))), TurnBatchReaction::NoTools));
    assert!(matches!(
        turn_batch_reaction(ToolBatchAwaitOutcome::Completed(Ok(ToolAppendOutcome::AppendedResults))),
        TurnBatchReaction::NextRound
    ));
    assert!(matches!(
        resumed_batch_reaction(ToolBatchAwaitOutcome::Completed(Ok(ToolAppendOutcome::AppendedResults))),
        TurnBatchReaction::NoTools
    ));
    assert!(matches!(
        turn_batch_reaction(ToolBatchAwaitOutcome::Completed(Ok(ToolAppendOutcome::Suspended))),
        TurnBatchReaction::Suspend
    ));
    assert!(matches!(
        turn_batch_reaction(ToolBatchAwaitOutcome::Completed(Err(VerletError::History("h".to_string())))),
        TurnBatchReaction::FailRound { error: VerletError::History(_) }
    ));
    assert!(matches!(turn_batch_reaction(ToolBatchAwaitOutcome::Shutdown), TurnBatchReaction::EndStopped));
}
