use verlet_agent_loop::compaction::{
    auto_compaction_due, compaction_hook_rejection, compaction_request_max_tokens, compaction_summary_source,
    preflight_needs_timestamp_anchor, settled_compaction_summary, CompactionHookStage, CompactionSummarySource,
};

#[test]
fn auto_compaction_is_due_only_past_a_configured_limit() {
    assert!(!auto_compaction_due(None, usize::MAX));
    assert!(!auto_compaction_due(Some(100), 100));
    assert!(auto_compaction_due(Some(100), 101));
    assert!(!preflight_needs_timestamp_anchor(0, 0));
    assert!(preflight_needs_timestamp_anchor(1, 0));
    assert!(preflight_needs_timestamp_anchor(0, 2));
}

#[test]
fn requested_summaries_win_unless_blank() {
    assert!(matches!(
        compaction_summary_source(Some("keep the plan".to_string())),
        CompactionSummarySource::Requested(ref s) if s == "keep the plan"
    ));
    assert!(matches!(compaction_summary_source(Some(" \n".to_string())), CompactionSummarySource::Generate));
    assert!(matches!(compaction_summary_source(None), CompactionSummarySource::Generate));
    assert_eq!(settled_compaction_summary("model summary".to_string(), "fallback".to_string()), "model summary");
    assert_eq!(settled_compaction_summary("\t".to_string(), "fallback".to_string()), "fallback");
    assert_eq!(compaction_request_max_tokens(4096), 1024);
    assert_eq!(compaction_request_max_tokens(300), 300);
}

#[test]
fn stopped_compaction_hooks_are_reported_as_policy_rejections() {
    assert_eq!(
        compaction_hook_rejection(CompactionHookStage::PreCompact, None),
        ("pre_compact_hook".to_string(), "PreCompact hook stopped compaction".to_string())
    );
    assert_eq!(
        compaction_hook_rejection(CompactionHookStage::PostCompact, None),
        ("post_compact_hook".to_string(), "PostCompact hook stopped after compaction".to_string())
    );
    assert_eq!(
        compaction_hook_rejection(CompactionHookStage::PreCompact, Some("not now".to_string())),
        ("pre_compact_hook".to_string(), "not now".to_string())
    );
}
