//! Compaction decisions: when an automatic compaction is due, which summary
//! replaces the history, and how a hook that stops compaction is reported.

use vstd::prelude::*;
use crate::text::{is_blank, text_is_blank};

verus! {

/// Whether an automatic compaction is due: only under a configured limit,
/// once the compiled context retains more text than it allows.
pub fn auto_compaction_due(max_context_text_bytes: Option<usize>, retained_text_bytes: usize) -> (due: bool)
    ensures
        due == (max_context_text_bytes matches Some(max) && retained_text_bytes > max),
{
    match max_context_text_bytes {
        Some(max) => retained_text_bytes > max,
        None => false,
    }
}

/// Whether compiling the preflight context needs the thread's persisted
/// timestamp anchor: only when it has entries or environment contexts to
/// timestamp (otherwise the anchor is 0).
pub fn preflight_needs_timestamp_anchor(entry_count: usize, environment_context_count: usize) -> (needed: bool)
    ensures
        needed == (entry_count > 0 || environment_context_count > 0),
{
    entry_count > 0 || environment_context_count > 0
}

/// Where the summary of a compaction comes from.
#[derive(Debug)]
pub enum CompactionSummarySource {
    /// The summary the command carried.
    Requested(String),
    /// A summary the model writes (or the fallback).
    Generate,
}

/// A requested summary is used unless it is blank; otherwise one is generated.
pub fn compaction_summary_source(requested_summary: Option<String>) -> (source: CompactionSummarySource)
    ensures
        match requested_summary {
            Some(s) => if is_blank(s@) {
                source is Generate
            } else {
                source == CompactionSummarySource::Requested(s)
            },
            None => source is Generate,
        },
{
    match requested_summary {
        Some(summary) => {
            if text_is_blank(summary.as_str()) {
                CompactionSummarySource::Generate
            } else {
                CompactionSummarySource::Requested(summary)
            }
        },
        None => CompactionSummarySource::Generate,
    }
}

/// The summary kept from a model's answer: the answer, unless it is blank,
/// in which case the deterministic fallback.
pub fn settled_compaction_summary(generated: String, fallback: String) -> (summary: String)
    ensures
        summary == (if is_blank(generated@) {
            fallback
        } else {
            generated
        }),
{
    if text_is_blank(generated.as_str()) {
        fallback
    } else {
        generated
    }
}

/// The output budget of a summary request: the configured budget, at most 1024 tokens.
pub fn compaction_request_max_tokens(max_tokens: u32) -> (budget: u32)
    ensures
        budget == (if max_tokens < 1024 {
            max_tokens
        } else {
            1024
        }),
{
    if max_tokens < 1024 {
        max_tokens
    } else {
        1024
    }
}

/// The hook stages that can stop a compaction.
#[derive(Clone, Copy, Debug, PartialEq, Eq, Structural)]
pub enum CompactionHookStage {
    PreCompact,
    PostCompact,
}

/// The policy rejection (code, message) reported when a compaction hook
/// stops: the hook's reason, or a default per stage.
pub fn compaction_hook_rejection(stage: CompactionHookStage, stop_reason: Option<String>) -> (rejection: (
    String,
    String,
))
    ensures
        rejection.0@ == (match stage {
            CompactionHookStage::PreCompact => "pre_compact_hook"@,
            CompactionHookStage::PostCompact => "post_compact_hook"@,
        }),
        rejection.1@ == (match stop_reason {
            Some(r) => r@,
            None => match stage {
                CompactionHookStage::PreCompact => "PreCompact hook stopped compaction"@,
                CompactionHookStage::PostCompact => "PostCompact hook stopped after compaction"@,
            },
        }),
{
    let code = match stage {
        CompactionHookStage::PreCompact => String::from_str("pre_compact_hook"),
        CompactionHookStage::PostCompact => String::from_str("post_compact_hook"),
    };
    let message = match stop_reason {
        Some(reason) => reason,
        None => match stage {
            CompactionHookStage::PreCompact => String::from_str("PreCompact hook stopped compaction"),
            CompactionHookStage::PostCompact => String::from_str("PostCompact hook stopped after compaction"),
        },
    };
    (code, message)
}

} // verus!
