//! The persisted event log as the loop reads it, and the queries that turn
//! history into decisions: steering to fold into a turn, tool rounds already
//! taken, batches still open, and completions already recorded.

use vstd::prelude::*;
use crate::history::{
    text_projection, CanonicalContent,
    block_texts, canonical_content_text_projection, reattach_late_tool_result_entries, reattached, steering_context,
    steering_text, CanonicalMessage, SessionEntry, SessionEntryKind,
};
use crate::recovery::{
    effect_class_from_bind_receipt, receipt_effect_class, AgentManifestBindReceipt, EffectClass,
};
use crate::text::{decimal, is_blank, join, push_decimal, push_str, text_is_blank};

verus! {

/// Kinds of persisted events that the loop reads.
#[derive(Clone, Copy, Debug, PartialEq, Eq, Structural)]
pub enum EventKind {
    SessionEntryAppended,
    TurnSubmitted,
    TurnCompleted,
    TurnResumed,
    TurnWaiting,
    ToolCallRequested,
    ToolCallCompleted,
    ToolCallSuspended,
    ManifestBindCompleted,
    ContextCompileCompleted,
    ThreadJoined,
    Other,
}

/// The turn and call a tool invocation belongs to.
#[derive(Debug)]
pub struct ToolCallSubject {
    pub turn_id: String,
    pub call_id: String,
}

/// The witnessed request of one tool call.
#[derive(Debug)]
pub struct ToolCallRequestedPayload {
    pub subject: ToolCallSubject,
    pub snapshot_id: String,
    pub tool_name: String,
    pub arguments: serde_json::Value,
    pub args_fingerprint: Option<String>,
}

/// How a tool call ended when it was cancelled.
#[derive(Clone, Copy, Debug, PartialEq, Eq, Structural)]
pub enum ToolCallCancellation {
    CancelledAcknowledged,
    CancelledExceededGrace,
}

/// The witnessed completion of one tool call.
#[derive(Debug)]
pub struct ToolCallCompletedPayload {
    pub subject: ToolCallSubject,
    pub snapshot_id: String,
    pub tool_name: String,
    pub success: bool,
    pub args_fingerprint: Option<String>,
    pub duration_ms: Option<u64>,
    pub finish_order: Option<u64>,
    pub cancellation: Option<ToolCallCancellation>,
}

/// What the loop reads of an event's JSON payload. Plain fields are `None`
/// (or empty) when the payload lacks them or holds another JSON type there.
/// The typed payloads are decoded for the event kinds that carry them, with
/// the decoder's message when decoding failed (a suspension payload is read
/// for its subject); a typed payload left `None` on an event of its kind is
/// reported as invalid with the text `missing payload`.
#[derive(Debug)]
pub struct EventPayload {
    pub turn_id: Option<String>,
    pub entry_id: Option<String>,
    pub subject_turn_id: Option<String>,
    pub subject_call_id: Option<String>,
    pub session_entry_ids: Vec<String>,
    pub manifest_hash: Option<String>,
    pub child_thread_id: Option<String>,
    pub terminal_state: Option<String>,
    pub requested: Option<Result<ToolCallRequestedPayload, String>>,
    pub completed: Option<Result<ToolCallCompletedPayload, String>>,
    pub suspended: Option<Result<ToolCallSubject, String>>,
    pub bind_receipt: Option<Result<AgentManifestBindReceipt, String>>,
}

/// One persisted event.
#[derive(Debug)]
pub struct EventRecord {
    pub id: u64,
    pub sequence: u64,
    pub created_at_ms: i64,
    pub kind: EventKind,
    pub source_event_ids: Vec<u64>,
    pub payload: EventPayload,
}

/// Errors of the kernel that the loop reports.
#[derive(Debug)]
pub enum VerletError {
    History(String),
    RuntimeExecution(String),
    RuntimeFactory(String),
}

/// Whether an optional string holds `text`.
pub open spec fn holds_text(field: Option<String>, text: Seq<char>) -> bool {
    match field {
        Some(s) => s@ == text,
        None => false,
    }
}

/// Whether an optional string holds `text`.
pub fn field_holds(field: &Option<String>, text: &str) -> (b: bool)
    ensures
        b == holds_text(*field, text@),
{
    match field {
        Some(s) => crate::text::same_text(s.as_str(), text),
        None => false,
    }
}

// ---------------------------------------------------------------------------
// Latest and earliest events
// ---------------------------------------------------------------------------

/// Index of the last event among the first `k` with the largest sequence
/// number among those that satisfy `keep` (what `max_by_key` picks).
pub open spec fn last_max_index(events: Seq<EventRecord>, keep: spec_fn(EventRecord) -> bool, k: int) -> Option<int>
    decreases k,
{
    if k <= 0 {
        None
    } else {
        let before = last_max_index(events, keep, k - 1);
        if !keep(events[k - 1]) {
            before
        } else {
            match before {
                Some(b) => if events[k - 1].sequence >= events[b].sequence {
                    Some(k - 1)
                } else {
                    before
                },
                None => Some(k - 1),
            }
        }
    }
}

pub(crate) proof fn lemma_last_max_index_range(events: Seq<EventRecord>, keep: spec_fn(EventRecord) -> bool, k: int)
    ensures
        last_max_index(events, keep, k) matches Some(i) ==> 0 <= i < k,
    decreases k,
{
    if k > 0 {
        lemma_last_max_index_range(events, keep, k - 1);
    }
}

/// Every event.
pub open spec fn any_event() -> spec_fn(EventRecord) -> bool {
    |e: EventRecord| true
}

/// The id of the most recent thread event (by sequence).
pub fn latest_thread_event_id(events: &Vec<EventRecord>) -> (id: Option<u64>)
    ensures
        match last_max_index(events@, any_event(), events.len() as int) {
            Some(i) => id == Some(events@[i].id),
            None => id is None,
        },
        id is None <==> events.len() == 0,
{
    let mut best: Option<usize> = None;
    let mut k: usize = 0;
    while k < events.len()
        invariant
            k <= events.len(),
            match best {
                Some(b) => b < k && last_max_index(events@, any_event(), k as int) == Some(b as int),
                None => last_max_index(events@, any_event(), k as int) is None && k == 0,
            },
        decreases events.len() - k,
    {
        best = match best {
            Some(b) => if events[k].sequence >= events[b].sequence { Some(k) } else { Some(b) },
            None => Some(k),
        };
        k = k + 1;
    }
    match best {
        Some(b) => Some(events[b].id),
        None => None,
    }
}

/// A `turn.submitted` event of turn `turn_id`.
pub open spec fn is_submission_of(turn_id: Seq<char>) -> spec_fn(EventRecord) -> bool {
    |e: EventRecord| e.kind == EventKind::TurnSubmitted && holds_text(e.payload.turn_id, turn_id)
}

/// The index of the latest `turn.submitted` event of a turn.
pub fn existing_turn_submitted_event(events: &Vec<EventRecord>, turn_id: &str) -> (index: Option<usize>)
    ensures
        match last_max_index(events@, is_submission_of(turn_id@), events.len() as int) {
            Some(i) => index == Some(i as usize),
            None => index is None,
        },
{
    let mut best: Option<usize> = None;
    let mut k: usize = 0;
    while k < events.len()
        invariant
            k <= events.len(),
            match best {
                Some(b) => b < k && last_max_index(events@, is_submission_of(turn_id@), k as int)
                    == Some(b as int),
                None => last_max_index(events@, is_submission_of(turn_id@), k as int) is None,
            },
        decreases events.len() - k,
    {
        let keep = events[k].kind == EventKind::TurnSubmitted && field_holds(
            &events[k].payload.turn_id,
            turn_id,
        );
        assert(keep == is_submission_of(turn_id@)(events@[k as int]));
        if keep {
            best = match best {
                Some(b) => if events[k].sequence >= events[b].sequence { Some(k) } else { Some(b) },
                None => Some(k),
            };
        }
        k = k + 1;
    }
    best
}

/// Index of the first event among the first `k` with the smallest sequence
/// (what `min_by_key` picks).
pub open spec fn first_min_index(events: Seq<EventRecord>, k: int) -> Option<int>
    decreases k,
{
    if k <= 0 {
        None
    } else {
        match first_min_index(events, k - 1) {
            Some(b) => if events[k - 1].sequence < events[b].sequence { Some(k - 1) } else { Some(b) },
            None => Some(k - 1),
        }
    }
}

/// The creation time of a thread's earliest event, the anchor that context
/// timestamps are relative to.
pub fn persisted_thread_anchor_timestamp_ms(events: &Vec<EventRecord>, thread_id: &str) -> (anchor:
    Result<i64, VerletError>)
    ensures
        match first_min_index(events@, events.len() as int) {
            Some(i) => anchor == Ok::<i64, VerletError>(events@[i].created_at_ms),
            None => anchor matches Err(VerletError::History(m)) && m@ == "thread "@ + thread_id@
                + " has no persisted context timestamp anchor"@,
        },
{
    let mut best: Option<usize> = None;
    let mut k: usize = 0;
    while k < events.len()
        invariant
            k <= events.len(),
            match best {
                Some(b) => b < k && first_min_index(events@, k as int) == Some(b as int),
                None => first_min_index(events@, k as int) is None && k == 0,
            },
        decreases events.len() - k,
    {
        best = match best {
            Some(b) => if events[k].sequence < events[b].sequence { Some(k) } else { Some(b) },
            None => Some(k),
        };
        k = k + 1;
    }
    match best {
        Some(b) => Ok(events[b].created_at_ms),
        None => {
            let mut message = String::from_str("thread ");
            push_str(&mut message, thread_id);
            push_str(&mut message, " has no persisted context timestamp anchor");
            Err(VerletError::History(message))
        },
    }
}

/// The first `session.entry.appended` event among `events[from..]` that
/// records entry `entry_id`.
pub open spec fn entry_event_from(events: Seq<EventRecord>, entry_id: Seq<char>, from: int) -> Option<int>
    decreases events.len() - from,
{
    if from < 0 || from >= events.len() {
        None
    } else if events[from].kind == EventKind::SessionEntryAppended && holds_text(
        events[from].payload.entry_id,
        entry_id,
    ) {
        Some(from)
    } else {
        entry_event_from(events, entry_id, from + 1)
    }
}

/// The id of the event that appended a session entry.
pub fn session_entry_event_id(events: &Vec<EventRecord>, entry_id: &str) -> (id: Option<u64>)
    ensures
        match entry_event_from(events@, entry_id@, 0) {
            Some(i) => id == Some(events@[i].id),
            None => id is None,
        },
{
    let mut k: usize = 0;
    while k < events.len()
        invariant
            k <= events.len(),
            entry_event_from(events@, entry_id@, 0) == entry_event_from(events@, entry_id@, k as int),
        decreases events.len() - k,
    {
        if events[k].kind == EventKind::SessionEntryAppended && field_holds(
            &events[k].payload.entry_id,
            entry_id,
        ) {
            return Some(events[k].id);
        }
        k = k + 1;
    }
    None
}

// ---------------------------------------------------------------------------
// Steering inputs admitted during a turn
// ---------------------------------------------------------------------------

/// Whether an entry was appended after the turn's delivery bound.
pub open spec fn admitted_after(events: Seq<EventRecord>, start_sequence: u64, entry_id: Seq<char>) -> bool {
    exists|i: int|
        0 <= i < events.len() && events[i].sequence > start_sequence && events[i].kind
            == EventKind::SessionEntryAppended && #[trigger] holds_text(events[i].payload.entry_id, entry_id)
}

/// Whether a context-compile receipt already delivered an entry.
pub open spec fn delivered_by_receipt(events: Seq<EventRecord>, entry_id: Seq<char>) -> bool {
    exists|i: int, j: int|
        0 <= i < events.len() && events[i].kind == EventKind::ContextCompileCompleted && 0 <= j
            < events[i].payload.session_entry_ids.len()
            && #[trigger] events[i].payload.session_entry_ids@[j]@ == entry_id
}

/// The steering context of a user input of another turn is the framing line
/// followed by the input's user-visible text projection: its text blocks,
/// one per line (two blocks `a` and `b` give `a`, a newline, then `b`). The
/// input steers exactly when it was admitted after the bound, no compile
/// receipt delivered it yet, and that projection is not blank.
pub proof fn lemma_steering_context_is_the_framed_projection(
    events: Seq<EventRecord>,
    active_turn_id: Seq<char>,
    start_sequence: u64,
    entry: SessionEntry,
    turn: String,
    content: Vec<CanonicalContent>,
)
    requires
        entry.turn_id == Some(turn),
        turn@ != active_turn_id,
        entry.kind == (SessionEntryKind::Message { message: CanonicalMessage::User { content } }),
    ensures
        entry_steering(events, active_turn_id, start_sequence, entry) is Some <==> (admitted_after(
            events,
            start_sequence,
            entry.entry_id@,
        ) && !delivered_by_receipt(events, entry.entry_id@) && !is_blank(text_projection(content@))),
        entry_steering(events, active_turn_id, start_sequence, entry) is Some ==> entry_steering(
            events,
            active_turn_id,
            start_sequence,
            entry,
        )->Some_0 == (SteeringView {
            entry_id: entry.entry_id@,
            context: "Additional user steering for active turn "@ + turn@ + ":\n"@ + text_projection(content@),
        }),
{
}

/// A user input whose text blocks are `a` and `b` steers with `a` and `b`
/// on lines of their own after the framing line.
pub proof fn lemma_two_blocks_steer_on_two_lines(
    events: Seq<EventRecord>,
    active_turn_id: Seq<char>,
    start_sequence: u64,
    entry: SessionEntry,
    turn: String,
    content: Vec<CanonicalContent>,
    a: Seq<char>,
    b: Seq<char>,
)
    requires
        entry.turn_id == Some(turn),
        turn@ != active_turn_id,
        entry.kind == (SessionEntryKind::Message { message: CanonicalMessage::User { content } }),
        block_texts(content@, false) == seq![a, b],
        entry_steering(events, active_turn_id, start_sequence, entry) is Some,
    ensures
        entry_steering(events, active_turn_id, start_sequence, entry)->Some_0.context == "Additional user steering for active turn "@
            + turn@ + ":\n"@ + a + seq!['\n'] + b,
{
    let ps = seq![a, b];
    assert(ps.drop_last() =~= seq![a]);
    assert(join(seq![a], seq!['\n']) == a);
    lemma_steering_context_is_the_framed_projection(events, active_turn_id, start_sequence, entry, turn, content);
}

/// A steering input to fold into the active turn, as the contracts see it.
pub ghost struct SteeringView {
    pub entry_id: Seq<char>,
    pub context: Seq<char>,
}

/// The steering an entry contributes: a user message of another turn,
/// admitted after the bound, not yet delivered, and not blank.
pub open spec fn entry_steering(
    events: Seq<EventRecord>,
    active_turn_id: Seq<char>,
    start_sequence: u64,
    entry: SessionEntry,
) -> Option<SteeringView> {
    match entry.turn_id {
        Some(turn) => if turn@ == active_turn_id || !admitted_after(
            events,
            start_sequence,
            entry.entry_id@,
        ) || delivered_by_receipt(events, entry.entry_id@) {
            None
        } else {
            match entry.kind {
                SessionEntryKind::Message { message: CanonicalMessage::User { content } } => {
                    match steering_text(turn@, crate::text::join(block_texts(content@, false), seq!['\n'])) {
                        Some(context) => Some(SteeringView { entry_id: entry.entry_id@, context }),
                        None => None,
                    }
                },
                _ => None,
            }
        },
        None => None,
    }
}

/// The steering of the first `k` entries, in order.
pub open spec fn steering_prefix(
    events: Seq<EventRecord>,
    active_turn_id: Seq<char>,
    start_sequence: u64,
    entries: Seq<SessionEntry>,
    k: int,
) -> Seq<SteeringView>
    decreases k,
{
    if k <= 0 {
        Seq::empty()
    } else {
        steering_prefix(events, active_turn_id, start_sequence, entries, k - 1) + match entry_steering(
            events,
            active_turn_id,
            start_sequence,
            entries[k - 1],
        ) {
            Some(view) => seq![view],
            None => Seq::empty(),
        }
    }
}

/// A steering input for the active turn.
#[derive(Debug)]
pub struct IntraTurnSteeringContext {
    pub entry_id: String,
    pub context: String,
}

/// The view of a steering input.
pub open spec fn steering_view(s: IntraTurnSteeringContext) -> SteeringView {
    SteeringView { entry_id: s.entry_id@, context: s.context@ }
}

fn entry_admitted_after(events: &Vec<EventRecord>, start_sequence: u64, entry_id: &str) -> (b: bool)
    ensures
        b == admitted_after(events@, start_sequence, entry_id@),
{
    let mut i: usize = 0;
    while i < events.len()
        invariant
            i <= events.len(),
            forall|m: int|
                0 <= m < i ==> !(events@[m].sequence > start_sequence && events@[m].kind
                    == EventKind::SessionEntryAppended && #[trigger] holds_text(events@[m].payload.entry_id, entry_id@)),
        decreases events.len() - i,
    {
        let e = &events[i];
        if e.sequence > start_sequence && e.kind == EventKind::SessionEntryAppended && field_holds(
            &e.payload.entry_id,
            entry_id,
        ) {
            return true;
        }
        i = i + 1;
    }
    false
}

fn entry_delivered(events: &Vec<EventRecord>, entry_id: &str) -> (b: bool)
    ensures
        b == delivered_by_receipt(events@, entry_id@),
{
    let mut i: usize = 0;
    while i < events.len()
        invariant
            i <= events.len(),
            forall|m: int, j: int|
                0 <= m < i && events@[m].kind == EventKind::ContextCompileCompleted && 0 <= j
                    < events@[m].payload.session_entry_ids.len() ==> #[trigger] events@[m].payload.session_entry_ids@[j]@ != entry_id@,
        decreases events.len() - i,
    {
        let e = &events[i];
        if e.kind == EventKind::ContextCompileCompleted {
            let ids = &e.payload.session_entry_ids;
            let mut j: usize = 0;
            while j < ids.len()
                invariant
                    j <= ids.len(),
                    i < events.len(),
                    *ids == events@[i as int].payload.session_entry_ids,
                    events@[i as int].kind == EventKind::ContextCompileCompleted,
                    forall|q: int| 0 <= q < j ==> #[trigger] ids@[q]@ != entry_id@,
                decreases ids.len() - j,
            {
                if crate::text::same_text(ids[j].as_str(), entry_id) {
                    assert(events@[i as int].payload.session_entry_ids@[j as int]@ == entry_id@);
                    return true;
                }
                j = j + 1;
            }
        }
        i = i + 1;
    }
    false
}

/// The steering inputs that a turn's next model request folds in: user
/// inputs of other turns admitted after the turn's delivery bound that no
/// compile receipt has delivered yet.
pub fn intra_turn_steering_contexts_from_events(
    events: &Vec<EventRecord>,
    active_turn_id: &str,
    turn_delivery_start_sequence: u64,
    session_entries: &Vec<SessionEntry>,
) -> (contexts: Vec<IntraTurnSteeringContext>)
    ensures
        contexts@.map_values(|s: IntraTurnSteeringContext| steering_view(s)) == steering_prefix(
            events@,
            active_turn_id@,
            turn_delivery_start_sequence,
            session_entries@,
            session_entries.len() as int,
        ),
{
    let mut contexts: Vec<IntraTurnSteeringContext> = Vec::new();
    let mut k: usize = 0;
    while k < session_entries.len()
        invariant
            k <= session_entries.len(),
            contexts@.map_values(|s: IntraTurnSteeringContext| steering_view(s)) == steering_prefix(
                events@,
                active_turn_id@,
                turn_delivery_start_sequence,
                session_entries@,
                k as int,
            ),
        decreases session_entries.len() - k,
    {
        let entry = &session_entries[k];
        let ghost before = contexts@;
        let found: Option<IntraTurnSteeringContext> = match &entry.turn_id {
            Some(turn) => {
                if crate::text::same_text(turn.as_str(), active_turn_id) || !entry_admitted_after(
                    events,
                    turn_delivery_start_sequence,
                    entry.entry_id.as_str(),
                ) || entry_delivered(events, entry.entry_id.as_str()) {
                    None
                } else {
                    match &entry.kind {
                        SessionEntryKind::Message { message: CanonicalMessage::User { content } } => {
                            let projection = canonical_content_text_projection(content);
                            match steering_context(turn.as_str(), projection) {
                                Some(context) => Some(
                                    IntraTurnSteeringContext { entry_id: entry.entry_id.clone(), context },
                                ),
                                None => None,
                            }
                        },
                        _ => None,
                    }
                }
            },
            None => None,
        };
        match found {
            Some(steer) => {
                contexts.push(steer);
                proof {
                    assert(contexts@.map_values(|s: IntraTurnSteeringContext| steering_view(s)) =~= before.map_values(|s: IntraTurnSteeringContext| steering_view(s)).push(steering_view(contexts@[before.len() as int])));
                }
            },
            None => {},
        }
        proof {
            assert(contexts@.map_values(|s: IntraTurnSteeringContext| steering_view(s)) =~= steering_prefix(
                events@,
                active_turn_id@,
                turn_delivery_start_sequence,
                session_entries@,
                k as int + 1,
            ));
        }
        k = k + 1;
    }
    contexts
}

/// The entries of `entries` whose id is not among `ids`, in order.
pub open spec fn entries_without(entries: Seq<SessionEntry>, ids: Seq<Seq<char>>) -> Seq<SessionEntry>
    decreases entries.len(),
{
    if entries.len() == 0 {
        entries
    } else {
        let rest = entries_without(entries.drop_last(), ids);
        if ids.contains(entries.last().entry_id@) {
            rest
        } else {
            rest.push(entries.last())
        }
    }
}

/// The entry ids of steering inputs.
pub open spec fn steering_entry_ids(steering: Seq<IntraTurnSteeringContext>) -> Seq<Seq<char>> {
    steering.map_values(|s: IntraTurnSteeringContext| s.entry_id@)
}

fn is_steering_entry(steering: &Vec<IntraTurnSteeringContext>, entry_id: &str) -> (b: bool)
    ensures
        b == steering_entry_ids(steering@).contains(entry_id@),
{
    let mut i: usize = 0;
    while i < steering.len()
        invariant
            i <= steering.len(),
            forall|m: int| 0 <= m < i ==> steering_entry_ids(steering@)[m] != entry_id@,
        decreases steering.len() - i,
    {
        assert(steering_entry_ids(steering@)[i as int] == steering@[i as int].entry_id@);
        if crate::text::same_text(steering[i].entry_id.as_str(), entry_id) {
            return true;
        }
        i = i + 1;
    }
    false
}

/// The history a turn's request is assembled from: the session entries
/// without the steering inputs folded in as hook contexts, with late tool
/// results reattached.
pub fn turn_assembly_entries(entries: Vec<SessionEntry>, steering: &Vec<IntraTurnSteeringContext>) -> (assembly: Vec<
    SessionEntry,
>)
    ensures
        assembly@ == reattached(entries_without(entries@, steering_entry_ids(steering@))),
{
    let ghost original = entries@;
    let ghost ids = steering_entry_ids(steering@);
    let n = entries.len();
    let mut entries = entries;
    let mut kept: Vec<SessionEntry> = Vec::new();
    let mut i: usize = 0;
    while i < n
        invariant
            i <= n,
            n == original.len(),
            ids == steering_entry_ids(steering@),
            entries@ == original.skip(i as int),
            kept@ == entries_without(original.take(i as int), ids),
        decreases n - i,
    {
        let entry = entries.remove(0);
        proof {
            assert(original.skip(i as int)[0] == entry);
            assert(entries@ =~= original.skip(i as int + 1));
            assert(original.take(i as int + 1).drop_last() =~= original.take(i as int));
            assert(original.take(i as int + 1).last() == entry);
        }
        if !is_steering_entry(steering, entry.entry_id.as_str()) {
            kept.push(entry);
        }
        i = i + 1;
    }
    proof {
        assert(original.take(n as int) =~= original);
    }
    reattach_late_tool_result_entries(kept)
}

// ---------------------------------------------------------------------------
// The context compile receipt
// ---------------------------------------------------------------------------

/// The part of a turn's context compile receipt that the loop decides: the
/// turn, the assembly strategy, the session entries the request was compiled
/// from (the folded steering inputs included), and the counts of what was
/// compiled and of what the provider's context policy dropped or truncated.
/// The runtime adds the compiler's diagnostics, the replay transform counts,
/// the static segments and the hash of the encoded messages.
#[derive(Debug)]
pub struct ContextCompileReceipt {
    pub turn_id: String,
    pub strategy: String,
    pub strategy_version: String,
    pub session_entry_ids: Vec<String>,
    pub observation_ids: Vec<String>,
    pub system_block_count: usize,
    pub message_count: usize,
    pub tool_count: usize,
    pub provider_dropped_messages: usize,
    pub provider_truncated_text_bytes: usize,
    pub provider_retained_text_bytes: usize,
}

/// The ids a receipt lists for the session entries, in order.
pub open spec fn receipt_entry_ids(entries: Seq<SessionEntry>) -> Seq<Seq<char>> {
    entries.map_values(|e: SessionEntry| e.entry_id@)
}

/// The receipt of a turn's context compilation over `session_entries`.
pub fn context_compile_receipt(
    turn_id: &str,
    session_entries: &Vec<SessionEntry>,
    system_block_count: usize,
    message_count: usize,
    tool_count: usize,
    provider_dropped_messages: usize,
    provider_truncated_text_bytes: usize,
    provider_retained_text_bytes: usize,
) -> (receipt: ContextCompileReceipt)
    ensures
        receipt.turn_id@ == turn_id@,
        receipt.strategy@ == "naive_assembly"@,
        receipt.strategy_version@ == "v1"@,
        receipt.session_entry_ids@.map_values(|s: String| s@) == receipt_entry_ids(session_entries@),
        receipt.observation_ids@ == Seq::<String>::empty(),
        receipt.system_block_count == system_block_count,
        receipt.message_count == message_count,
        receipt.tool_count == tool_count,
        receipt.provider_dropped_messages == provider_dropped_messages,
        receipt.provider_truncated_text_bytes == provider_truncated_text_bytes,
        receipt.provider_retained_text_bytes == provider_retained_text_bytes,
{
    let mut ids: Vec<String> = Vec::new();
    let mut i: usize = 0;
    while i < session_entries.len()
        invariant
            i <= session_entries.len(),
            ids.len() == i,
            forall|j: int| 0 <= j < i ==> (#[trigger] ids@[j])@ == session_entries@[j].entry_id@,
        decreases session_entries.len() - i,
    {
        ids.push(session_entries[i].entry_id.clone());
        i = i + 1;
    }
    proof {
        assert(ids@.map_values(|s: String| s@) =~= receipt_entry_ids(session_entries@));
    }
    ContextCompileReceipt {
        turn_id: String::from_str(turn_id),
        strategy: String::from_str("naive_assembly"),
        strategy_version: String::from_str("v1"),
        session_entry_ids: ids,
        observation_ids: Vec::new(),
        system_block_count,
        message_count,
        tool_count,
        provider_dropped_messages,
        provider_truncated_text_bytes,
        provider_retained_text_bytes,
    }
}

proof fn lemma_entries_without_excludes(entries: Seq<SessionEntry>, ids: Seq<Seq<char>>)
    ensures
        forall|p: int|
            0 <= p < entries_without(entries, ids).len() ==> !ids.contains(
                (#[trigger] entries_without(entries, ids)[p]).entry_id@,
            ),
    decreases entries.len(),
{
    if entries.len() > 0 {
        lemma_entries_without_excludes(entries.drop_last(), ids);
    }
}

/// The receipt covers the steering inputs that the request folds in as
/// hook contexts: each one's entry id is listed among the receipt's session
/// entries, while the history the request is assembled from holds no entry
/// with that id.
pub proof fn lemma_receipt_covers_folded_steering(
    entries: Seq<SessionEntry>,
    steering: Seq<IntraTurnSteeringContext>,
    k: int,
    s: int,
)
    requires
        0 <= k < entries.len(),
        0 <= s < steering.len(),
        entries[k].entry_id@ == steering[s].entry_id@,
    ensures
        receipt_entry_ids(entries).contains(steering[s].entry_id@),
        forall|p: int|
            0 <= p < reattached(entries_without(entries, steering_entry_ids(steering))).len() ==> (
            #[trigger] reattached(entries_without(entries, steering_entry_ids(steering)))[p]).entry_id@
                != steering[s].entry_id@,
{
    let ids = steering_entry_ids(steering);
    let kept = entries_without(entries, ids);
    assert(receipt_entry_ids(entries)[k] == steering[s].entry_id@);
    assert(ids[s] == steering[s].entry_id@);
    lemma_entries_without_excludes(entries, ids);
    crate::history::lemma_reattaching_keeps_the_entries(kept);
    assert forall|p: int| 0 <= p < reattached(kept).len() implies (#[trigger] reattached(kept)[p]).entry_id@
        != steering[s].entry_id@ by {
        let q = choose|q: int| 0 <= q < kept.len() && reattached(kept)[p] == kept[q];
        assert(!ids.contains(kept[q].entry_id@));
    }
}

// ---------------------------------------------------------------------------
// Tool rounds already taken by a turn
// ---------------------------------------------------------------------------

/// A `tool.call.requested` event of turn `turn_id`.
pub open spec fn requests_for_turn(event: EventRecord, turn_id: Seq<char>) -> bool {
    event.kind == EventKind::ToolCallRequested && holds_text(event.payload.subject_turn_id, turn_id)
}

/// Whether `id` is the id of a `session.entry.appended` event.
pub open spec fn is_session_entry_event(events: Seq<EventRecord>, id: u64) -> bool {
    exists|i: int| 0 <= i < events.len() && events[i].kind == EventKind::SessionEntryAppended
        && #[trigger] events[i].id == id
}

/// The message of a request without an assistant source.
pub open spec fn no_source_message(request_id: u64, turn_id: Seq<char>) -> Seq<char> {
    "tool.call.requested "@ + decimal(request_id as nat) + " for turn "@ + turn_id
        + " has no assistant source event"@
}

/// The message of a request whose assistant source lies outside the turn.
pub open spec fn outside_source_message(request_id: u64, turn_id: Seq<char>, source: u64) -> Seq<char> {
    "tool.call.requested "@ + decimal(request_id as nat) + " for turn "@ + turn_id
        + " references assistant source event "@ + decimal(source as nat) + " outside the active turn"@
}

/// The distinct assistant batches that the first `k` events request tools
/// for, in order of first appearance, or the message of the first request
/// whose source is missing or outside the active turn.
pub open spec fn tool_round_sources(events: Seq<EventRecord>, turn_id: Seq<char>, k: int) -> Result<
    Seq<u64>,
    Seq<char>,
>
    decreases k,
{
    if k <= 0 {
        Ok(Seq::empty())
    } else {
        match tool_round_sources(events, turn_id, k - 1) {
            Err(message) => Err(message),
            Ok(seen) => {
                let e = events[k - 1];
                if !requests_for_turn(e, turn_id) {
                    Ok(seen)
                } else if e.source_event_ids.len() == 0 {
                    Err(no_source_message(e.id, turn_id))
                } else if !is_session_entry_event(events, e.source_event_ids@[0]) {
                    Err(outside_source_message(e.id, turn_id, e.source_event_ids@[0]))
                } else if seen.contains(e.source_event_ids@[0]) {
                    Ok(seen)
                } else {
                    Ok(seen.push(e.source_event_ids@[0]))
                }
            },
        }
    }
}

fn has_session_entry_event(events: &Vec<EventRecord>, id: u64) -> (b: bool)
    ensures
        b == is_session_entry_event(events@, id),
{
    let mut i: usize = 0;
    while i < events.len()
        invariant
            i <= events.len(),
            forall|m: int| 0 <= m < i ==> !(events@[m].kind == EventKind::SessionEntryAppended
                && #[trigger] events@[m].id == id),
        decreases events.len() - i,
    {
        if events[i].kind == EventKind::SessionEntryAppended && events[i].id == id {
            return true;
        }
        i = i + 1;
    }
    false
}

fn contains_id(ids: &Vec<u64>, id: u64) -> (b: bool)
    ensures
        b == ids@.contains(id),
{
    let mut i: usize = 0;
    while i < ids.len()
        invariant
            i <= ids.len(),
            forall|m: int| 0 <= m < i ==> ids@[m] != id,
        decreases ids.len() - i,
    {
        if ids[i] == id {
            return true;
        }
        i = i + 1;
    }
    false
}

/// Number of tool rounds a turn already took since its delivery bound: the
/// distinct assistant batches that its tool requests cite. `events` are the
/// thread's events from the bound on.
pub fn persisted_tool_rounds_for_turn(events: &Vec<EventRecord>, turn_id: &str) -> (rounds: Result<
    usize,
    VerletError,
>)
    ensures
        match tool_round_sources(events@, turn_id@, events.len() as int) {
            Ok(seen) => rounds == Ok::<usize, VerletError>(seen.len() as usize),
            Err(message) => rounds matches Err(VerletError::History(m)) && m@ == message,
        },
{
    let mut seen: Vec<u64> = Vec::new();
    let mut k: usize = 0;
    while k < events.len()
        invariant
            k <= events.len(),
            seen.len() <= k,
            tool_round_sources(events@, turn_id@, k as int) == Ok::<Seq<u64>, Seq<char>>(seen@),
        decreases events.len() - k,
    {
        let e = &events[k];
        if e.kind == EventKind::ToolCallRequested && field_holds(&e.payload.subject_turn_id, turn_id) {
            if e.source_event_ids.len() == 0 {
                let mut message = String::from_str("tool.call.requested ");
                push_decimal(&mut message, e.id);
                push_str(&mut message, " for turn ");
                push_str(&mut message, turn_id);
                push_str(&mut message, " has no assistant source event");
                proof {
                    lemma_round_error_sticks(events@, turn_id@, k as int + 1, events.len() as int);
                }
                return Err(VerletError::History(message));
            }
            let source = e.source_event_ids[0];
            if !has_session_entry_event(events, source) {
                let mut message = String::from_str("tool.call.requested ");
                push_decimal(&mut message, e.id);
                push_str(&mut message, " for turn ");
                push_str(&mut message, turn_id);
                push_str(&mut message, " references assistant source event ");
                push_decimal(&mut message, source);
                push_str(&mut message, " outside the active turn");
                proof {
                    lemma_round_error_sticks(events@, turn_id@, k as int + 1, events.len() as int);
                }
                return Err(VerletError::History(message));
            }
            if !contains_id(&seen, source) {
                seen.push(source);
            }
        }
        k = k + 1;
    }
    Ok(seen.len())
}

proof fn lemma_round_error_sticks(events: Seq<EventRecord>, turn_id: Seq<char>, k: int, n: int)
    requires
        k <= n,
        tool_round_sources(events, turn_id, k) is Err,
    ensures
        tool_round_sources(events, turn_id, n) == tool_round_sources(events, turn_id, k),
    decreases n - k,
{
    if k < n {
        lemma_round_error_sticks(events, turn_id, k, n - 1);
    }
}

/// A turn's tool rounds are its distinct assistant batches: the requests of
/// one batch count once, however many calls it made (a batch that was
/// suspended and resumed stays one round).
pub proof fn lemma_each_batch_is_one_round(events: Seq<EventRecord>, turn_id: Seq<char>, k: int)
    requires
        tool_round_sources(events, turn_id, k) is Ok,
    ensures
        tool_round_sources(events, turn_id, k)->Ok_0.no_duplicates(),
    decreases k,
{
    if k > 0 {
        lemma_each_batch_is_one_round(events, turn_id, k - 1);
    }
}

// ---------------------------------------------------------------------------
// Completions already recorded
// ---------------------------------------------------------------------------

/// Whether a completion records the invocation with this snapshot and fingerprint.
pub open spec fn completion_matches(
    completion: ToolCallCompletedPayload,
    snapshot_id: Seq<char>,
    fingerprint: Option<Seq<char>>,
) -> bool {
    completion.snapshot_id@ == snapshot_id && match (completion.args_fingerprint, fingerprint) {
        (Some(a), Some(b)) => a@ == b,
        (None, None) => true,
        _ => false,
    }
}

/// A completion recorded without a fingerprint never stands for a call that
/// has one, and a fingerprinted completion never stands for a fingerprintless
/// call: a legacy record cannot swallow a new fingerprinted completion.
pub proof fn lemma_fingerprints_must_agree(
    completion: ToolCallCompletedPayload,
    snapshot_id: Seq<char>,
    fingerprint: Option<Seq<char>>,
)
    ensures
        completion_matches(completion, snapshot_id, fingerprint) ==> opt_string_view(completion.args_fingerprint)
            == fingerprint,
{
}

/// A `tool.call.completed` event of one subject.
pub open spec fn completes_subject(event: EventRecord, turn_id: Seq<char>, call_id: Seq<char>) -> bool {
    event.kind == EventKind::ToolCallCompleted && holds_text(event.payload.subject_turn_id, turn_id)
        && holds_text(event.payload.subject_call_id, call_id)
}

/// Scanning `events[from..]`: whether a completion of the subject matches,
/// or the message of the first such completion whose payload does not decode.
pub open spec fn matching_completion_from(
    events: Seq<EventRecord>,
    turn_id: Seq<char>,
    call_id: Seq<char>,
    snapshot_id: Seq<char>,
    fingerprint: Option<Seq<char>>,
    from: int,
) -> Result<bool, Seq<char>>
    decreases events.len() - from,
{
    if from < 0 || from >= events.len() {
        Ok(false)
    } else if !completes_subject(events[from], turn_id, call_id) {
        matching_completion_from(events, turn_id, call_id, snapshot_id, fingerprint, from + 1)
    } else {
        match events[from].payload.completed {
            Some(Ok(completion)) => if completion_matches(completion, snapshot_id, fingerprint) {
                Ok(true)
            } else {
                matching_completion_from(events, turn_id, call_id, snapshot_id, fingerprint, from + 1)
            },
            Some(Err(decode)) => Err(
                "tool.call.completed "@ + decimal(events[from].id as nat) + " payload is invalid: "@
                    + decode@,
            ),
            None => Err(
                "tool.call.completed "@ + decimal(events[from].id as nat) + " payload is invalid: "@
                    + "missing payload"@,
            ),
        }
    }
}

/// A legacy completion, recorded without a fingerprint, does not swallow a
/// fingerprinted completion of the same subject: when every recorded
/// completion of the subject decodes and carries no fingerprint, an
/// invocation with a fingerprint finds no match, so its own completion is
/// still appended.
pub proof fn lemma_legacy_completions_do_not_match_a_fingerprint(
    events: Seq<EventRecord>,
    turn_id: Seq<char>,
    call_id: Seq<char>,
    snapshot_id: Seq<char>,
    fingerprint: Seq<char>,
    from: int,
)
    requires
        0 <= from,
        forall|i: int|
            0 <= i < events.len() && completes_subject(#[trigger] events[i], turn_id, call_id) ==> (
            events[i].payload.completed matches Some(Ok(c)) && c.args_fingerprint is None),
    ensures
        matching_completion_from(events, turn_id, call_id, snapshot_id, Some(fingerprint), from) == Ok::<
            bool,
            Seq<char>,
        >(false),
    decreases events.len() - from,
{
    if from < events.len() {
        lemma_legacy_completions_do_not_match_a_fingerprint(events, turn_id, call_id, snapshot_id, fingerprint, from + 1);
    }
}

/// The view of an optional string slice.
pub open spec fn opt_view(text: Option<&str>) -> Option<Seq<char>> {
    match text {
        Some(t) => Some(t@),
        None => None,
    }
}

/// Whether an optional string equals an optional string slice.
fn same_optional_text(a: &Option<String>, b: Option<&str>) -> (same: bool)
    ensures
        same == match (*a, b) {
            (Some(x), Some(y)) => x@ == y@,
            (None, None) => true,
            _ => false,
        },
{
    match (a, b) {
        (Some(x), Some(y)) => crate::text::same_text(x.as_str(), y),
        (None, None) => true,
        _ => false,
    }
}

/// Whether a completion of this exact invocation was already recorded.
pub fn matching_tool_call_completed_exists(
    events: &Vec<EventRecord>,
    turn_id: &str,
    call_id: &str,
    snapshot_id: &str,
    args_fingerprint: Option<&str>,
) -> (exists: Result<bool, VerletError>)
    ensures
        match matching_completion_from(events@, turn_id@, call_id@, snapshot_id@, opt_view(args_fingerprint), 0) {
            Ok(b) => exists == Ok::<bool, VerletError>(b),
            Err(message) => exists matches Err(VerletError::History(m)) && m@ == message,
        },
{
    let mut k: usize = 0;
    while k < events.len()
        invariant
            k <= events.len(),
            matching_completion_from(events@, turn_id@, call_id@, snapshot_id@, opt_view(args_fingerprint), 0)
                == matching_completion_from(events@, turn_id@, call_id@, snapshot_id@, opt_view(args_fingerprint), k as int),
        decreases events.len() - k,
    {
        let e = &events[k];
        if e.kind == EventKind::ToolCallCompleted && field_holds(&e.payload.subject_turn_id, turn_id)
            && field_holds(&e.payload.subject_call_id, call_id) {
            match &e.payload.completed {
                Some(Ok(completion)) => {
                    if crate::text::same_text(completion.snapshot_id.as_str(), snapshot_id)
                        && same_optional_text(&completion.args_fingerprint, args_fingerprint) {
                        return Ok(true);
                    }
                },
                Some(Err(decode)) => {
                    let mut message = String::from_str("tool.call.completed ");
                    push_decimal(&mut message, e.id);
                    push_str(&mut message, " payload is invalid: ");
                    push_str(&mut message, decode.as_str());
                    return Err(VerletError::History(message));
                },
                None => {
                    let mut message = String::from_str("tool.call.completed ");
                    push_decimal(&mut message, e.id);
                    push_str(&mut message, " payload is invalid: ");
                    push_str(&mut message, "missing payload");
                    return Err(VerletError::History(message));
                },
            }
        }
        k = k + 1;
    }
    Ok(false)
}

/// The sequence the next appended event takes: one past the last event's
/// (saturating), or 1 in an empty stream.
pub open spec fn next_sequence(events: Seq<EventRecord>) -> u64 {
    if events.len() == 0 {
        1
    } else if events.last().sequence == u64::MAX {
        u64::MAX
    } else {
        (events.last().sequence + 1) as u64
    }
}

/// Whether `record` is the `tool.call.completed` event that carries
/// `payload`, with the given id, sequence and time.
pub open spec fn is_completion_record(
    record: EventRecord,
    id: u64,
    sequence: u64,
    created_at_ms: i64,
    payload: ToolCallCompletedPayload,
) -> bool {
    &&& record.id == id
    &&& record.sequence == sequence
    &&& record.created_at_ms == created_at_ms
    &&& record.kind == EventKind::ToolCallCompleted
    &&& record.source_event_ids@ == Seq::<u64>::empty()
    &&& record.payload.turn_id is None
    &&& record.payload.entry_id is None
    &&& holds_text(record.payload.subject_turn_id, payload.subject.turn_id@)
    &&& holds_text(record.payload.subject_call_id, payload.subject.call_id@)
    &&& record.payload.session_entry_ids@ == Seq::<String>::empty()
    &&& record.payload.manifest_hash is None
    &&& record.payload.child_thread_id is None
    &&& record.payload.terminal_state is None
    &&& record.payload.requested is None
    &&& record.payload.completed == Some(Ok::<ToolCallCompletedPayload, String>(payload))
    &&& record.payload.suspended is None
    &&& record.payload.bind_receipt is None
}

/// Records the completion of a tool call in the thread's event log, unless
/// a completion of the same invocation (subject, snapshot and fingerprint)
/// is already there; says whether it appended. A recorded completion of the
/// subject whose payload does not decode is a history error, and nothing is
/// appended then.
pub fn append_tool_completion_event(
    events: &mut Vec<EventRecord>,
    id: u64,
    created_at_ms: i64,
    payload: ToolCallCompletedPayload,
) -> (appended: Result<bool, VerletError>)
    ensures
        match matching_completion_from(
            old(events)@,
            payload.subject.turn_id@,
            payload.subject.call_id@,
            payload.snapshot_id@,
            opt_string_view(payload.args_fingerprint),
            0,
        ) {
            Ok(true) => appended == Ok::<bool, VerletError>(false) && final(events)@ == old(events)@,
            Ok(false) => {
                &&& appended == Ok::<bool, VerletError>(true)
                &&& final(events)@.len() == old(events)@.len() + 1
                &&& final(events)@.drop_last() == old(events)@
                &&& is_completion_record(
                    final(events)@.last(),
                    id,
                    next_sequence(old(events)@),
                    created_at_ms,
                    payload,
                )
            },
            Err(m) => (appended matches Err(VerletError::History(mm)) && mm@ == m) && final(events)@ == old(
                events,
            )@,
        },
{
    let fingerprint: Option<&str> = match &payload.args_fingerprint {
        Some(f) => Some(f.as_str()),
        None => None,
    };
    proof {
        assert(opt_view(fingerprint) == opt_string_view(payload.args_fingerprint));
    }
    let found = matching_tool_call_completed_exists(
        events,
        payload.subject.turn_id.as_str(),
        payload.subject.call_id.as_str(),
        payload.snapshot_id.as_str(),
        fingerprint,
    );
    match found {
        Err(e) => Err(e),
        Ok(true) => Ok(false),
        Ok(false) => {
            let sequence: u64 = if events.len() == 0 {
                1
            } else if events[events.len() - 1].sequence == u64::MAX {
                u64::MAX
            } else {
                events[events.len() - 1].sequence + 1
            };
            let record = EventRecord {
                id,
                sequence,
                created_at_ms,
                kind: EventKind::ToolCallCompleted,
                source_event_ids: Vec::new(),
                payload: EventPayload {
                    turn_id: None,
                    entry_id: None,
                    subject_turn_id: Some(payload.subject.turn_id.clone()),
                    subject_call_id: Some(payload.subject.call_id.clone()),
                    session_entry_ids: Vec::new(),
                    manifest_hash: None,
                    child_thread_id: None,
                    terminal_state: None,
                    requested: None,
                    completed: Some(Ok(payload)),
                    suspended: None,
                    bind_receipt: None,
                },
            };
            let ghost before = events@;
            events.push(record);
            proof {
                assert(events@.drop_last() =~= before);
            }
            Ok(true)
        },
    }
}

proof fn lemma_pushed_completion_matches(
    events: Seq<EventRecord>,
    record: EventRecord,
    turn_id: Seq<char>,
    call_id: Seq<char>,
    snapshot_id: Seq<char>,
    fingerprint: Option<Seq<char>>,
    from: int,
)
    requires
        0 <= from <= events.len(),
        matching_completion_from(events, turn_id, call_id, snapshot_id, fingerprint, from) == Ok::<bool, Seq<char>>(false),
        completes_subject(record, turn_id, call_id),
        record.payload.completed matches Some(Ok(c)) && completion_matches(c, snapshot_id, fingerprint),
    ensures
        matching_completion_from(events.push(record), turn_id, call_id, snapshot_id, fingerprint, from) == Ok::<
            bool,
            Seq<char>,
        >(true),
    decreases events.len() - from,
{
    let pushed = events.push(record);
    if from < events.len() {
        assert(pushed[from] == events[from]);
        lemma_pushed_completion_matches(events, record, turn_id, call_id, snapshot_id, fingerprint, from + 1);
    } else {
        assert(pushed[from] == record);
    }
}

/// A completion is appended at most once: when no completion of the same
/// invocation was recorded, the appended record is one, so recording the
/// completion again appends nothing; and, with
/// `lemma_legacy_completions_do_not_match_a_fingerprint`, a legacy
/// completion without a fingerprint does not keep a fingerprinted one from
/// being appended.
pub proof fn lemma_completion_is_appended_once(
    events: Seq<EventRecord>,
    record: EventRecord,
    id: u64,
    created_at_ms: i64,
    payload: ToolCallCompletedPayload,
)
    requires
        matching_completion_from(
            events,
            payload.subject.turn_id@,
            payload.subject.call_id@,
            payload.snapshot_id@,
            opt_string_view(payload.args_fingerprint),
            0,
        ) == Ok::<bool, Seq<char>>(false),
        is_completion_record(record, id, next_sequence(events), created_at_ms, payload),
    ensures
        matching_completion_from(
            events.push(record),
            payload.subject.turn_id@,
            payload.subject.call_id@,
            payload.snapshot_id@,
            opt_string_view(payload.args_fingerprint),
            0,
        ) == Ok::<bool, Seq<char>>(true),
{
    assert(completion_matches(payload, payload.snapshot_id@, opt_string_view(payload.args_fingerprint)));
    lemma_pushed_completion_matches(
        events,
        record,
        payload.subject.turn_id@,
        payload.subject.call_id@,
        payload.snapshot_id@,
        opt_string_view(payload.args_fingerprint),
        0,
    );
}

// ---------------------------------------------------------------------------
// Effect class of a witnessed request
// ---------------------------------------------------------------------------

/// The last `manifest.bind.completed` event among the first `k` that bound
/// snapshot `snapshot_id`.
pub open spec fn last_bind_of(events: Seq<EventRecord>, snapshot_id: Seq<char>, k: int) -> Option<int>
    decreases k,
{
    if k <= 0 {
        None
    } else if events[k - 1].kind == EventKind::ManifestBindCompleted && holds_text(
        events[k - 1].payload.manifest_hash,
        snapshot_id,
    ) {
        Some(k - 1)
    } else {
        last_bind_of(events, snapshot_id, k - 1)
    }
}

/// The effect class of a witnessed request: from the latest bind receipt of
/// its snapshot (a bash call through the operation its `command` argument
/// names), or at-most-once when the snapshot has none.
pub fn effect_class_for_request(
    events: &Vec<EventRecord>,
    snapshot_id: &str,
    tool_name: &str,
    arguments: &serde_json::Value,
) -> (class: Result<EffectClass, VerletError>)
    ensures
        match last_bind_of(events@, snapshot_id@, events.len() as int) {
            None => class == Ok::<EffectClass, VerletError>(EffectClass::AtMostOnce),
            Some(i) => match events@[i].payload.bind_receipt {
                Some(Ok(receipt)) => class == Ok::<EffectClass, VerletError>(receipt_effect_class(
                    receipt,
                    tool_name@,
                    crate::recovery::bash_command_of(tool_name@, *arguments),
                )),
                Some(Err(decode)) => class matches Err(VerletError::History(m)) && m@
                    == "manifest.bind.completed "@ + decimal(events@[i].id as nat)
                    + " payload is invalid: "@ + decode@,
                None => class matches Err(VerletError::History(m)) && m@
                    == "manifest.bind.completed "@ + decimal(events@[i].id as nat)
                    + " payload is invalid: "@ + "missing payload"@,
            },
        },
{
    let mut k: usize = events.len();
    while k > 0
        invariant
            k <= events.len(),
            last_bind_of(events@, snapshot_id@, events.len() as int) == last_bind_of(events@, snapshot_id@, k as int),
        decreases k,
    {
        let e = &events[k - 1];
        if e.kind == EventKind::ManifestBindCompleted && field_holds(&e.payload.manifest_hash, snapshot_id) {
            return match &e.payload.bind_receipt {
                Some(Ok(receipt)) => Ok(effect_class_from_bind_receipt(receipt, tool_name, arguments)),
                Some(Err(decode)) => {
                    let mut message = String::from_str("manifest.bind.completed ");
                    push_decimal(&mut message, e.id);
                    push_str(&mut message, " payload is invalid: ");
                    push_str(&mut message, decode.as_str());
                    Err(VerletError::History(message))
                },
                None => {
                    let mut message = String::from_str("manifest.bind.completed ");
                    push_decimal(&mut message, e.id);
                    push_str(&mut message, " payload is invalid: ");
                    push_str(&mut message, "missing payload");
                    Err(VerletError::History(message))
                },
            };
        }
        k = k - 1;
    }
    Ok(EffectClass::AtMostOnce)
}

// ---------------------------------------------------------------------------
// Whether an assistant batch is complete
// ---------------------------------------------------------------------------

/// One invocation of a batch: its subject, snapshot and fingerprint.
#[derive(Debug)]
pub struct InvocationKey {
    pub turn_id: String,
    pub call_id: String,
    pub snapshot_id: String,
    pub fingerprint: Option<String>,
}

/// An invocation as the contracts see it.
pub ghost struct InvocationView {
    pub turn_id: Seq<char>,
    pub call_id: Seq<char>,
    pub snapshot_id: Seq<char>,
    pub fingerprint: Option<Seq<char>>,
}

/// The view of an optional string.
pub open spec fn opt_string_view(text: Option<String>) -> Option<Seq<char>> {
    match text {
        Some(t) => Some(t@),
        None => None,
    }
}

/// The view of an invocation key.
pub open spec fn invocation_view(key: InvocationKey) -> InvocationView {
    InvocationView {
        turn_id: key.turn_id@,
        call_id: key.call_id@,
        snapshot_id: key.snapshot_id@,
        fingerprint: opt_string_view(key.fingerprint),
    }
}

/// The invocation a request witnesses.
pub open spec fn requested_invocation(p: ToolCallRequestedPayload) -> InvocationView {
    InvocationView {
        turn_id: p.subject.turn_id@,
        call_id: p.subject.call_id@,
        snapshot_id: p.snapshot_id@,
        fingerprint: opt_string_view(p.args_fingerprint),
    }
}

/// The invocation a completion records.
pub open spec fn completed_invocation(p: ToolCallCompletedPayload) -> InvocationView {
    InvocationView {
        turn_id: p.subject.turn_id@,
        call_id: p.subject.call_id@,
        snapshot_id: p.snapshot_id@,
        fingerprint: opt_string_view(p.args_fingerprint),
    }
}

/// Whether a batch already holds an invocation with the same subject.
pub open spec fn has_subject(batch: Seq<InvocationView>, turn_id: Seq<char>, call_id: Seq<char>) -> bool {
    exists|i: int| 0 <= i < batch.len() && #[trigger] batch[i].turn_id == turn_id && batch[i].call_id == call_id
}

/// The message for a decoding failure of a payload.
pub open spec fn invalid_payload_message(kind: Seq<char>, decode: Option<Seq<char>>) -> Seq<char> {
    kind + " payload is invalid: "@ + match decode {
        Some(d) => d,
        None => "missing payload"@,
    }
}

/// Scanning the first `k` events: the batch of assistant source `source` for
/// turn `turn_id` and the turn's completions, or the first error.
pub open spec fn batch_scan(events: Seq<EventRecord>, turn_id: Seq<char>, source: u64, k: int) -> Result<
    (Seq<InvocationView>, Seq<InvocationView>),
    Seq<char>,
>
    decreases k,
{
    if k <= 0 {
        Ok((Seq::empty(), Seq::empty()))
    } else {
        match batch_scan(events, turn_id, source, k - 1) {
            Err(m) => Err(m),
            Ok((batch, done)) => {
                let e = events[k - 1];
                if e.kind == EventKind::ToolCallRequested && e.source_event_ids.len() > 0
                    && e.source_event_ids@[0] == source {
                    match e.payload.requested {
                        Some(Ok(p)) => if p.subject.turn_id@ != turn_id {
                            Ok((batch, done))
                        } else if has_subject(batch, p.subject.turn_id@, p.subject.call_id@) {
                            Err(
                                "assistant source event "@ + decimal(source as nat)
                                    + " contains duplicate tool call subjects"@,
                            )
                        } else {
                            Ok((batch.push(requested_invocation(p)), done))
                        },
                        Some(Err(d)) => Err(invalid_payload_message("tool.call.requested"@, Some(d@))),
                        None => Err(invalid_payload_message("tool.call.requested"@, None)),
                    }
                } else if e.kind == EventKind::ToolCallCompleted && holds_text(
                    e.payload.subject_turn_id,
                    turn_id,
                ) {
                    match e.payload.completed {
                        Some(Ok(p)) => Ok((batch, done.push(completed_invocation(p)))),
                        Some(Err(d)) => Err(invalid_payload_message("tool.call.completed"@, Some(d@))),
                        None => Err(invalid_payload_message("tool.call.completed"@, None)),
                    }
                } else {
                    Ok((batch, done))
                }
            },
        }
    }
}

/// Whether every invocation of a batch has a matching completion.
pub open spec fn all_completed(batch: Seq<InvocationView>, done: Seq<InvocationView>) -> bool {
    forall|i: int| 0 <= i < batch.len() ==> #[trigger] done.contains(batch[i])
}

/// Whether the batch an assistant entry issued for a turn is complete, or why
/// that cannot be told.
pub open spec fn batch_completion(events: Seq<EventRecord>, turn_id: Seq<char>, source: u64) -> Result<bool, Seq<char>> {
    match batch_scan(events, turn_id, source, events.len() as int) {
        Err(m) => Err(m),
        Ok((batch, done)) => if batch.len() == 0 {
            Err(
                "assistant source event "@ + decimal(source as nat) + " has no tool request batch for turn "@
                    + turn_id,
            )
        } else {
            Ok(all_completed(batch, done))
        },
    }
}

fn key_of_request(p: &ToolCallRequestedPayload) -> (key: InvocationKey)
    ensures
        invocation_view(key) == requested_invocation(*p),
{
    InvocationKey {
        turn_id: p.subject.turn_id.clone(),
        call_id: p.subject.call_id.clone(),
        snapshot_id: p.snapshot_id.clone(),
        fingerprint: match &p.args_fingerprint {
            Some(f) => Some(f.clone()),
            None => None,
        },
    }
}

fn key_of_completion(p: &ToolCallCompletedPayload) -> (key: InvocationKey)
    ensures
        invocation_view(key) == completed_invocation(*p),
{
    InvocationKey {
        turn_id: p.subject.turn_id.clone(),
        call_id: p.subject.call_id.clone(),
        snapshot_id: p.snapshot_id.clone(),
        fingerprint: match &p.args_fingerprint {
            Some(f) => Some(f.clone()),
            None => None,
        },
    }
}

fn same_key(a: &InvocationKey, b: &InvocationKey) -> (same: bool)
    ensures
        same == (invocation_view(*a) == invocation_view(*b)),
{
    crate::text::same_text(a.turn_id.as_str(), b.turn_id.as_str())
        && crate::text::same_text(a.call_id.as_str(), b.call_id.as_str())
        && crate::text::same_text(a.snapshot_id.as_str(), b.snapshot_id.as_str())
        && match (&a.fingerprint, &b.fingerprint) {
        (Some(x), Some(y)) => crate::text::same_text(x.as_str(), y.as_str()),
        (None, None) => true,
        _ => false,
    }
}

/// The views of a list of invocation keys.
pub open spec fn key_views(keys: Seq<InvocationKey>) -> Seq<InvocationView> {
    keys.map_values(|k: InvocationKey| invocation_view(k))
}

fn holds_subject(batch: &Vec<InvocationKey>, turn_id: &String, call_id: &String) -> (b: bool)
    ensures
        b == has_subject(key_views(batch@), turn_id@, call_id@),
{
    let mut i: usize = 0;
    while i < batch.len()
        invariant
            i <= batch.len(),
            forall|m: int| 0 <= m < i ==> !(#[trigger] key_views(batch@)[m].turn_id == turn_id@
                && key_views(batch@)[m].call_id == call_id@),
        decreases batch.len() - i,
    {
        assert(key_views(batch@)[i as int] == invocation_view(batch@[i as int]));
        if crate::text::same_text(batch[i].turn_id.as_str(), turn_id.as_str())
            && crate::text::same_text(batch[i].call_id.as_str(), call_id.as_str()) {
            assert(key_views(batch@)[i as int].turn_id == turn_id@ && key_views(batch@)[i as int].call_id == call_id@);
            return true;
        }
        i = i + 1;
    }
    false
}

fn contains_key(keys: &Vec<InvocationKey>, key: &InvocationKey) -> (b: bool)
    ensures
        b == key_views(keys@).contains(invocation_view(*key)),
{
    let mut i: usize = 0;
    while i < keys.len()
        invariant
            i <= keys.len(),
            forall|m: int| 0 <= m < i ==> key_views(keys@)[m] != invocation_view(*key),
        decreases keys.len() - i,
    {
        assert(key_views(keys@)[i as int] == invocation_view(keys@[i as int]));
        if same_key(&keys[i], key) {
            return true;
        }
        i = i + 1;
    }
    false
}

fn invalid_payload(kind: &str, decode: Option<&String>) -> (message: String)
    ensures
        message@ == invalid_payload_message(kind@, match decode {
            Some(d) => Some(d@),
            None => None,
        }),
{
    let mut message = String::from_str(kind);
    push_str(&mut message, " payload is invalid: ");
    match decode {
        Some(d) => push_str(&mut message, d.as_str()),
        None => push_str(&mut message, "missing payload"),
    }
    message
}

proof fn lemma_batch_error_sticks(events: Seq<EventRecord>, turn_id: Seq<char>, source: u64, k: int, n: int)
    requires
        k <= n,
        batch_scan(events, turn_id, source, k) is Err,
    ensures
        batch_scan(events, turn_id, source, n) == batch_scan(events, turn_id, source, k),
    decreases n - k,
{
    if k < n {
        lemma_batch_error_sticks(events, turn_id, source, k, n - 1);
    }
}

/// Whether every call that an assistant entry requested for a turn has a
/// completion recorded under the same snapshot and fingerprint.
pub fn tool_call_batch_completed(
    events: &Vec<EventRecord>,
    turn_id: &str,
    assistant_source_event_id: u64,
) -> (completed: Result<bool, VerletError>)
    ensures
        match batch_completion(events@, turn_id@, assistant_source_event_id) {
            Ok(b) => completed == Ok::<bool, VerletError>(b),
            Err(message) => completed matches Err(VerletError::History(m)) && m@ == message,
        },
{
    let n = events.len();
    let mut batch: Vec<InvocationKey> = Vec::new();
    let mut done: Vec<InvocationKey> = Vec::new();
    proof {
        assert(key_views(batch@) =~= Seq::<InvocationView>::empty());
        assert(key_views(done@) =~= Seq::<InvocationView>::empty());
    }
    let mut k: usize = 0;
    while k < n
        invariant
            k <= n,
            n == events.len(),
            batch_scan(events@, turn_id@, assistant_source_event_id, k as int) == Ok::<
                (Seq<InvocationView>, Seq<InvocationView>),
                Seq<char>,
            >((key_views(batch@), key_views(done@))),
        decreases n - k,
    {
        let e = &events[k];
        let ghost b0 = batch@;
        let ghost d0 = done@;
        if e.kind == EventKind::ToolCallRequested && e.source_event_ids.len() > 0
            && e.source_event_ids[0] == assistant_source_event_id {
            match &e.payload.requested {
                Some(Ok(p)) => {
                    if crate::text::same_text(p.subject.turn_id.as_str(), turn_id) {
                        if holds_subject(&batch, &p.subject.turn_id, &p.subject.call_id) {
                            let mut message = String::from_str("assistant source event ");
                            push_decimal(&mut message, assistant_source_event_id);
                            push_str(&mut message, " contains duplicate tool call subjects");
                            proof {
                                lemma_batch_error_sticks(events@, turn_id@, assistant_source_event_id, k as int + 1, n as int);
                            }
                            return Err(VerletError::History(message));
                        }
                        batch.push(key_of_request(p));
                        proof {
                            assert(key_views(batch@) =~= key_views(b0).push(requested_invocation(*p)));
                        }
                    }
                },
                Some(Err(decode)) => {
                    let message = invalid_payload("tool.call.requested", Some(decode));
                    proof {
                        lemma_batch_error_sticks(events@, turn_id@, assistant_source_event_id, k as int + 1, n as int);
                    }
                    return Err(VerletError::History(message));
                },
                None => {
                    let message = invalid_payload("tool.call.requested", None);
                    proof {
                        lemma_batch_error_sticks(events@, turn_id@, assistant_source_event_id, k as int + 1, n as int);
                    }
                    return Err(VerletError::History(message));
                },
            }
        } else if e.kind == EventKind::ToolCallCompleted && field_holds(&e.payload.subject_turn_id, turn_id) {
            match &e.payload.completed {
                Some(Ok(p)) => {
                    done.push(key_of_completion(p));
                    proof {
                        assert(key_views(done@) =~= key_views(d0).push(completed_invocation(*p)));
                    }
                },
                Some(Err(decode)) => {
                    let message = invalid_payload("tool.call.completed", Some(decode));
                    proof {
                        lemma_batch_error_sticks(events@, turn_id@, assistant_source_event_id, k as int + 1, n as int);
                    }
                    return Err(VerletError::History(message));
                },
                None => {
                    let message = invalid_payload("tool.call.completed", None);
                    proof {
                        lemma_batch_error_sticks(events@, turn_id@, assistant_source_event_id, k as int + 1, n as int);
                    }
                    return Err(VerletError::History(message));
                },
            }
        }
        k = k + 1;
    }
    if batch.len() == 0 {
        let mut message = String::from_str("assistant source event ");
        push_decimal(&mut message, assistant_source_event_id);
        push_str(&mut message, " has no tool request batch for turn ");
        push_str(&mut message, turn_id);
        return Err(VerletError::History(message));
    }
    let mut i: usize = 0;
    while i < batch.len()
        invariant
            i <= batch.len(),
            batch_scan(events@, turn_id@, assistant_source_event_id, events.len() as int) == Ok::<
                (Seq<InvocationView>, Seq<InvocationView>),
                Seq<char>,
            >((key_views(batch@), key_views(done@))),
            batch.len() > 0,
            forall|m: int| 0 <= m < i ==> #[trigger] key_views(done@).contains(key_views(batch@)[m]),
        decreases batch.len() - i,
    {
        assert(key_views(batch@)[i as int] == invocation_view(batch@[i as int]));
        if !contains_key(&done, &batch[i]) {
            assert(!key_views(done@).contains(key_views(batch@)[i as int]));
            return Ok(false);
        }
        i = i + 1;
    }
    Ok(true)
}

// ---------------------------------------------------------------------------
// The pending request of a suspended call
// ---------------------------------------------------------------------------

/// Where the witnessed request of a call stands, and the assistant entry that
/// issued it.
#[derive(Clone, Copy, Debug, PartialEq, Eq, Structural)]
pub struct PendingRequestRef {
    pub event_index: usize,
    pub assistant_source_event_id: u64,
}

/// Scanning the first `k` events: the requests of subject `turn_id/call_id`
/// (index and assistant source), or the first error.
pub open spec fn subject_requests(events: Seq<EventRecord>, turn_id: Seq<char>, call_id: Seq<char>, k: int) -> Result<
    Seq<(int, u64)>,
    Seq<char>,
>
    decreases k,
{
    if k <= 0 {
        Ok(Seq::empty())
    } else {
        match subject_requests(events, turn_id, call_id, k - 1) {
            Err(m) => Err(m),
            Ok(found) => {
                let e = events[k - 1];
                if e.kind != EventKind::ToolCallRequested {
                    Ok(found)
                } else {
                    match e.payload.requested {
                        Some(Ok(p)) => if p.subject.turn_id@ == turn_id && p.subject.call_id@ == call_id {
                            if e.source_event_ids.len() == 0 {
                                Err(
                                    "tool.call.requested "@ + decimal(e.id as nat) + " for "@ + turn_id + "/"@
                                        + call_id + " has no assistant source event"@,
                                )
                            } else {
                                Ok(found.push((k - 1, e.source_event_ids@[0])))
                            }
                        } else {
                            Ok(found)
                        },
                        Some(Err(d)) => Err(invalid_payload_message("tool.call.requested"@, Some(d@))),
                        None => Err(invalid_payload_message("tool.call.requested"@, None)),
                    }
                }
            },
        }
    }
}

proof fn lemma_subject_error_sticks(events: Seq<EventRecord>, turn_id: Seq<char>, call_id: Seq<char>, k: int, n: int)
    requires
        k <= n,
        subject_requests(events, turn_id, call_id, k) is Err,
    ensures
        subject_requests(events, turn_id, call_id, n) == subject_requests(events, turn_id, call_id, k),
    decreases n - k,
{
    if k < n {
        lemma_subject_error_sticks(events, turn_id, call_id, k, n - 1);
    }
}

/// The one witnessed request of a call: none, exactly one, or an error when
/// several requests claim the same subject.
pub fn pending_tool_call_request(events: &Vec<EventRecord>, turn_id: &str, call_id: &str) -> (request:
    Result<Option<PendingRequestRef>, VerletError>)
    ensures
        match subject_requests(events@, turn_id@, call_id@, events.len() as int) {
            Err(message) => request matches Err(VerletError::History(m)) && m@ == message,
            Ok(found) => if found.len() == 0 {
                request == Ok::<Option<PendingRequestRef>, VerletError>(None)
            } else if found.len() == 1 {
                request == Ok::<Option<PendingRequestRef>, VerletError>(Some(PendingRequestRef {
                    event_index: found[0].0 as usize,
                    assistant_source_event_id: found[0].1,
                }))
            } else {
                request matches Err(VerletError::History(m)) && m@ == "found "@ + decimal(found.len())
                    + " tool.call.requested events for ambiguous subject "@ + turn_id@ + "/"@ + call_id@
            },
        },
{
    let n = events.len();
    let mut found: Vec<PendingRequestRef> = Vec::new();
    let mut k: usize = 0;
    while k < n
        invariant
            k <= n,
            n == events.len(),
            found.len() <= k,
            match subject_requests(events@, turn_id@, call_id@, k as int) {
                Ok(f) => f.len() == found.len() && forall|m: int| 0 <= m < f.len() ==> (#[trigger] found@[m]).event_index == f[m].0 && found@[m].assistant_source_event_id == f[m].1,
                Err(_) => false,
            },
        decreases n - k,
    {
        let e = &events[k];
        if e.kind == EventKind::ToolCallRequested {
            match &e.payload.requested {
                Some(Ok(p)) => {
                    if crate::text::same_text(p.subject.turn_id.as_str(), turn_id)
                        && crate::text::same_text(p.subject.call_id.as_str(), call_id) {
                        if e.source_event_ids.len() == 0 {
                            let mut message = String::from_str("tool.call.requested ");
                            push_decimal(&mut message, e.id);
                            push_str(&mut message, " for ");
                            push_str(&mut message, turn_id);
                            push_str(&mut message, "/");
                            push_str(&mut message, call_id);
                            push_str(&mut message, " has no assistant source event");
                            proof {
                                lemma_subject_error_sticks(events@, turn_id@, call_id@, k as int + 1, n as int);
                            }
                            return Err(VerletError::History(message));
                        }
                        found.push(PendingRequestRef {
                            event_index: k,
                            assistant_source_event_id: e.source_event_ids[0],
                        });
                    }
                },
                Some(Err(decode)) => {
                    let message = invalid_payload("tool.call.requested", Some(decode));
                    proof {
                        lemma_subject_error_sticks(events@, turn_id@, call_id@, k as int + 1, n as int);
                    }
                    return Err(VerletError::History(message));
                },
                None => {
                    let message = invalid_payload("tool.call.requested", None);
                    proof {
                        lemma_subject_error_sticks(events@, turn_id@, call_id@, k as int + 1, n as int);
                    }
                    return Err(VerletError::History(message));
                },
            }
        }
        k = k + 1;
    }
    if found.len() == 0 {
        Ok(None)
    } else if found.len() == 1 {
        Ok(Some(found[0]))
    } else {
        let mut message = String::from_str("found ");
        push_decimal(&mut message, found.len() as u64);
        push_str(&mut message, " tool.call.requested events for ambiguous subject ");
        push_str(&mut message, turn_id);
        push_str(&mut message, "/");
        push_str(&mut message, call_id);
        Err(VerletError::History(message))
    }
}

} // verus!
