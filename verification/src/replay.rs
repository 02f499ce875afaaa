//! Replaying the witnessed tool batch that a turn left open: the latest
//! batch of the turn, the one request kept per call, which of them a
//! completion records, and the assistant entry that issued the batch.

use vstd::prelude::*;
use crate::events::{
    existing_turn_submitted_event, field_holds, holds_text, is_submission_of, last_max_index,
    matching_completion_from, matching_tool_call_completed_exists, opt_string_view, pending_tool_call_request,
    subject_requests, EventKind, EventRecord, PendingRequestRef, ToolCallRequestedPayload, VerletError,
};
use crate::sweep::{
    completion_settles, decoded_request, insert_by_subject, request_subject, settles_exec, sorted_by_subject,
};
use crate::history::{CanonicalMessage, ProviderToolCall, SessionEntry, SessionEntryKind};
use crate::json::{json_values_equal, values_equal};
use crate::recovery::{bash_tool_name, recovery_action, tool_recovery_action, EffectClass};
use crate::text::{decimal, push_decimal, push_str, same_text};
use crate::tools::WitnessedToolCall;

verus! {

/// A `tool.call.requested` event whose subject names turn `turn`.
pub open spec fn requests_turn(turn: Seq<char>) -> spec_fn(EventRecord) -> bool {
    |e: EventRecord| e.kind == EventKind::ToolCallRequested && holds_text(e.payload.subject_turn_id, turn)
}

/// Whether a request event belongs to the batch issued by assistant source `source`.
pub open spec fn in_batch(e: EventRecord, source: u64) -> bool {
    e.kind == EventKind::ToolCallRequested && e.source_event_ids.len() > 0 && e.source_event_ids@[0] == source
}

/// Whether a completion event names turn `turn`.
pub open spec fn completes_turn(e: EventRecord, turn: Seq<char>) -> bool {
    e.kind == EventKind::ToolCallCompleted && holds_text(e.payload.subject_turn_id, turn)
}

/// The message for a payload that failed to decode during replay.
pub open spec fn replay_invalid_message(kind: Seq<char>, id: u64, decode: Option<Seq<char>>) -> Seq<char> {
    kind + " "@ + decimal(id as nat) + " payload is invalid during turn replay: "@ + match decode {
        Some(d) => d,
        None => "missing payload"@,
    }
}

/// The first request of batch `source` among the first `k` events whose
/// payload failed to decode, as its message.
pub open spec fn batch_request_error(events: Seq<EventRecord>, source: u64, k: int) -> Option<Seq<char>>
    decreases k,
{
    if k <= 0 {
        None
    } else {
        match batch_request_error(events, source, k - 1) {
            Some(m) => Some(m),
            None => {
                let e = events[k - 1];
                if in_batch(e, source) {
                    match e.payload.requested {
                        Some(Ok(_)) => None,
                        Some(Err(d)) => Some(replay_invalid_message("tool.call.requested"@, e.id, Some(d@))),
                        None => Some(replay_invalid_message("tool.call.requested"@, e.id, None)),
                    }
                } else {
                    None
                }
            },
        }
    }
}

/// The first completion of turn `turn` among the first `k` events whose
/// payload failed to decode, as its message.
pub open spec fn turn_completion_error(events: Seq<EventRecord>, turn: Seq<char>, k: int) -> Option<Seq<char>>
    decreases k,
{
    if k <= 0 {
        None
    } else {
        match turn_completion_error(events, turn, k - 1) {
            Some(m) => Some(m),
            None => {
                let e = events[k - 1];
                if completes_turn(e, turn) {
                    match e.payload.completed {
                        Some(Ok(_)) => None,
                        Some(Err(d)) => Some(replay_invalid_message("tool.call.completed"@, e.id, Some(d@))),
                        None => Some(replay_invalid_message("tool.call.completed"@, e.id, None)),
                    }
                } else {
                    None
                }
            },
        }
    }
}

proof fn lemma_batch_request_error_sticks(events: Seq<EventRecord>, source: u64, k: int, n: int)
    requires
        k <= n,
        batch_request_error(events, source, k) is Some,
    ensures
        batch_request_error(events, source, n) == batch_request_error(events, source, k),
    decreases n - k,
{
    if k < n {
        lemma_batch_request_error_sticks(events, source, k, n - 1);
    }
}

proof fn lemma_turn_completion_error_sticks(events: Seq<EventRecord>, turn: Seq<char>, k: int, n: int)
    requires
        k <= n,
        turn_completion_error(events, turn, k) is Some,
    ensures
        turn_completion_error(events, turn, n) == turn_completion_error(events, turn, k),
    decreases n - k,
{
    if k < n {
        lemma_turn_completion_error_sticks(events, turn, k, n - 1);
    }
}

/// Whether event `i` is a decoded request of batch `source` for turn `turn`.
pub open spec fn batch_member(events: Seq<EventRecord>, source: u64, turn: Seq<char>, i: int) -> bool {
    0 <= i < events.len() && in_batch(events[i], source) && decoded_request(events[i]) && request_subject(
        events[i],
    ).0 == turn
}

/// Whether member `i` is the request kept for its call: the first of the
/// members with that call id to carry their largest sequence number.
pub open spec fn kept_request(events: Seq<EventRecord>, source: u64, turn: Seq<char>, i: int) -> bool {
    &&& batch_member(events, source, turn, i)
    &&& forall|j: int|
        #[trigger] batch_member(events, source, turn, j) && request_subject(events[j]).1 == request_subject(
            events[i],
        ).1 ==> events[j].sequence <= events[i].sequence && (j < i ==> events[j].sequence < events[i].sequence)
}

/// Whether a completion of turn `turn` records request `i`.
pub open spec fn recorded_completion(events: Seq<EventRecord>, turn: Seq<char>, i: int) -> bool {
    exists|j: int|
        0 <= j < events.len() && #[trigger] completes_turn(events[j], turn) && completion_settles(
            events[j],
            events[i],
        )
}

/// The open batch of a turn: the assistant source that issued it, the request
/// kept for each call in call-id order, and whether a completion records each.
#[derive(Debug)]
pub struct WitnessedBatch {
    pub assistant_source_event_id: u64,
    pub requests: Vec<usize>,
    pub completed: Vec<bool>,
}

/// Whether `requests` are exactly the kept requests of the batch, in call
/// order, and `completed` tells for each whether a completion records it.
pub open spec fn is_replay_batch(
    events: Seq<EventRecord>,
    source: u64,
    turn: Seq<char>,
    requests: Seq<usize>,
    completed: Seq<bool>,
) -> bool {
    &&& sorted_by_subject(events, requests)
    &&& forall|a: int| 0 <= a < requests.len() ==> kept_request(events, source, turn, #[trigger] requests[a] as int)
    &&& forall|i: int| kept_request(events, source, turn, i) ==> requests.contains(i as usize)
    &&& completed.len() == requests.len()
    &&& forall|a: int| 0 <= a < requests.len() ==> #[trigger] completed[a] == recorded_completion(events, turn, requests[a] as int)
}

/// The message for a latest request without an assistant source.
pub open spec fn sourceless_request_message(id: u64, turn: Seq<char>) -> Seq<char> {
    "tool.call.requested "@ + decimal(id as nat) + " for turn "@ + turn + " has no assistant source event"@
}

fn replay_invalid(kind: &str, id: u64, decode: Option<&String>) -> (message: String)
    ensures
        message@ == replay_invalid_message(kind@, id, match decode {
            Some(d) => Some(d@),
            None => None,
        }),
{
    let mut message = String::from_str(kind);
    push_str(&mut message, " ");
    push_decimal(&mut message, id);
    push_str(&mut message, " payload is invalid during turn replay: ");
    match decode {
        Some(d) => push_str(&mut message, d.as_str()),
        None => push_str(&mut message, "missing payload"),
    }
    message
}

fn is_member(events: &Vec<EventRecord>, source: u64, turn: &str, i: usize) -> (b: bool)
    requires
        i < events.len(),
    ensures
        b == batch_member(events@, source, turn@, i as int),
{
    let e = &events[i];
    if e.kind == EventKind::ToolCallRequested && e.source_event_ids.len() > 0 && e.source_event_ids[0] == source {
        match &e.payload.requested {
            Some(Ok(p)) => same_text(p.subject.turn_id.as_str(), turn),
            _ => false,
        }
    } else {
        false
    }
}

fn same_call(a: &EventRecord, b: &EventRecord) -> (same: bool)
    requires
        decoded_request(*a),
        decoded_request(*b),
    ensures
        same == (request_subject(*a).1 == request_subject(*b).1),
{
    match (&a.payload.requested, &b.payload.requested) {
        (Some(Ok(p)), Some(Ok(q))) => same_text(p.subject.call_id.as_str(), q.subject.call_id.as_str()),
        _ => false,
    }
}

fn is_kept(events: &Vec<EventRecord>, source: u64, turn: &str, i: usize) -> (b: bool)
    requires
        batch_member(events@, source, turn@, i as int),
    ensures
        b == kept_request(events@, source, turn@, i as int),
{
    let n = events.len();
    let mut j: usize = 0;
    while j < n
        invariant
            j <= n,
            n == events.len(),
            batch_member(events@, source, turn@, i as int),
            forall|m: int|
                0 <= m < j ==> (#[trigger] batch_member(events@, source, turn@, m) && request_subject(events@[m]).1
                    == request_subject(events@[i as int]).1 ==> events@[m].sequence <= events@[i as int].sequence
                    && (m < i ==> events@[m].sequence < events@[i as int].sequence)),
        decreases n - j,
    {
        if is_member(events, source, turn, j) && same_call(&events[j], &events[i]) {
            if events[j].sequence > events[i].sequence || (j < i && events[j].sequence == events[i].sequence) {
                assert(!kept_request(events@, source, turn@, i as int)) by {
                    assert(batch_member(events@, source, turn@, j as int));
                }
                return false;
            }
        }
        j = j + 1;
    }
    true
}

fn is_recorded(events: &Vec<EventRecord>, turn: &str, i: usize) -> (b: bool)
    requires
        i < events.len(),
    ensures
        b == recorded_completion(events@, turn@, i as int),
{
    let n = events.len();
    let mut j: usize = 0;
    while j < n
        invariant
            j <= n,
            i < n,
            n == events.len(),
            forall|m: int|
                0 <= m < j ==> !(#[trigger] completes_turn(events@[m], turn@) && completion_settles(
                    events@[m],
                    events@[i as int],
                )),
        decreases n - j,
    {
        if events[j].kind == EventKind::ToolCallCompleted && field_holds(&events[j].payload.subject_turn_id, turn)
            && settles_exec(&events[j], &events[i]) {
            assert(completes_turn(events@[j as int], turn@));
            return true;
        }
        j = j + 1;
    }
    false
}

/// Finds the witnessed batch a turn left open. The batch is the one issued by
/// the assistant source of the turn's latest request (by sequence); without
/// such a request there is none, and a latest request without a source is a
/// history error. Every request of the batch must decode, then every
/// completion of the turn; the first failure is a history error. Of the
/// batch's requests for the turn, one per call id is kept (the first with the
/// largest sequence), listed in call-id order with whether a completion
/// records it.
pub fn witnessed_tool_batch_for_turn(events: &Vec<EventRecord>, turn_id: &str) -> (batch: Result<
    Option<WitnessedBatch>,
    VerletError,
>)
    ensures
        match last_max_index(events@, requests_turn(turn_id@), events.len() as int) {
            None => batch matches Ok(None),
            Some(l) => if events@[l].source_event_ids.len() == 0 {
                batch matches Err(VerletError::History(m)) && m@ == sourceless_request_message(events@[l].id, turn_id@)
            } else {
                let source = events@[l].source_event_ids@[0];
                match batch_request_error(events@, source, events.len() as int) {
                    Some(m) => batch matches Err(VerletError::History(x)) && x@ == m,
                    None => match turn_completion_error(events@, turn_id@, events.len() as int) {
                        Some(m) => batch matches Err(VerletError::History(x)) && x@ == m,
                        None => batch matches Ok(Some(b)) && b.assistant_source_event_id == source && is_replay_batch(
                            events@,
                            source,
                            turn_id@,
                            b.requests@,
                            b.completed@,
                        ),
                    },
                }
            },
        },
{
    let n = events.len();
    let mut latest: Option<usize> = None;
    let mut k: usize = 0;
    while k < n
        invariant
            k <= n,
            n == events.len(),
            match latest {
                Some(b) => b < k && last_max_index(events@, requests_turn(turn_id@), k as int) == Some(b as int),
                None => last_max_index(events@, requests_turn(turn_id@), k as int) is None,
            },
        decreases n - k,
    {
        let keep = events[k].kind == EventKind::ToolCallRequested && field_holds(
            &events[k].payload.subject_turn_id,
            turn_id,
        );
        assert(keep == requests_turn(turn_id@)(events@[k as int]));
        if keep {
            latest = match latest {
                Some(b) => if events[k].sequence >= events[b].sequence {
                    Some(k)
                } else {
                    Some(b)
                },
                None => Some(k),
            };
        }
        k = k + 1;
    }
    let l = match latest {
        Some(l) => l,
        None => {
            return Ok(None);
        },
    };
    if events[l].source_event_ids.len() == 0 {
        let mut message = String::from_str("tool.call.requested ");
        push_decimal(&mut message, events[l].id);
        push_str(&mut message, " for turn ");
        push_str(&mut message, turn_id);
        push_str(&mut message, " has no assistant source event");
        return Err(VerletError::History(message));
    }
    let source = events[l].source_event_ids[0];
    let mut k: usize = 0;
    while k < n
        invariant
            k <= n,
            n == events.len(),
            l < n,
            last_max_index(events@, requests_turn(turn_id@), n as int) == Some(l as int),
            events@[l as int].source_event_ids.len() > 0,
            source == events@[l as int].source_event_ids@[0],
            batch_request_error(events@, source, k as int) is None,
        decreases n - k,
    {
        let e = &events[k];
        if e.kind == EventKind::ToolCallRequested && e.source_event_ids.len() > 0 && e.source_event_ids[0] == source {
            match &e.payload.requested {
                Some(Ok(_)) => {},
                Some(Err(d)) => {
                    let message = replay_invalid("tool.call.requested", e.id, Some(d));
                    proof {
                        assert(batch_request_error(events@, source, k as int + 1) == Some(message@));
                        lemma_batch_request_error_sticks(events@, source, k as int + 1, n as int);
                    }
                    return Err(VerletError::History(message));
                },
                None => {
                    let message = replay_invalid("tool.call.requested", e.id, None);
                    proof {
                        assert(batch_request_error(events@, source, k as int + 1) == Some(message@));
                        lemma_batch_request_error_sticks(events@, source, k as int + 1, n as int);
                    }
                    return Err(VerletError::History(message));
                },
            }
        }
        k = k + 1;
    }
    let mut k: usize = 0;
    while k < n
        invariant
            k <= n,
            n == events.len(),
            l < n,
            last_max_index(events@, requests_turn(turn_id@), n as int) == Some(l as int),
            events@[l as int].source_event_ids.len() > 0,
            source == events@[l as int].source_event_ids@[0],
            batch_request_error(events@, source, n as int) is None,
            turn_completion_error(events@, turn_id@, k as int) is None,
        decreases n - k,
    {
        let e = &events[k];
        if e.kind == EventKind::ToolCallCompleted && field_holds(&e.payload.subject_turn_id, turn_id) {
            match &e.payload.completed {
                Some(Ok(_)) => {},
                Some(Err(d)) => {
                    let message = replay_invalid("tool.call.completed", e.id, Some(d));
                    proof {
                        assert(turn_completion_error(events@, turn_id@, k as int + 1) == Some(message@));
                        lemma_turn_completion_error_sticks(events@, turn_id@, k as int + 1, n as int);
                    }
                    return Err(VerletError::History(message));
                },
                None => {
                    let message = replay_invalid("tool.call.completed", e.id, None);
                    proof {
                        assert(turn_completion_error(events@, turn_id@, k as int + 1) == Some(message@));
                        lemma_turn_completion_error_sticks(events@, turn_id@, k as int + 1, n as int);
                    }
                    return Err(VerletError::History(message));
                },
            }
        }
        k = k + 1;
    }
    let mut order: Vec<usize> = Vec::new();
    let mut i: usize = 0;
    while i < n
        invariant
            i <= n,
            n == events.len(),
            l < n,
            last_max_index(events@, requests_turn(turn_id@), n as int) == Some(l as int),
            events@[l as int].source_event_ids.len() > 0,
            source == events@[l as int].source_event_ids@[0],
            batch_request_error(events@, source, n as int) is None,
            turn_completion_error(events@, turn_id@, n as int) is None,
            sorted_by_subject(events@, order@),
            forall|a: int| 0 <= a < order.len() ==> (#[trigger] order@[a]) < i && kept_request(events@, source, turn_id@, order@[a] as int),
            forall|j: int| 0 <= j < i && kept_request(events@, source, turn_id@, j) ==> order@.contains(j as usize),
        decreases n - i,
    {
        if is_member(events, source, turn_id, i) && is_kept(events, source, turn_id, i) {
            proof {
                assert forall|a: int| 0 <= a < order.len() implies request_subject(events@[#[trigger] order@[a] as int])
                    != request_subject(events@[i as int]) by {
                    let o = order@[a] as int;
                    if request_subject(events@[o]) == request_subject(events@[i as int]) {
                        assert(batch_member(events@, source, turn_id@, o));
                        assert(batch_member(events@, source, turn_id@, i as int));
                    }
                }
            }
            let ghost before = order@;
            insert_by_subject(events, &mut order, i);
            proof {
                assert forall|j: int| 0 <= j < i + 1 && kept_request(events@, source, turn_id@, j) implies order@.contains(j as usize) by {
                    if j < i {
                        let a = choose|a: int| 0 <= a < before.len() && before[a] == j as usize;
                        assert(order@.contains(before[a]));
                    }
                }
                assert forall|a: int| 0 <= a < order.len() implies (#[trigger] order@[a]) < i + 1 && kept_request(events@, source, turn_id@, order@[a] as int) by {
                    if order@[a] != i {
                        let b = choose|b: int| 0 <= b < before.len() && before[b] == order@[a];
                        assert(before[b] < i);
                    }
                }
            }
        }
        i = i + 1;
    }
    let mut completed: Vec<bool> = Vec::new();
    let mut a: usize = 0;
    while a < order.len()
        invariant
            a <= order.len(),
            n == events.len(),
            l < n,
            last_max_index(events@, requests_turn(turn_id@), n as int) == Some(l as int),
            events@[l as int].source_event_ids.len() > 0,
            source == events@[l as int].source_event_ids@[0],
            batch_request_error(events@, source, n as int) is None,
            turn_completion_error(events@, turn_id@, n as int) is None,
            sorted_by_subject(events@, order@),
            forall|b: int| 0 <= b < order.len() ==> kept_request(events@, source, turn_id@, #[trigger] order@[b] as int),
            forall|j: int| kept_request(events@, source, turn_id@, j) ==> order@.contains(j as usize),
            completed.len() == a,
            forall|b: int| 0 <= b < order.len() ==> (#[trigger] order@[b]) < n,
            forall|b: int| 0 <= b < a ==> #[trigger] completed@[b] == recorded_completion(events@, turn_id@, order@[b] as int),
        decreases order.len() - a,
    {
        let r = is_recorded(events, turn_id, order[a]);
        completed.push(r);
        a = a + 1;
    }
    Ok(Some(WitnessedBatch { assistant_source_event_id: source, requests: order, completed }))
}

/// Whether the batch still needs replay: some kept request lacks a recorded
/// completion (`completed`) or a canonical result (`has_result`, as the
/// runtime found it, in the same order).
pub open spec fn batch_open(completed: Seq<bool>, has_result: Seq<bool>) -> bool {
    exists|a: int| 0 <= a < completed.len() && (!#[trigger] completed[a] || !has_result[a])
}

/// Whether a witnessed batch still needs replay.
pub fn replay_needed(completed: &Vec<bool>, has_result: &Vec<bool>) -> (open: bool)
    requires
        completed.len() == has_result.len(),
    ensures
        open == batch_open(completed@, has_result@),
{
    let mut a: usize = 0;
    while a < completed.len()
        invariant
            a <= completed.len(),
            completed.len() == has_result.len(),
            forall|b: int| 0 <= b < a ==> #[trigger] completed@[b],
            forall|b: int| 0 <= b < a ==> #[trigger] has_result@[b],
        decreases completed.len() - a,
    {
        if !completed[a] || !has_result[a] {
            return true;
        }
        a = a + 1;
    }
    false
}

/// The index of the first session-entry event with id `source` among the
/// first `k` events.
pub open spec fn source_entry_event(events: Seq<EventRecord>, source: u64, k: int) -> Option<int>
    decreases k,
{
    if k <= 0 {
        None
    } else {
        match source_entry_event(events, source, k - 1) {
            Some(i) => Some(i),
            None => if events[k - 1].id == source && events[k - 1].kind == EventKind::SessionEntryAppended {
                Some(k - 1)
            } else {
                None
            },
        }
    }
}

/// The entry id of the assistant session entry that issued batch `source`:
/// the first session-entry event with that id must exist and carry one.
pub fn assistant_batch_entry_id(events: &Vec<EventRecord>, source: u64) -> (entry: Result<String, VerletError>)
    ensures
        match source_entry_event(events@, source, events.len() as int) {
            None => entry matches Err(VerletError::History(m)) && m@ == "tool request batch source "@ + decimal(
                source as nat,
            ) + " is not an assistant session entry"@,
            Some(i) => match events@[i].payload.entry_id {
                Some(id) => entry matches Ok(x) && x@ == id@,
                None => entry matches Err(VerletError::History(m)) && m@ == "assistant session event "@ + decimal(
                    source as nat,
                ) + " has no entry_id"@,
            },
        },
{
    let n = events.len();
    let mut k: usize = 0;
    while k < n
        invariant
            k <= n,
            n == events.len(),
            source_entry_event(events@, source, k as int) is None,
        decreases n - k,
    {
        if events[k].id == source && events[k].kind == EventKind::SessionEntryAppended {
            proof {
                assert(source_entry_event(events@, source, k as int + 1) == Some(k as int));
                lemma_source_entry_event_sticks(events@, source, k as int + 1, n as int);
            }
            return match &events[k].payload.entry_id {
                Some(id) => Ok(id.clone()),
                None => {
                    let mut message = String::from_str("assistant session event ");
                    push_decimal(&mut message, source);
                    push_str(&mut message, " has no entry_id");
                    Err(VerletError::History(message))
                },
            };
        }
        k = k + 1;
    }
    let mut message = String::from_str("tool request batch source ");
    push_decimal(&mut message, source);
    push_str(&mut message, " is not an assistant session entry");
    Err(VerletError::History(message))
}

proof fn lemma_source_entry_event_sticks(events: Seq<EventRecord>, source: u64, k: int, n: int)
    requires
        k <= n,
        source_entry_event(events, source, k) is Some,
    ensures
        source_entry_event(events, source, n) == source_entry_event(events, source, k),
    decreases n - k,
{
    if k < n {
        lemma_source_entry_event_sticks(events, source, k, n - 1);
    }
}

// ---------------------------------------------------------------------------
// Recovering a call that was requested before
// ---------------------------------------------------------------------------

/// A request event for call `call` of turn `turn` other than event `request_event_id`.
pub open spec fn earlier_request_of(turn: Seq<char>, call: Seq<char>, request_event_id: u64) -> spec_fn(EventRecord) -> bool {
    |e: EventRecord|
        e.kind == EventKind::ToolCallRequested && e.id != request_event_id && holds_text(e.payload.subject_turn_id, turn)
            && holds_text(e.payload.subject_call_id, call)
}

/// The message for a prior request whose payload failed to decode.
pub open spec fn recovery_invalid_message(id: u64, decode: Option<Seq<char>>) -> Seq<char> {
    "tool.call.requested "@ + decimal(id as nat) + " payload is invalid during recovery: "@ + match decode {
        Some(d) => d,
        None => "missing payload"@,
    }
}

/// The prior request of a call being recovered: the latest other request
/// event (by sequence) for the same subject, whose payload must decode.
pub fn prior_tool_call_request(events: &Vec<EventRecord>, turn_id: &str, call_id: &str, request_event_id: u64) -> (prior:
    Result<Option<usize>, VerletError>)
    ensures
        match last_max_index(events@, earlier_request_of(turn_id@, call_id@, request_event_id), events.len() as int) {
            None => prior matches Ok(None),
            Some(i) => match events@[i].payload.requested {
                Some(Ok(_)) => prior == Ok::<Option<usize>, VerletError>(Some(i as usize)),
                Some(Err(d)) => prior matches Err(VerletError::History(m)) && m@ == recovery_invalid_message(
                    events@[i].id,
                    Some(d@),
                ),
                None => prior matches Err(VerletError::History(m)) && m@ == recovery_invalid_message(events@[i].id, None),
            },
        },
{
    let n = events.len();
    let mut best: Option<usize> = None;
    let mut k: usize = 0;
    while k < n
        invariant
            k <= n,
            n == events.len(),
            match best {
                Some(b) => b < k && last_max_index(events@, earlier_request_of(turn_id@, call_id@, request_event_id), k as int)
                    == Some(b as int),
                None => last_max_index(events@, earlier_request_of(turn_id@, call_id@, request_event_id), k as int) is None,
            },
        decreases n - k,
    {
        let e = &events[k];
        let keep = e.kind == EventKind::ToolCallRequested && e.id != request_event_id && field_holds(
            &e.payload.subject_turn_id,
            turn_id,
        ) && field_holds(&e.payload.subject_call_id, call_id);
        assert(keep == earlier_request_of(turn_id@, call_id@, request_event_id)(events@[k as int]));
        if keep {
            best = match best {
                Some(b) => if events[k].sequence >= events[b].sequence {
                    Some(k)
                } else {
                    Some(b)
                },
                None => Some(k),
            };
        }
        k = k + 1;
    }
    match best {
        None => Ok(None),
        Some(i) => {
            let e = &events[i];
            let mut message = String::from_str("tool.call.requested ");
            push_decimal(&mut message, e.id);
            push_str(&mut message, " payload is invalid during recovery: ");
            match &e.payload.requested {
                Some(Ok(_)) => Ok(Some(i)),
                Some(Err(d)) => {
                    push_str(&mut message, d.as_str());
                    Err(VerletError::History(message))
                },
                None => {
                    push_str(&mut message, "missing payload");
                    Err(VerletError::History(message))
                },
            }
        },
    }
}

/// The effect class recovery honours for a prior request: a bash call whose
/// controller rewrote its script is at-most-once, since the witnessed class
/// describes the original script.
pub open spec fn honoured_effect_class(class: EffectClass, tool_name: Seq<char>, rewritten: bool) -> EffectClass {
    if class != EffectClass::AtMostOnce && tool_name == bash_tool_name() && rewritten {
        EffectClass::AtMostOnce
    } else {
        class
    }
}

/// The effect class recovery honours for a prior request.
pub fn recovery_effect_class(class: EffectClass, tool_name: &str, rewritten: bool) -> (honoured: EffectClass)
    ensures
        honoured == honoured_effect_class(class, tool_name@, rewritten),
{
    if class != EffectClass::AtMostOnce && rewritten && same_text(tool_name, "bash") {
        proof {
            reveal_strlit("bash");
        }
        EffectClass::AtMostOnce
    } else {
        proof {
            reveal_strlit("bash");
        }
        class
    }
}

/// Records on a call what recovery decided from its prior request (event
/// `prior_request_event_id`): the action, the request whose canonical result
/// is reused when one was found, and whether the fingerprints differed.
pub fn apply_recovery_verdict(
    call: &mut WitnessedToolCall,
    effect_class: EffectClass,
    has_result: bool,
    fingerprint_matches: bool,
    prior_request_event_id: u64,
)
    ensures
        final(call).recovery_action == recovery_action(effect_class, has_result, fingerprint_matches),
        final(call).recovery_source_event_id == (if has_result {
            Some(prior_request_event_id)
        } else {
            None
        }),
        final(call).recovery_fingerprint_mismatch == !fingerprint_matches,
        final(call).tool_call == old(call).tool_call,
        final(call).snapshot_id == old(call).snapshot_id,
        final(call).args_fingerprint == old(call).args_fingerprint,
        final(call).request_event_id == old(call).request_event_id,
{
    call.recovery_action = tool_recovery_action(effect_class, has_result, fingerprint_matches);
    call.recovery_source_event_id = if has_result {
        Some(prior_request_event_id)
    } else {
        None
    };
    call.recovery_fingerprint_mismatch = !fingerprint_matches;
}

/// A rewritten script never relaxes the effect class recovery honours.
pub proof fn lemma_rewrite_never_relaxes_the_effect_class(class: EffectClass, tool_name: Seq<char>, rewritten: bool)
    ensures
        crate::recovery::effect_rank(honoured_effect_class(class, tool_name, rewritten))
            >= crate::recovery::effect_rank(class),
        rewritten && tool_name == bash_tool_name() ==> honoured_effect_class(class, tool_name, rewritten)
            == EffectClass::AtMostOnce,
{
}

/// A replayed batch lists each call once.
pub proof fn lemma_replay_lists_each_call_once(
    events: Seq<EventRecord>,
    source: u64,
    turn: Seq<char>,
    requests: Seq<usize>,
    completed: Seq<bool>,
    a: int,
    b: int,
)
    requires
        is_replay_batch(events, source, turn, requests, completed),
        0 <= a < b < requests.len(),
    ensures
        request_subject(events[requests[a] as int]).1 != request_subject(events[requests[b] as int]).1,
{
    assert(kept_request(events, source, turn, requests[a] as int));
    assert(kept_request(events, source, turn, requests[b] as int));
    crate::text::lemma_text_lt_irreflexive(turn);
    crate::text::lemma_text_lt_irreflexive(request_subject(events[requests[a] as int]).1);
    assert(crate::sweep::subject_lt(
        request_subject(events[requests[a] as int]),
        request_subject(events[requests[b] as int]),
    ));
}

// ---------------------------------------------------------------------------
// Resuming a suspended call
// ---------------------------------------------------------------------------

/// Scanning control events from `from`: whether a suspension of the subject
/// is recorded, or the message of the first suspension that does not decode.
pub open spec fn suspension_from(events: Seq<EventRecord>, turn_id: Seq<char>, call_id: Seq<char>, from: int) -> Result<
    bool,
    Seq<char>,
>
    decreases events.len() - from,
{
    if from < 0 || from >= events.len() {
        Ok(false)
    } else if events[from].kind != EventKind::ToolCallSuspended {
        suspension_from(events, turn_id, call_id, from + 1)
    } else {
        match events[from].payload.suspended {
            Some(Ok(subject)) => if subject.turn_id@ == turn_id && subject.call_id@ == call_id {
                Ok(true)
            } else {
                suspension_from(events, turn_id, call_id, from + 1)
            },
            Some(Err(d)) => Err("tool.call.suspended payload is invalid: "@ + d@),
            None => Err("tool.call.suspended payload is invalid: "@ + "missing payload"@),
        }
    }
}

/// Whether the control stream records a suspension of the call.
pub fn tool_call_suspension_exists(control_events: &Vec<EventRecord>, turn_id: &str, call_id: &str) -> (exists:
    Result<bool, VerletError>)
    ensures
        match suspension_from(control_events@, turn_id@, call_id@, 0) {
            Ok(b) => exists == Ok::<bool, VerletError>(b),
            Err(m) => exists matches Err(VerletError::History(x)) && x@ == m,
        },
{
    let mut k: usize = 0;
    while k < control_events.len()
        invariant
            k <= control_events.len(),
            suspension_from(control_events@, turn_id@, call_id@, 0) == suspension_from(
                control_events@,
                turn_id@,
                call_id@,
                k as int,
            ),
        decreases control_events.len() - k,
    {
        let e = &control_events[k];
        if e.kind == EventKind::ToolCallSuspended {
            match &e.payload.suspended {
                Some(Ok(subject)) => {
                    if same_text(subject.turn_id.as_str(), turn_id) && same_text(subject.call_id.as_str(), call_id) {
                        return Ok(true);
                    }
                },
                Some(Err(d)) => {
                    let mut message = String::from_str("tool.call.suspended payload is invalid: ");
                    push_str(&mut message, d.as_str());
                    return Err(VerletError::History(message));
                },
                None => {
                    let mut message = String::from_str("tool.call.suspended payload is invalid: ");
                    push_str(&mut message, "missing payload");
                    return Err(VerletError::History(message));
                },
            }
        }
        k = k + 1;
    }
    Ok(false)
}

/// What checking a resumption found: the call already completed, or the
/// request to resume and the submission of its turn.
#[derive(Debug)]
pub enum ResumePreflight {
    AlreadyCompleted,
    Resume { request: PendingRequestRef, submitted_index: usize },
}

proof fn lemma_subject_requests_decoded(events: Seq<EventRecord>, turn_id: Seq<char>, call_id: Seq<char>, k: int)
    requires
        subject_requests(events, turn_id, call_id, k) is Ok,
    ensures
        forall|m: int|
            0 <= m < subject_requests(events, turn_id, call_id, k)->Ok_0.len() ==> {
                let r = #[trigger] subject_requests(events, turn_id, call_id, k)->Ok_0[m];
                &&& 0 <= r.0 < k
                &&& r.0 < events.len() || k > events.len()
                &&& decoded_request(events[r.0])
            },
    decreases k,
{
    if k > 0 {
        lemma_subject_requests_decoded(events, turn_id, call_id, k - 1);
    }
}

/// The snapshot and fingerprint a decoded request witnessed.
pub open spec fn request_invocation(e: EventRecord) -> (Seq<char>, Option<Seq<char>>) {
    match e.payload.requested {
        Some(Ok(p)) => (p.snapshot_id@, opt_string_view(p.args_fingerprint)),
        _ => (Seq::empty(), None),
    }
}

/// Checks that a suspended call can be resumed: a tool router must be
/// present; the call must have exactly one witnessed request; a recorded
/// completion of that invocation means it already completed; otherwise a
/// suspension must be recorded and its turn's submission must exist.
pub fn resume_preflight(
    has_tool_router: bool,
    thread_events: &Vec<EventRecord>,
    control_events: &Vec<EventRecord>,
    turn_id: &str,
    call_id: &str,
) -> (preflight: Result<ResumePreflight, VerletError>)
    ensures
        !has_tool_router ==> (preflight matches Err(VerletError::RuntimeExecution(m)) && m@
            == "tool resume requires a tool router"@),
        has_tool_router ==> match subject_requests(thread_events@, turn_id@, call_id@, thread_events.len() as int) {
            Err(m) => preflight matches Err(VerletError::History(x)) && x@ == m,
            Ok(found) => if found.len() > 1 {
                preflight matches Err(VerletError::History(x)) && x@ == "found "@ + decimal(found.len())
                    + " tool.call.requested events for ambiguous subject "@ + turn_id@ + "/"@ + call_id@
            } else if found.len() == 0 {
                preflight matches Err(VerletError::RuntimeExecution(x)) && x@
                    == "missing tool.call.requested for pending call "@ + turn_id@ + "/"@ + call_id@
            } else {
                let invocation = request_invocation(thread_events@[found[0].0]);
                match matching_completion_from(thread_events@, turn_id@, call_id@, invocation.0, invocation.1, 0) {
                    Err(m) => preflight matches Err(VerletError::History(x)) && x@ == m,
                    Ok(true) => preflight matches Ok(ResumePreflight::AlreadyCompleted),
                    Ok(false) => match suspension_from(control_events@, turn_id@, call_id@, 0) {
                        Err(m) => preflight matches Err(VerletError::History(x)) && x@ == m,
                        Ok(false) => preflight matches Err(VerletError::RuntimeExecution(x)) && x@
                            == "no pending suspended tool call "@ + turn_id@ + "/"@ + call_id@,
                        Ok(true) => match last_max_index(
                            thread_events@,
                            is_submission_of(turn_id@),
                            thread_events.len() as int,
                        ) {
                            None => preflight matches Err(VerletError::History(x)) && x@ == "turn "@ + turn_id@
                                + " has no persisted context timestamp anchor"@,
                            Some(s) => preflight matches Ok(ResumePreflight::Resume { request, submitted_index })
                                && request.event_index == found[0].0 && request.assistant_source_event_id
                                == found[0].1 && submitted_index == s,
                        },
                    },
                }
            },
        },
{
    if !has_tool_router {
        return Err(VerletError::RuntimeExecution(String::from_str("tool resume requires a tool router")));
    }
    proof {
        if subject_requests(thread_events@, turn_id@, call_id@, thread_events.len() as int) is Ok {
            lemma_subject_requests_decoded(thread_events@, turn_id@, call_id@, thread_events.len() as int);
        }
    }
    let request = match pending_tool_call_request(thread_events, turn_id, call_id) {
        Err(e) => {
            return Err(e);
        },
        Ok(None) => {
            let mut message = String::from_str("missing tool.call.requested for pending call ");
            push_str(&mut message, turn_id);
            push_str(&mut message, "/");
            push_str(&mut message, call_id);
            return Err(VerletError::RuntimeExecution(message));
        },
        Ok(Some(request)) => request,
    };
    let completed = match &thread_events[request.event_index].payload.requested {
        Some(Ok(p)) => {
            let fingerprint: Option<&str> = match &p.args_fingerprint {
                Some(f) => Some(f.as_str()),
                None => None,
            };
            let exists = matching_tool_call_completed_exists(
                thread_events,
                turn_id,
                call_id,
                p.snapshot_id.as_str(),
                fingerprint,
            );
            proof {
                assert(crate::events::opt_view(fingerprint) == opt_string_view(p.args_fingerprint));
            }
            exists
        },
        _ => Ok(false),
    };
    match completed {
        Err(e) => {
            return Err(e);
        },
        Ok(true) => {
            return Ok(ResumePreflight::AlreadyCompleted);
        },
        Ok(false) => {},
    }
    match tool_call_suspension_exists(control_events, turn_id, call_id) {
        Err(e) => {
            return Err(e);
        },
        Ok(false) => {
            let mut message = String::from_str("no pending suspended tool call ");
            push_str(&mut message, turn_id);
            push_str(&mut message, "/");
            push_str(&mut message, call_id);
            return Err(VerletError::RuntimeExecution(message));
        },
        Ok(true) => {},
    }
    match existing_turn_submitted_event(thread_events, turn_id) {
        None => {
            let mut message = String::from_str("turn ");
            push_str(&mut message, turn_id);
            push_str(&mut message, " has no persisted context timestamp anchor");
            Err(VerletError::History(message))
        },
        Some(s) => {
            proof {
                crate::events::lemma_last_max_index_range(
                    thread_events@,
                    is_submission_of(turn_id@),
                    thread_events.len() as int,
                );
            }
            Ok(ResumePreflight::Resume { request, submitted_index: s })
        },
    }
}

// ---------------------------------------------------------------------------
// Reusing a recorded tool result
// ---------------------------------------------------------------------------

/// Whether a recorded invocation (snapshot, fingerprint) is the expected
/// one: a result is reused only under the same fingerprint within the same
/// snapshot, and a fingerprintless record matches only a fingerprintless call.
pub open spec fn invocation_matches(
    snapshot_id: Seq<char>,
    fingerprint: Option<Seq<char>>,
    expected_snapshot_id: Seq<char>,
    expected_fingerprint: Option<Seq<char>>,
) -> bool {
    snapshot_id == expected_snapshot_id && fingerprint == expected_fingerprint
}

/// Whether a recorded invocation is the expected one.
pub fn tool_invocation_fingerprint_matches(
    snapshot_id: &str,
    fingerprint: Option<&str>,
    expected_snapshot_id: &str,
    expected_fingerprint: Option<&str>,
) -> (matches: bool)
    ensures
        matches == invocation_matches(
            snapshot_id@,
            crate::events::opt_view(fingerprint),
            expected_snapshot_id@,
            crate::events::opt_view(expected_fingerprint),
        ),
{
    same_text(snapshot_id, expected_snapshot_id) && match (fingerprint, expected_fingerprint) {
        (Some(a), Some(b)) => same_text(a, b),
        (None, None) => true,
        _ => false,
    }
}

/// The first `tool.call.requested` event with id `id` among `events[from..]`.
pub open spec fn request_event_from(events: Seq<EventRecord>, id: u64, from: int) -> Option<int>
    decreases events.len() - from,
{
    if from < 0 || from >= events.len() {
        None
    } else if events[from].id == id && events[from].kind == EventKind::ToolCallRequested {
        Some(from)
    } else {
        request_event_from(events, id, from + 1)
    }
}

/// Whether a session-entry event appended entry `entry_id` on behalf of request `source`.
pub open spec fn appended_for(events: Seq<EventRecord>, source: u64, entry_id: Seq<char>) -> bool {
    exists|i: int|
        0 <= i < events.len() && events[i].kind == EventKind::SessionEntryAppended
            && events[i].source_event_ids@.contains(source) && #[trigger] holds_text(events[i].payload.entry_id, entry_id)
}

/// Whether a session entry is the tool result of `call_id` that was appended
/// on behalf of request `source`.
pub open spec fn reusable_result(events: Seq<EventRecord>, source: u64, call_id: Seq<char>, entry: SessionEntry) -> bool {
    &&& appended_for(events, source, entry.entry_id@)
    &&& entry.kind matches SessionEntryKind::Message { message: CanonicalMessage::ToolResult { tool_call_id, .. } }
        && tool_call_id@ == call_id
}

/// The first entry among `entries[from..]` that is a reusable result.
pub open spec fn first_reusable_result(
    events: Seq<EventRecord>,
    entries: Seq<SessionEntry>,
    source: u64,
    call_id: Seq<char>,
    from: int,
) -> Option<int>
    decreases entries.len() - from,
{
    if from < 0 || from >= entries.len() {
        None
    } else if reusable_result(events, source, call_id, entries[from]) {
        Some(from)
    } else {
        first_reusable_result(events, entries, source, call_id, from + 1)
    }
}

fn contains_u64(ids: &Vec<u64>, id: u64) -> (b: bool)
    ensures
        b == ids@.contains(id),
{
    let mut i: usize = 0;
    while i < ids.len()
        invariant
            i <= ids.len(),
            forall|m: int| 0 <= m < i ==> ids@[m] != id,
        decreases ids.len() - i,
    {
        if ids[i] == id {
            return true;
        }
        i = i + 1;
    }
    false
}

fn is_appended_for(events: &Vec<EventRecord>, source: u64, entry_id: &str) -> (b: bool)
    ensures
        b == appended_for(events@, source, entry_id@),
{
    let mut i: usize = 0;
    while i < events.len()
        invariant
            i <= events.len(),
            forall|m: int|
                0 <= m < i ==> !(events@[m].kind == EventKind::SessionEntryAppended
                    && events@[m].source_event_ids@.contains(source) && #[trigger] holds_text(
                    events@[m].payload.entry_id,
                    entry_id@,
                )),
        decreases events.len() - i,
    {
        let e = &events[i];
        if e.kind == EventKind::SessionEntryAppended && contains_u64(&e.source_event_ids, source) && field_holds(
            &e.payload.entry_id,
            entry_id,
        ) {
            return true;
        }
        i = i + 1;
    }
    false
}

fn is_reusable_result(events: &Vec<EventRecord>, source: u64, call_id: &str, entry: &SessionEntry) -> (b: bool)
    ensures
        b == reusable_result(events@, source, call_id@, *entry),
{
    match &entry.kind {
        SessionEntryKind::Message { message: CanonicalMessage::ToolResult { tool_call_id, .. } } => {
            same_text(tool_call_id.as_str(), call_id) && is_appended_for(events, source, entry.entry_id.as_str())
        },
        _ => false,
    }
}

fn find_request_event(events: &Vec<EventRecord>, id: u64) -> (found: Option<usize>)
    ensures
        match request_event_from(events@, id, 0) {
            Some(i) => found == Some(i as usize) && 0 <= i < events.len(),
            None => found is None,
        },
{
    let mut k: usize = 0;
    while k < events.len()
        invariant
            k <= events.len(),
            request_event_from(events@, id, 0) == request_event_from(events@, id, k as int),
        decreases events.len() - k,
    {
        if events[k].id == id && events[k].kind == EventKind::ToolCallRequested {
            return Some(k);
        }
        k = k + 1;
    }
    None
}

/// The canonical tool result that a recorded request left for reuse: the
/// request event `source_event_id` must be recorded and must have witnessed
/// the expected invocation; then the first session entry that is a tool
/// result of `call_id` appended on behalf of that request is returned (its
/// index). A request whose payload does not decode is a history error.
pub fn existing_tool_result_message(
    events: &Vec<EventRecord>,
    entries: &Vec<SessionEntry>,
    source_event_id: u64,
    call_id: &str,
    expected_snapshot_id: &str,
    expected_fingerprint: Option<&str>,
) -> (result: Result<Option<usize>, VerletError>)
    ensures
        match request_event_from(events@, source_event_id, 0) {
            None => result == Ok::<Option<usize>, VerletError>(None),
            Some(i) => match events@[i].payload.requested {
                Some(Ok(p)) => if invocation_matches(
                    p.snapshot_id@,
                    opt_string_view(p.args_fingerprint),
                    expected_snapshot_id@,
                    crate::events::opt_view(expected_fingerprint),
                ) {
                    match first_reusable_result(events@, entries@, source_event_id, call_id@, 0) {
                        Some(k) => result == Ok::<Option<usize>, VerletError>(Some(k as usize)),
                        None => result == Ok::<Option<usize>, VerletError>(None),
                    }
                } else {
                    result == Ok::<Option<usize>, VerletError>(None)
                },
                Some(Err(d)) => result matches Err(VerletError::History(m)) && m@ == "tool.call.requested "@
                    + decimal(events@[i].id as nat) + " payload is invalid while reusing a result: "@ + d@,
                None => result matches Err(VerletError::History(m)) && m@ == "tool.call.requested "@ + decimal(
                    events@[i].id as nat,
                ) + " payload is invalid while reusing a result: "@ + "missing payload"@,
            },
        },
{
    let k = match find_request_event(events, source_event_id) {
        Some(k) => k,
        None => {
            return Ok(None);
        },
    };
    let e = &events[k];
    let p = match &e.payload.requested {
        Some(Ok(p)) => p,
        Some(Err(d)) => {
            let mut message = String::from_str("tool.call.requested ");
            push_decimal(&mut message, e.id);
            push_str(&mut message, " payload is invalid while reusing a result: ");
            push_str(&mut message, d.as_str());
            return Err(VerletError::History(message));
        },
        None => {
            let mut message = String::from_str("tool.call.requested ");
            push_decimal(&mut message, e.id);
            push_str(&mut message, " payload is invalid while reusing a result: ");
            push_str(&mut message, "missing payload");
            return Err(VerletError::History(message));
        },
    };
    let fingerprint: Option<&str> = match &p.args_fingerprint {
        Some(f) => Some(f.as_str()),
        None => None,
    };
    proof {
        assert(crate::events::opt_view(fingerprint) == opt_string_view(p.args_fingerprint));
    }
    if !tool_invocation_fingerprint_matches(p.snapshot_id.as_str(), fingerprint, expected_snapshot_id, expected_fingerprint) {
        return Ok(None);
    }
    Ok(find_reusable_result(events, entries, source_event_id, call_id))
}

fn find_reusable_result(events: &Vec<EventRecord>, entries: &Vec<SessionEntry>, source: u64, call_id: &str) -> (found:
    Option<usize>)
    ensures
        match first_reusable_result(events@, entries@, source, call_id@, 0) {
            Some(k) => found == Some(k as usize),
            None => found is None,
        },
{
    let mut j: usize = 0;
    while j < entries.len()
        invariant
            j <= entries.len(),
            first_reusable_result(events@, entries@, source, call_id@, 0) == first_reusable_result(
                events@,
                entries@,
                source,
                call_id@,
                j as int,
            ),
        decreases entries.len() - j,
    {
        if is_reusable_result(events, source, call_id, &entries[j]) {
            return Some(j);
        }
        j = j + 1;
    }
    None
}

// ---------------------------------------------------------------------------
// Agreement of a replayed batch with its witnessed requests
// ---------------------------------------------------------------------------

/// The first call among `calls[from..]` with id `call_id`.
pub open spec fn call_with_id_from(calls: Seq<ProviderToolCall>, call_id: Seq<char>, from: int) -> Option<int>
    decreases calls.len() - from,
{
    if from < 0 || from >= calls.len() {
        None
    } else if calls[from].id@ == call_id {
        Some(from)
    } else {
        call_with_id_from(calls, call_id, from + 1)
    }
}

/// Finds the call of a witnessed request among the tool calls of the
/// assistant entry that issued the batch; a request whose call the entry no
/// longer holds is a history error.
pub fn find_witnessed_call(assistant_entry_id: &str, calls: &Vec<ProviderToolCall>, call_id: &str) -> (found: Result<
    usize,
    VerletError,
>)
    ensures
        match call_with_id_from(calls@, call_id@, 0) {
            Some(i) => found == Ok::<usize, VerletError>(i as usize),
            None => found matches Err(VerletError::History(m)) && m@ == "witnessed assistant batch "@
                + assistant_entry_id@ + " lost tool call "@ + call_id@,
        },
{
    let mut i: usize = 0;
    while i < calls.len()
        invariant
            i <= calls.len(),
            call_with_id_from(calls@, call_id@, 0) == call_with_id_from(calls@, call_id@, i as int),
        decreases calls.len() - i,
    {
        if same_text(calls[i].id.as_str(), call_id) {
            return Ok(i);
        }
        i = i + 1;
    }
    let mut message = String::from_str("witnessed assistant batch ");
    push_str(&mut message, assistant_entry_id);
    push_str(&mut message, " lost tool call ");
    push_str(&mut message, call_id);
    Err(VerletError::History(message))
}

/// Whether a replayed call agrees with its witnessed request: same tool name,
/// equal arguments, and, when the request recorded a fingerprint, the
/// fingerprint recomputed from the call (`replayed_fingerprint`).
pub open spec fn replay_agrees(call: ProviderToolCall, request: ToolCallRequestedPayload, replayed_fingerprint: Seq<char>) -> bool {
    &&& call.name@ == request.tool_name@
    &&& json_values_equal(call.arguments, request.arguments)
    &&& request.args_fingerprint matches Some(f) ==> f@ == replayed_fingerprint
}

/// Checks that a replayed call agrees with its witnessed request; a
/// disagreement is a history error.
pub fn check_replayed_call(
    assistant_entry_id: &str,
    call: &ProviderToolCall,
    request: &ToolCallRequestedPayload,
    replayed_fingerprint: &str,
) -> (checked: Result<(), VerletError>)
    ensures
        replay_agrees(*call, *request, replayed_fingerprint@) ==> checked is Ok,
        !replay_agrees(*call, *request, replayed_fingerprint@) ==> (checked matches Err(VerletError::History(m))
            && m@ == "witnessed assistant batch "@ + assistant_entry_id@ + " disagrees with tool request "@
            + request.subject.call_id@),
{
    let fingerprint_agrees = match &request.args_fingerprint {
        Some(f) => same_text(f.as_str(), replayed_fingerprint),
        None => true,
    };
    if same_text(call.name.as_str(), request.tool_name.as_str()) && values_equal(&call.arguments, &request.arguments)
        && fingerprint_agrees {
        Ok(())
    } else {
        let mut message = String::from_str("witnessed assistant batch ");
        push_str(&mut message, assistant_entry_id);
        push_str(&mut message, " disagrees with tool request ");
        push_str(&mut message, request.subject.call_id.as_str());
        Err(VerletError::History(message))
    }
}

} // verus!
