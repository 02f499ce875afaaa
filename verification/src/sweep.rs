//! Settling the tool calls that a cancelled child turn left dangling: which
//! turns the parent joined as cancelled, which witnessed requests of those
//! turns never completed, in what order they settle, and the finish order
//! each cancelled completion takes.

use vstd::prelude::*;
use crate::events::{holds_text, field_holds, opt_string_view, EventKind, EventRecord, VerletError};
use crate::text::{
    decimal, lemma_text_lt_irreflexive, lemma_text_lt_total, lemma_text_lt_transitive, push_decimal, push_str,
    same_text, text_less, text_lt,
};

verus! {

// ---------------------------------------------------------------------------
// The order of call subjects
// ---------------------------------------------------------------------------

/// Whether subject `a` (turn, call) sorts before `b`: by turn, then by call.
pub open spec fn subject_lt(a: (Seq<char>, Seq<char>), b: (Seq<char>, Seq<char>)) -> bool {
    text_lt(a.0, b.0) || (a.0 == b.0 && text_lt(a.1, b.1))
}

proof fn lemma_subject_lt_irreflexive(a: (Seq<char>, Seq<char>))
    ensures
        !subject_lt(a, a),
{
    lemma_text_lt_irreflexive(a.0);
    lemma_text_lt_irreflexive(a.1);
}

proof fn lemma_subject_lt_transitive(a: (Seq<char>, Seq<char>), b: (Seq<char>, Seq<char>), c: (Seq<char>, Seq<char>))
    requires
        subject_lt(a, b),
        subject_lt(b, c),
    ensures
        subject_lt(a, c),
{
    if text_lt(a.0, b.0) && text_lt(b.0, c.0) {
        lemma_text_lt_transitive(a.0, b.0, c.0);
    } else if !text_lt(a.0, b.0) && !text_lt(b.0, c.0) {
        lemma_text_lt_transitive(a.1, b.1, c.1);
    }
}

proof fn lemma_subject_lt_total(a: (Seq<char>, Seq<char>), b: (Seq<char>, Seq<char>))
    requires
        a != b,
    ensures
        subject_lt(a, b) || subject_lt(b, a),
{
    if a.0 != b.0 {
        lemma_text_lt_total(a.0, b.0);
    } else {
        assert(a.1 != b.1);
        lemma_text_lt_total(a.1, b.1);
    }
}

// ---------------------------------------------------------------------------
// Witnessed requests as the contracts see them
// ---------------------------------------------------------------------------

/// Whether an event carries a decoded request payload.
pub open spec fn decoded_request(e: EventRecord) -> bool {
    e.payload.requested matches Some(Ok(_))
}

/// The subject of a decoded request (empty texts for any other event).
pub open spec fn request_subject(e: EventRecord) -> (Seq<char>, Seq<char>) {
    match e.payload.requested {
        Some(Ok(p)) => (p.subject.turn_id@, p.subject.call_id@),
        _ => (Seq::empty(), Seq::empty()),
    }
}

pub(crate) fn request_less(a: &EventRecord, b: &EventRecord) -> (less: bool)
    requires
        decoded_request(*a),
        decoded_request(*b),
    ensures
        less == subject_lt(request_subject(*a), request_subject(*b)),
{
    match (&a.payload.requested, &b.payload.requested) {
        (Some(Ok(p)), Some(Ok(q))) => text_less(p.subject.turn_id.as_str(), q.subject.turn_id.as_str()) || (
        same_text(p.subject.turn_id.as_str(), q.subject.turn_id.as_str()) && text_less(
            p.subject.call_id.as_str(),
            q.subject.call_id.as_str(),
        )),
        _ => false,
    }
}

pub(crate) fn same_request_subject(a: &EventRecord, b: &EventRecord) -> (same: bool)
    requires
        decoded_request(*a),
        decoded_request(*b),
    ensures
        same == (request_subject(*a) == request_subject(*b)),
{
    match (&a.payload.requested, &b.payload.requested) {
        (Some(Ok(p)), Some(Ok(q))) => same_text(p.subject.turn_id.as_str(), q.subject.turn_id.as_str())
            && same_text(p.subject.call_id.as_str(), q.subject.call_id.as_str()),
        _ => false,
    }
}

/// The views of a list of strings.
pub open spec fn texts(v: Seq<String>) -> Seq<Seq<char>> {
    v.map_values(|s: String| s@)
}

fn contains_text(v: &Vec<String>, t: &str) -> (b: bool)
    ensures
        b == texts(v@).contains(t@),
{
    let mut i: usize = 0;
    while i < v.len()
        invariant
            i <= v.len(),
            forall|m: int| 0 <= m < i ==> texts(v@)[m] != t@,
        decreases v.len() - i,
    {
        assert(texts(v@)[i as int] == v@[i as int]@);
        if same_text(v[i].as_str(), t) {
            return true;
        }
        i = i + 1;
    }
    false
}

// ---------------------------------------------------------------------------
// Turns the parent joined as cancelled
// ---------------------------------------------------------------------------

/// Whether a parent event joins child thread `child` in the cancelled state.
pub open spec fn joins_cancelled_child(e: EventRecord, child: Seq<char>) -> bool {
    e.kind == EventKind::ThreadJoined && holds_text(e.payload.child_thread_id, child) && holds_text(
        e.payload.terminal_state,
        "cancelled"@,
    )
}

/// The turn named by the last `turn.submitted` event with id `id` among the
/// first `k` events (the map from submission ids to turns keeps the last).
pub open spec fn submitted_turn(events: Seq<EventRecord>, id: u64, k: int) -> Option<Seq<char>>
    decreases k,
{
    if k <= 0 {
        None
    } else {
        let e = events[k - 1];
        if e.kind == EventKind::TurnSubmitted && e.id == id && e.payload.turn_id is Some {
            opt_string_view(e.payload.turn_id)
        } else {
            submitted_turn(events, id, k - 1)
        }
    }
}

/// The turns submitted under the first `m` of `sources`.
pub open spec fn source_turns(thread: Seq<EventRecord>, sources: Seq<u64>, m: int) -> Seq<Seq<char>>
    decreases m,
{
    if m <= 0 {
        Seq::empty()
    } else {
        let prior = source_turns(thread, sources, m - 1);
        match submitted_turn(thread, sources[m - 1], thread.len() as int) {
            Some(t) => prior.push(t),
            None => prior,
        }
    }
}

/// The child's turns that the first `j` parent events join as cancelled:
/// the turns submitted by the source events of each such join.
pub open spec fn cancelled_turns(thread: Seq<EventRecord>, parent: Seq<EventRecord>, child: Seq<char>, j: int) -> Seq<
    Seq<char>,
>
    decreases j,
{
    if j <= 0 {
        Seq::empty()
    } else {
        let prior = cancelled_turns(thread, parent, child, j - 1);
        let e = parent[j - 1];
        if joins_cancelled_child(e, child) {
            prior + source_turns(thread, e.source_event_ids@, e.source_event_ids.len() as int)
        } else {
            prior
        }
    }
}

fn submitted_turn_of(events: &Vec<EventRecord>, id: u64) -> (turn: Option<String>)
    ensures
        opt_string_view(turn) == submitted_turn(events@, id, events.len() as int),
{
    let n = events.len();
    let mut k: usize = n;
    while k > 0
        invariant
            k <= n,
            n == events.len(),
            submitted_turn(events@, id, n as int) == submitted_turn(events@, id, k as int),
        decreases k,
    {
        let e = &events[k - 1];
        if e.kind == EventKind::TurnSubmitted && e.id == id {
            match &e.payload.turn_id {
                Some(t) => {
                    return Some(t.clone());
                },
                None => {},
            }
        }
        k = k - 1;
    }
    None
}

fn cancelled_child_turns(thread: &Vec<EventRecord>, parent: &Vec<EventRecord>, child: &str) -> (turns: Vec<String>)
    ensures
        texts(turns@) == cancelled_turns(thread@, parent@, child@, parent.len() as int),
{
    let mut turns: Vec<String> = Vec::new();
    let mut j: usize = 0;
    while j < parent.len()
        invariant
            j <= parent.len(),
            texts(turns@) == cancelled_turns(thread@, parent@, child@, j as int),
        decreases parent.len() - j,
    {
        let e = &parent[j];
        if e.kind == EventKind::ThreadJoined && field_holds(&e.payload.child_thread_id, child) && field_holds(
            &e.payload.terminal_state,
            "cancelled",
        ) {
            let ghost before = texts(turns@);
            let mut m: usize = 0;
            while m < e.source_event_ids.len()
                invariant
                    m <= e.source_event_ids.len(),
                    texts(turns@) == before + source_turns(thread@, e.source_event_ids@, m as int),
                decreases e.source_event_ids.len() - m,
            {
                match submitted_turn_of(thread, e.source_event_ids[m]) {
                    Some(t) => {
                        let ghost prior = turns@;
                        turns.push(t);
                        assert(texts(turns@) =~= texts(prior).push(turns@[prior.len() as int]@));
                    },
                    None => {},
                }
                m = m + 1;
            }
        }
        j = j + 1;
    }
    turns
}

// ---------------------------------------------------------------------------
// The requests of cancelled turns
// ---------------------------------------------------------------------------

/// Whether an event of kind `kind` is about a subject whose turn is one of `turns`.
pub open spec fn in_scope(e: EventRecord, kind: EventKind, turns: Seq<Seq<char>>) -> bool {
    e.kind == kind && match e.payload.subject_turn_id {
        Some(t) => turns.contains(t@),
        None => false,
    }
}

fn in_scope_exec(e: &EventRecord, kind: EventKind, turns: &Vec<String>) -> (b: bool)
    ensures
        b == in_scope(*e, kind, texts(turns@)),
{
    e.kind == kind && match &e.payload.subject_turn_id {
        Some(t) => contains_text(turns, t.as_str()),
        None => false,
    }
}

/// The message for a payload that failed to decode during the sweep.
pub open spec fn sweep_invalid_message(kind: Seq<char>, id: u64, decode: Option<Seq<char>>) -> Seq<char> {
    kind + " "@ + decimal(id as nat) + " payload is invalid during cancellation recovery: "@ + match decode {
        Some(d) => d,
        None => "missing payload"@,
    }
}

/// The first payload among the first `k` events, about a turn in `turns`,
/// that failed to decode, as its message.
pub open spec fn sweep_error(events: Seq<EventRecord>, turns: Seq<Seq<char>>, k: int) -> Option<Seq<char>>
    decreases k,
{
    if k <= 0 {
        None
    } else {
        match sweep_error(events, turns, k - 1) {
            Some(m) => Some(m),
            None => {
                let e = events[k - 1];
                if in_scope(e, EventKind::ToolCallCompleted, turns) {
                    match e.payload.completed {
                        Some(Ok(_)) => None,
                        Some(Err(d)) => Some(sweep_invalid_message("tool.call.completed"@, e.id, Some(d@))),
                        None => Some(sweep_invalid_message("tool.call.completed"@, e.id, None)),
                    }
                } else if in_scope(e, EventKind::ToolCallRequested, turns) {
                    match e.payload.requested {
                        Some(Ok(_)) => None,
                        Some(Err(d)) => Some(sweep_invalid_message("tool.call.requested"@, e.id, Some(d@))),
                        None => Some(sweep_invalid_message("tool.call.requested"@, e.id, None)),
                    }
                } else {
                    None
                }
            },
        }
    }
}

proof fn lemma_sweep_error_sticks(events: Seq<EventRecord>, turns: Seq<Seq<char>>, k: int, n: int)
    requires
        k <= n,
        sweep_error(events, turns, k) is Some,
    ensures
        sweep_error(events, turns, n) == sweep_error(events, turns, k),
    decreases n - k,
{
    if k < n {
        lemma_sweep_error_sticks(events, turns, k, n - 1);
    }
}

/// Whether a later request of the sweep's turns claims the same subject as
/// request `i` (the later one replaces it).
pub open spec fn superseded(events: Seq<EventRecord>, turns: Seq<Seq<char>>, i: int) -> bool {
    exists|j: int|
        i < j < events.len() && #[trigger] in_scope(events[j], EventKind::ToolCallRequested, turns)
            && decoded_request(events[j]) && request_subject(events[j]) == request_subject(events[i])
}

/// Whether completion event `e` records the invocation that request event
/// `r` witnessed: same subject, snapshot and fingerprint.
pub open spec fn completion_settles(e: EventRecord, r: EventRecord) -> bool {
    match (e.payload.completed, r.payload.requested) {
        (Some(Ok(c)), Some(Ok(p))) => c.subject.turn_id@ == p.subject.turn_id@ && c.subject.call_id@
            == p.subject.call_id@ && c.snapshot_id@ == p.snapshot_id@ && opt_string_view(c.args_fingerprint)
            == opt_string_view(p.args_fingerprint),
        _ => false,
    }
}

/// Whether some completion of the sweep's turns records request `i`.
pub open spec fn settled(events: Seq<EventRecord>, turns: Seq<Seq<char>>, i: int) -> bool {
    exists|j: int|
        0 <= j < events.len() && #[trigger] in_scope(events[j], EventKind::ToolCallCompleted, turns)
            && completion_settles(events[j], events[i])
}

/// Whether request event `i` is left dangling: a decoded request of one of
/// the sweep's turns, the last for its subject, that no completion records.
pub open spec fn dangling(events: Seq<EventRecord>, turns: Seq<Seq<char>>, i: int) -> bool {
    &&& 0 <= i < events.len()
    &&& in_scope(events[i], EventKind::ToolCallRequested, turns)
    &&& decoded_request(events[i])
    &&& !superseded(events, turns, i)
    &&& !settled(events, turns, i)
}

pub(crate) fn settles_exec(e: &EventRecord, r: &EventRecord) -> (b: bool)
    ensures
        b == completion_settles(*e, *r),
{
    match (&e.payload.completed, &r.payload.requested) {
        (Some(Ok(c)), Some(Ok(p))) => same_text(c.subject.turn_id.as_str(), p.subject.turn_id.as_str())
            && same_text(c.subject.call_id.as_str(), p.subject.call_id.as_str()) && same_text(
            c.snapshot_id.as_str(),
            p.snapshot_id.as_str(),
        ) && match (&c.args_fingerprint, &p.args_fingerprint) {
            (Some(x), Some(y)) => same_text(x.as_str(), y.as_str()),
            (None, None) => true,
            _ => false,
        },
        _ => false,
    }
}

fn is_dangling(events: &Vec<EventRecord>, turns: &Vec<String>, i: usize) -> (b: bool)
    requires
        i < events.len(),
    ensures
        b == dangling(events@, texts(turns@), i as int),
{
    let ghost ts = texts(turns@);
    if !in_scope_exec(&events[i], EventKind::ToolCallRequested, turns) {
        return false;
    }
    match &events[i].payload.requested {
        Some(Ok(_)) => {},
        _ => {
            return false;
        },
    }
    let n = events.len();
    let mut j: usize = i + 1;
    while j < n
        invariant
            i < j <= n,
            n == events.len(),
            ts == texts(turns@),
            decoded_request(events@[i as int]),
            forall|m: int|
                i < m < j ==> !(#[trigger] in_scope(events@[m], EventKind::ToolCallRequested, ts) && decoded_request(
                    events@[m],
                ) && request_subject(events@[m]) == request_subject(events@[i as int])),
        decreases n - j,
    {
        if in_scope_exec(&events[j], EventKind::ToolCallRequested, turns) {
            if events[j].payload.requested matches Some(Ok(_)) {
                if same_request_subject(&events[j], &events[i]) {
                    assert(superseded(events@, ts, i as int));
                    return false;
                }
            }
        }
        j = j + 1;
    }
    let mut j: usize = 0;
    while j < n
        invariant
            j <= n,
            i < n,
            n == events.len(),
            ts == texts(turns@),
            forall|m: int|
                0 <= m < j ==> !(#[trigger] in_scope(events@[m], EventKind::ToolCallCompleted, ts)
                    && completion_settles(events@[m], events@[i as int])),
        decreases n - j,
    {
        if in_scope_exec(&events[j], EventKind::ToolCallCompleted, turns) && settles_exec(&events[j], &events[i]) {
            assert(settled(events@, ts, i as int));
            return false;
        }
        j = j + 1;
    }
    true
}

// ---------------------------------------------------------------------------
// Finish orders
// ---------------------------------------------------------------------------

/// The finish order after one recorded as `order` (absent counts as 0),
/// saturating at `u64::MAX`.
pub open spec fn next_after(order: Option<u64>) -> u64 {
    let f = match order {
        Some(f) => f,
        None => 0u64,
    };
    if f == u64::MAX {
        f
    } else {
        (f + 1) as u64
    }
}

/// The first finish order free for turn `turn` after the completions among
/// the first `k` events: the largest `next_after` of their finish orders, or 0.
pub open spec fn base_finish_order(events: Seq<EventRecord>, turns: Seq<Seq<char>>, turn: Seq<char>, k: int) -> u64
    decreases k,
{
    if k <= 0 {
        0
    } else {
        let prior = base_finish_order(events, turns, turn, k - 1);
        let e = events[k - 1];
        if in_scope(e, EventKind::ToolCallCompleted, turns) {
            match e.payload.completed {
                Some(Ok(c)) => if c.subject.turn_id@ == turn && next_after(c.finish_order) > prior {
                    next_after(c.finish_order)
                } else {
                    prior
                },
                _ => prior,
            }
        } else {
            prior
        }
    }
}

fn base_order(events: &Vec<EventRecord>, turns: &Vec<String>, turn: &str) -> (f: u64)
    ensures
        f == base_finish_order(events@, texts(turns@), turn@, events.len() as int),
{
    let mut f: u64 = 0;
    let mut k: usize = 0;
    while k < events.len()
        invariant
            k <= events.len(),
            f == base_finish_order(events@, texts(turns@), turn@, k as int),
        decreases events.len() - k,
    {
        if in_scope_exec(&events[k], EventKind::ToolCallCompleted, turns) {
            match &events[k].payload.completed {
                Some(Ok(c)) => {
                    if same_text(c.subject.turn_id.as_str(), turn) {
                        let recorded: u64 = match c.finish_order {
                            Some(x) => x,
                            None => 0,
                        };
                        let next: u64 = if recorded == u64::MAX {
                            recorded
                        } else {
                            recorded + 1
                        };
                        if next > f {
                            f = next;
                        }
                    }
                },
                _ => {},
            }
        }
        k = k + 1;
    }
    f
}

/// A dangling request to settle, and the finish order its cancelled
/// completion takes.
#[derive(Clone, Copy, Debug, PartialEq, Eq, Structural)]
pub struct SweptRequest {
    pub event_index: usize,
    pub finish_order: u64,
}

/// How many of the first `a` planned requests belong to turn `turn`.
pub open spec fn turn_count(events: Seq<EventRecord>, plan: Seq<SweptRequest>, turn: Seq<char>, a: int) -> nat
    decreases a,
{
    if a <= 0 {
        0
    } else {
        turn_count(events, plan, turn, a - 1) + if request_subject(events[plan[a - 1].event_index as int]).0
            == turn {
            1nat
        } else {
            0nat
        }
    }
}

proof fn lemma_turn_count_prefix(events: Seq<EventRecord>, plan: Seq<SweptRequest>, x: SweptRequest, turn: Seq<char>, a: int)
    requires
        0 <= a <= plan.len(),
    ensures
        turn_count(events, plan.push(x), turn, a) == turn_count(events, plan, turn, a),
    decreases a,
{
    if a > 0 {
        lemma_turn_count_prefix(events, plan, x, turn, a - 1);
    }
}

/// `base + count`, capped at `u64::MAX` (what counting up with
/// `saturating_add(1)` from `base` reaches after `count` steps).
pub open spec fn saturating_sum(base: u64, count: nat) -> u64 {
    if base + count > u64::MAX {
        u64::MAX
    } else {
        (base + count) as u64
    }
}

/// Whether `plan` settles exactly the dangling requests of `turns`, in subject
/// order, each taking the next free finish order of its turn.
pub open spec fn is_sweep_plan(events: Seq<EventRecord>, turns: Seq<Seq<char>>, plan: Seq<SweptRequest>) -> bool {
    &&& forall|a: int, b: int|
        0 <= a < b < plan.len() ==> subject_lt(
            request_subject(events[plan[a].event_index as int]),
            request_subject(events[plan[b].event_index as int]),
        )
    &&& forall|a: int| 0 <= a < plan.len() ==> dangling(events, turns, #[trigger] plan[a].event_index as int)
    &&& forall|i: int| dangling(events, turns, i) ==> exists|a: int| 0 <= a < plan.len() && #[trigger] plan[a].event_index == i
    &&& forall|a: int|
        0 <= a < plan.len() ==> #[trigger] plan[a].finish_order == saturating_sum(
            base_finish_order(
                events,
                turns,
                request_subject(events[plan[a].event_index as int]).0,
                events.len() as int,
            ),
            turn_count(events, plan, request_subject(events[plan[a].event_index as int]).0, a),
        )
}

/// Whether the request indices in `order` are sorted strictly by subject.
pub open spec fn sorted_by_subject(events: Seq<EventRecord>, order: Seq<usize>) -> bool {
    forall|a: int, b: int|
        0 <= a < b < order.len() ==> subject_lt(
            request_subject(events[order[a] as int]),
            request_subject(events[order[b] as int]),
        )
}

pub(crate) fn insert_by_subject(events: &Vec<EventRecord>, order: &mut Vec<usize>, i: usize)
    requires
        i < events.len(),
        decoded_request(events@[i as int]),
        forall|a: int| 0 <= a < old(order).len() ==> (#[trigger] old(order)@[a]) < events.len() && decoded_request(events@[old(order)@[a] as int]),
        forall|a: int| 0 <= a < old(order).len() ==> request_subject(events@[#[trigger] old(order)@[a] as int]) != request_subject(events@[i as int]),
        sorted_by_subject(events@, old(order)@),
    ensures
        sorted_by_subject(events@, final(order)@),
        final(order)@.len() == old(order)@.len() + 1,
        final(order)@.contains(i),
        forall|a: int| 0 <= a < final(order)@.len() ==> #[trigger] final(order)@[a] == i || old(order)@.contains(final(order)@[a]),
        forall|a: int| 0 <= a < old(order)@.len() ==> final(order)@.contains(#[trigger] old(order)@[a]),
{
    let ghost s = old(order)@;
    let ghost x = request_subject(events@[i as int]);
    let mut p: usize = 0;
    while p < order.len() && request_less(&events[order[p]], &events[i])
        invariant
            p <= order.len(),
            order@ == s,
            i < events.len(),
            decoded_request(events@[i as int]),
            x == request_subject(events@[i as int]),
            forall|a: int| 0 <= a < s.len() ==> (#[trigger] s[a]) < events.len() && decoded_request(events@[s[a] as int]),
            forall|a: int| 0 <= a < p ==> subject_lt(request_subject(events@[#[trigger] s[a] as int]), x),
        decreases order.len() - p,
    {
        p = p + 1;
    }
    proof {
        assert forall|b: int| p <= b < s.len() implies subject_lt(x, request_subject(events@[#[trigger] s[b] as int])) by {
            let y = request_subject(events@[s[p as int] as int]);
            lemma_subject_lt_total(x, y);
            if b > p {
                lemma_subject_lt_transitive(x, y, request_subject(events@[s[b] as int]));
            }
        }
    }
    order.insert(p, i);
    proof {
        let t = order@;
        assert forall|a: int, b: int| 0 <= a < b < t.len() implies subject_lt(
            request_subject(events@[t[a] as int]),
            request_subject(events@[t[b] as int]),
        ) by {
            if b < p {
                assert(t[a] == s[a] && t[b] == s[b]);
            } else if b == p {
                assert(t[a] == s[a] && t[b] == i);
            } else if a < p {
                assert(t[a] == s[a] && t[b] == s[b - 1]);
                lemma_subject_lt_transitive(
                    request_subject(events@[s[a] as int]),
                    x,
                    request_subject(events@[s[b - 1] as int]),
                );
            } else if a == p {
                assert(t[a] == i && t[b] == s[b - 1]);
            } else {
                assert(t[a] == s[a - 1] && t[b] == s[b - 1]);
            }
        }
        assert(sorted_by_subject(events@, t));
        assert(t[p as int] == i);
        assert forall|a: int| 0 <= a < t.len() implies #[trigger] t[a] == i || s.contains(t[a]) by {
            if a < p {
                assert(t[a] == s[a]);
            } else if a > p {
                assert(t[a] == s[a - 1]);
            }
        }
        assert forall|a: int| 0 <= a < s.len() implies t.contains(#[trigger] s[a]) by {
            if a < p {
                assert(t[a] == s[a]);
            } else {
                assert(t[a + 1] == s[a]);
            }
        }
    }
}

fn sweep_invalid(kind: &str, id: u64, decode: Option<&String>) -> (message: String)
    ensures
        message@ == sweep_invalid_message(kind@, id, match decode {
            Some(d) => Some(d@),
            None => None,
        }),
{
    let mut message = String::from_str(kind);
    push_str(&mut message, " ");
    push_decimal(&mut message, id);
    push_str(&mut message, " payload is invalid during cancellation recovery: ");
    match decode {
        Some(d) => push_str(&mut message, d.as_str()),
        None => push_str(&mut message, "missing payload"),
    }
    message
}

/// Plans how the tool calls of cancelled child turns are settled. The
/// cancelled turns are those submitted by the source events of each parent
/// event that joins `child_thread_id` as cancelled. Of their witnessed
/// requests, the last one per subject that no completion records (same
/// subject, snapshot and fingerprint) is settled, in subject order; each takes
/// the next free finish order of its turn, counting up from one past the
/// largest already recorded. A payload of those turns that failed to decode
/// is a history error, the first one in the log.
pub fn cancelled_turn_sweep(
    thread_events: &Vec<EventRecord>,
    parent_events: &Vec<EventRecord>,
    child_thread_id: &str,
) -> (plan: Result<Vec<SweptRequest>, VerletError>)
    ensures
        ({
            let turns = cancelled_turns(thread_events@, parent_events@, child_thread_id@, parent_events.len() as int);
            match sweep_error(thread_events@, turns, thread_events.len() as int) {
                Some(m) => plan matches Err(VerletError::History(x)) && x@ == m,
                None => plan matches Ok(p) && is_sweep_plan(thread_events@, turns, p@),
            }
        }),
{
    let events = thread_events;
    let turns = cancelled_child_turns(thread_events, parent_events, child_thread_id);
    let ghost ts = texts(turns@);
    let n = events.len();
    let mut k: usize = 0;
    while k < n
        invariant
            k <= n,
            n == events.len(),
            ts == texts(turns@),
            ts == cancelled_turns(thread_events@, parent_events@, child_thread_id@, parent_events.len() as int),
            events@ == thread_events@,
            sweep_error(events@, ts, k as int) is None,
        decreases n - k,
    {
        let e = &events[k];
        if in_scope_exec(e, EventKind::ToolCallCompleted, &turns) {
            match &e.payload.completed {
                Some(Ok(_)) => {},
                Some(Err(d)) => {
                    let message = sweep_invalid("tool.call.completed", e.id, Some(d));
                    proof {
                        assert(sweep_error(events@, ts, k as int + 1) == Some(message@));
                        lemma_sweep_error_sticks(events@, ts, k as int + 1, n as int);
                    }
                    return Err(VerletError::History(message));
                },
                None => {
                    let message = sweep_invalid("tool.call.completed", e.id, None);
                    proof {
                        assert(sweep_error(events@, ts, k as int + 1) == Some(message@));
                        lemma_sweep_error_sticks(events@, ts, k as int + 1, n as int);
                    }
                    return Err(VerletError::History(message));
                },
            }
        } else if in_scope_exec(e, EventKind::ToolCallRequested, &turns) {
            match &e.payload.requested {
                Some(Ok(_)) => {},
                Some(Err(d)) => {
                    let message = sweep_invalid("tool.call.requested", e.id, Some(d));
                    proof {
                        assert(sweep_error(events@, ts, k as int + 1) == Some(message@));
                        lemma_sweep_error_sticks(events@, ts, k as int + 1, n as int);
                    }
                    return Err(VerletError::History(message));
                },
                None => {
                    let message = sweep_invalid("tool.call.requested", e.id, None);
                    proof {
                        assert(sweep_error(events@, ts, k as int + 1) == Some(message@));
                        lemma_sweep_error_sticks(events@, ts, k as int + 1, n as int);
                    }
                    return Err(VerletError::History(message));
                },
            }
        }
        k = k + 1;
    }
    let mut order: Vec<usize> = Vec::new();
    let mut i: usize = 0;
    while i < n
        invariant
            i <= n,
            n == events.len(),
            ts == texts(turns@),
            sweep_error(events@, ts, n as int) is None,
            sorted_by_subject(events@, order@),
            forall|a: int| 0 <= a < order.len() ==> (#[trigger] order@[a]) < i && dangling(events@, ts, order@[a] as int),
            forall|j: int| 0 <= j < i && dangling(events@, ts, j) ==> order@.contains(j as usize),
        decreases n - i,
    {
        if is_dangling(events, &turns, i) {
            proof {
                assert forall|a: int| 0 <= a < order.len() implies request_subject(events@[#[trigger] order@[a] as int])
                    != request_subject(events@[i as int]) by {
                    if request_subject(events@[order@[a] as int]) == request_subject(events@[i as int]) {
                        assert(in_scope(events@[i as int], EventKind::ToolCallRequested, ts));
                        assert(superseded(events@, ts, order@[a] as int));
                    }
                }
            }
            let ghost before = order@;
            insert_by_subject(events, &mut order, i);
            proof {
                assert forall|j: int| 0 <= j < i + 1 && dangling(events@, ts, j) implies order@.contains(j as usize) by {
                    if j < i {
                        let a = choose|a: int| 0 <= a < before.len() && before[a] == j as usize;
                        assert(order@.contains(before[a]));
                    }
                }
                assert forall|a: int| 0 <= a < order.len() implies (#[trigger] order@[a]) < i + 1 && dangling(events@, ts, order@[a] as int) by {
                    if order@[a] != i {
                        let b = choose|b: int| 0 <= b < before.len() && before[b] == order@[a];
                        assert(before[b] < i);
                    }
                }
            }
        }
        i = i + 1;
    }
    let mut plan: Vec<SweptRequest> = Vec::new();
    let mut a: usize = 0;
    while a < order.len()
        invariant
            a <= order.len(),
            n == events.len(),
            ts == texts(turns@),
            plan.len() == a,
            forall|b: int| 0 <= b < order.len() ==> (#[trigger] order@[b]) < n && dangling(events@, ts, order@[b] as int),
            forall|b: int| 0 <= b < a ==> (#[trigger] plan@[b]).event_index == order@[b],
            forall|b: int|
                0 <= b < a ==> #[trigger] plan@[b].finish_order == saturating_sum(
                    base_finish_order(events@, ts, request_subject(events@[plan@[b].event_index as int]).0, n as int),
                    turn_count(events@, plan@, request_subject(events@[plan@[b].event_index as int]).0, b),
                ),
        decreases order.len() - a,
    {
        let idx = order[a];
        match &events[idx].payload.requested {
            Some(Ok(p)) => {
                let turn = p.subject.turn_id.as_str();
                let base = base_order(events, &turns, turn);
                let mut count: usize = 0;
                let mut b: usize = 0;
                while b < plan.len()
                    invariant
                        b <= plan.len(),
                        plan.len() == a,
                        a <= order.len(),
                        n == events.len(),
                        count <= b,
                        forall|c: int| 0 <= c < order.len() ==> (#[trigger] order@[c]) < n && dangling(events@, ts, order@[c] as int),
                        forall|c: int| 0 <= c < a ==> (#[trigger] plan@[c]).event_index == order@[c],
                        count == turn_count(events@, plan@, turn@, b as int),
                    decreases plan.len() - b,
                {
                    assert(plan@[b as int].event_index == order@[b as int]);
                    match &events[plan[b].event_index].payload.requested {
                        Some(Ok(q)) => {
                            if same_text(q.subject.turn_id.as_str(), turn) {
                                count = count + 1;
                            }
                        },
                        _ => {},
                    }
                    b = b + 1;
                }
                let fo: u64 = if (count as u64) > u64::MAX - base {
                    u64::MAX
                } else {
                    base + count as u64
                };
                let item = SweptRequest { event_index: idx, finish_order: fo };
                let ghost prior = plan@;
                plan.push(item);
                proof {
                    assert(plan@ == prior.push(item));
                    lemma_turn_count_prefix(events@, prior, item, turn@, a as int);
                    assert forall|b: int| 0 <= b < a + 1 implies #[trigger] plan@[b].finish_order == saturating_sum(
                        base_finish_order(events@, ts, request_subject(events@[plan@[b].event_index as int]).0, n as int),
                        turn_count(events@, plan@, request_subject(events@[plan@[b].event_index as int]).0, b),
                    ) by {
                        if b < a {
                            assert(plan@[b] == prior[b]);
                            lemma_turn_count_prefix(
                                events@,
                                prior,
                                item,
                                request_subject(events@[prior[b].event_index as int]).0,
                                b,
                            );
                        }
                    }
                }
            },
            _ => {
                proof {
                    assert(dangling(events@, ts, order@[a as int] as int));
                }
            },
        }
        a = a + 1;
    }
    proof {
        assert forall|j: int| dangling(events@, ts, j) implies exists|b: int| 0 <= b < plan.len() && #[trigger] plan@[b].event_index == j by {
            assert(order@.contains(j as usize));
            let b = choose|b: int| 0 <= b < order.len() && order@[b] == j as usize;
            assert(plan@[b].event_index == order@[b]);
        }
        assert forall|x: int, y: int| 0 <= x < y < plan.len() implies subject_lt(
            request_subject(events@[plan@[x].event_index as int]),
            request_subject(events@[plan@[y].event_index as int]),
        ) by {
            assert(plan@[x].event_index == order@[x] && plan@[y].event_index == order@[y]);
        }
        assert forall|x: int| 0 <= x < plan.len() implies dangling(events@, ts, #[trigger] plan@[x].event_index as int) by {
            assert(plan@[x].event_index == order@[x]);
        }
    }
    Ok(plan)
}

// ---------------------------------------------------------------------------
// Laws of the sweep plan
// ---------------------------------------------------------------------------

/// The finish order after the one a completion of turn `turn` recorded.
pub open spec fn recorded_next(e: EventRecord, turn: Seq<char>) -> Option<u64> {
    match e.payload.completed {
        Some(Ok(c)) => if c.subject.turn_id@ == turn {
            Some(next_after(c.finish_order))
        } else {
            None
        },
        _ => None,
    }
}

proof fn lemma_base_finish_order_bounds(events: Seq<EventRecord>, turns: Seq<Seq<char>>, turn: Seq<char>, j: int, k: int)
    requires
        0 <= j < k <= events.len(),
        in_scope(events[j], EventKind::ToolCallCompleted, turns),
        recorded_next(events[j], turn) is Some,
    ensures
        base_finish_order(events, turns, turn, k) >= recorded_next(events[j], turn)->0,
    decreases k,
{
    if k - 1 > j {
        lemma_base_finish_order_bounds(events, turns, turn, j, k - 1);
    }
}

proof fn lemma_turn_count_grows(events: Seq<EventRecord>, plan: Seq<SweptRequest>, turn: Seq<char>, a: int, b: int)
    requires
        0 <= a < b <= plan.len(),
        request_subject(events[plan[a].event_index as int]).0 == turn,
    ensures
        turn_count(events, plan, turn, b) >= turn_count(events, plan, turn, a) + 1,
    decreases b,
{
    if b - 1 > a {
        lemma_turn_count_grows(events, plan, turn, a, b - 1);
    }
}

/// The subject (turn, call) that a decoded completion records, if it decodes.
pub open spec fn completion_subject(e: EventRecord) -> Option<(Seq<char>, Seq<char>)> {
    match e.payload.completed {
        Some(Ok(c)) => Some((c.subject.turn_id@, c.subject.call_id@)),
        _ => None,
    }
}

/// A completion stands for a request only if it records the same call: the
/// same subject (turn and call id), snapshot and fingerprint. So the last
/// request of a cancelled turn's subject that no completion of that same
/// subject records is settled by the sweep, however many completions of
/// other calls with the same snapshot and fingerprint there are.
pub proof fn lemma_requests_of_unanswered_subjects_are_swept(
    events: Seq<EventRecord>,
    turns: Seq<Seq<char>>,
    plan: Seq<SweptRequest>,
    i: int,
)
    requires
        is_sweep_plan(events, turns, plan),
        0 <= i < events.len(),
        in_scope(events[i], EventKind::ToolCallRequested, turns),
        decoded_request(events[i]),
        !superseded(events, turns, i),
        forall|j: int|
            0 <= j < events.len() && in_scope(#[trigger] events[j], EventKind::ToolCallCompleted, turns)
                ==> completion_subject(events[j]) != Some(request_subject(events[i])),
    ensures
        exists|a: int| 0 <= a < plan.len() && #[trigger] plan[a].event_index == i,
{
    assert forall|j: int|
        0 <= j < events.len() && #[trigger] in_scope(events[j], EventKind::ToolCallCompleted, turns) implies !completion_settles(
        events[j],
        events[i],
    ) by {
        assert(completion_subject(events[j]) != Some(request_subject(events[i])));
    }
    assert(dangling(events, turns, i));
}

/// A completion settles a request only when it records the request's own
/// call: same turn, same call id, same snapshot and same fingerprint.
pub proof fn lemma_completions_settle_only_their_own_call(e: EventRecord, r: EventRecord)
    requires
        completion_settles(e, r),
    ensures
        decoded_request(r),
        completion_subject(e) == Some(request_subject(r)),
        e.payload.completed->Some_0->Ok_0.snapshot_id@ == r.payload.requested->Some_0->Ok_0.snapshot_id@,
        opt_string_view(e.payload.completed->Some_0->Ok_0.args_fingerprint) == opt_string_view(
            r.payload.requested->Some_0->Ok_0.args_fingerprint,
        ),
{
}

/// The sweep never settles a request twice: the planned requests have
/// pairwise different subjects.
pub proof fn lemma_sweep_settles_each_subject_once(
    events: Seq<EventRecord>,
    turns: Seq<Seq<char>>,
    plan: Seq<SweptRequest>,
    a: int,
    b: int,
)
    requires
        is_sweep_plan(events, turns, plan),
        0 <= a < b < plan.len(),
    ensures
        request_subject(events[plan[a].event_index as int]) != request_subject(events[plan[b].event_index as int]),
        plan[a].event_index != plan[b].event_index,
{
    lemma_subject_lt_irreflexive(request_subject(events[plan[a].event_index as int]));
}

/// The sweep never hands out a finish order already recorded for a turn:
/// every planned completion comes after each recorded completion of its turn
/// whose finish order is below `u64::MAX`.
pub proof fn lemma_sweep_finish_orders_follow_recorded_ones(
    events: Seq<EventRecord>,
    turns: Seq<Seq<char>>,
    plan: Seq<SweptRequest>,
    a: int,
    j: int,
    recorded: u64,
)
    requires
        is_sweep_plan(events, turns, plan),
        0 <= a < plan.len(),
        0 <= j < events.len(),
        in_scope(events[j], EventKind::ToolCallCompleted, turns),
        events[j].payload.completed matches Some(Ok(c)) && c.subject.turn_id@ == request_subject(
            events[plan[a].event_index as int],
        ).0 && c.finish_order == Some(recorded),
        recorded < u64::MAX,
    ensures
        plan[a].finish_order > recorded,
{
    let turn = request_subject(events[plan[a].event_index as int]).0;
    lemma_base_finish_order_bounds(events, turns, turn, j, events.len() as int);
}

/// Within one turn the sweep's finish orders rise along the plan, until they
/// reach `u64::MAX`.
pub proof fn lemma_sweep_finish_orders_rise_within_a_turn(
    events: Seq<EventRecord>,
    turns: Seq<Seq<char>>,
    plan: Seq<SweptRequest>,
    a: int,
    b: int,
)
    requires
        is_sweep_plan(events, turns, plan),
        0 <= a < b < plan.len(),
        request_subject(events[plan[a].event_index as int]).0 == request_subject(events[plan[b].event_index as int]).0,
        plan[b].finish_order < u64::MAX,
    ensures
        plan[a].finish_order < plan[b].finish_order,
{
    let turn = request_subject(events[plan[a].event_index as int]).0;
    lemma_turn_count_grows(events, plan, turn, a, b);
    assert(plan[a].finish_order == saturating_sum(
        base_finish_order(events, turns, turn, events.len() as int),
        turn_count(events, plan, turn, a),
    ));
    assert(plan[b].finish_order == saturating_sum(
        base_finish_order(events, turns, turn, events.len() as int),
        turn_count(events, plan, turn, b),
    ));
}

} // verus!
