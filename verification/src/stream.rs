//! Assembly of a streamed provider response: text, thinking and tool-call
//! deltas folded into the final content, with the runtime events the stream
//! produces along the way.

use vstd::prelude::*;
use crate::history::{CanonicalContent, CanonicalMessage, CanonicalStopReason, CanonicalUsage};
use crate::json::{duplicate_value, empty_object, json_parse_failure, json_parsed, parse_json};
use crate::retry::{stream_assembly_error, ModelRequestAttemptError, ModelRequestErrorClass};
use crate::text::{is_blank, push_str, text_is_blank};

verus! {

/// One event of a provider's response stream.
#[derive(Debug)]
pub enum ProviderStreamEvent {
    TextDelta { text: String },
    ThinkingDelta { text: String },
    ToolCallDelta { id: String, name: Option<String>, arguments_delta: String },
    Content { content: CanonicalContent },
    Usage { usage: CanonicalUsage },
    Done { stop_reason: CanonicalStopReason },
    Error { message: String },
}

/// A runtime event emitted while a stream is assembled.
#[derive(Debug)]
pub enum StreamRuntimeEvent {
    TextDelta { text: String },
    ThinkingDelta { text: String },
    ToolCallStarted { call_id: String, name: String, input: serde_json::Value },
    Usage { usage: CanonicalUsage },
}

/// A complete provider response.
#[derive(Debug)]
pub struct ProviderResponse {
    pub content: Vec<CanonicalContent>,
    pub usage: CanonicalUsage,
    pub stop_reason: CanonicalStopReason,
}

/// The outcome of assembling a stream, with the events emitted on the way.
#[derive(Debug)]
pub struct StreamAssembly {
    pub response: Result<ProviderResponse, ModelRequestAttemptError>,
    pub events: Vec<StreamRuntimeEvent>,
}

/// A tool call that has only been seen as deltas so far.
#[derive(Debug)]
pub struct PendingToolCall {
    pub id: String,
    pub name: Option<String>,
    pub arguments: String,
}

// ---------------------------------------------------------------------------
// Tool-call id aliases
// ---------------------------------------------------------------------------

/// The index of the first `|` at or after `from`.
pub open spec fn first_bar(id: Seq<char>, from: int) -> Option<int>
    decreases id.len() - from,
{
    if from < 0 || from >= id.len() {
        None
    } else if id[from] == '|' {
        Some(from)
    } else {
        first_bar(id, from + 1)
    }
}

/// The ids a tool call is known under: the id itself, then the non-empty
/// parts before and after its first `|`.
pub open spec fn call_id_aliases(id: Seq<char>) -> Seq<Seq<char>> {
    seq![id] + match first_bar(id, 0) {
        Some(k) => (if k > 0 { seq![id.take(k)] } else { Seq::<Seq<char>>::empty() }) + (if k
            + 1 < id.len() {
            seq![id.skip(k + 1)]
        } else {
            Seq::<Seq<char>>::empty()
        }),
        None => Seq::empty(),
    }
}

/// Views of a list of strings.
pub open spec fn string_views(strings: Seq<String>) -> Seq<Seq<char>> {
    strings.map_values(|s: String| s@)
}

/// The ids a tool call is known under (see `call_id_aliases`).
pub fn tool_call_id_aliases(id: &str) -> (aliases: Vec<String>)
    ensures
        string_views(aliases@) == call_id_aliases(id@),
{
    let n = id.unicode_len();
    let mut aliases: Vec<String> = Vec::new();
    aliases.push(String::from_str(id));
    let mut k: usize = 0;
    let mut found = false;
    while k < n && !found
        invariant
            k <= n,
            n == id@.len(),
            first_bar(id@, 0) == first_bar(id@, k as int),
            found ==> k < n && id@[k as int] == '|',
        decreases n - k + (if found { 0int } else { 1int }),
    {
        if id.get_char(k) == '|' {
            found = true;
        } else {
            k = k + 1;
        }
    }
    if found {
        assert(first_bar(id@, 0) == Some(k as int));
        if k > 0 {
            aliases.push(String::from_str(id.substring_char(0, k)));
        }
        if k + 1 < n {
            aliases.push(String::from_str(id.substring_char(k + 1, n)));
        }
    } else {
        assert(first_bar(id@, k as int) is None);
    }
    proof {
        assert(string_views(aliases@) =~= call_id_aliases(id@));
    }
    aliases
}

/// Whether `candidate` is one of the ids `id` is known under.
fn is_alias(candidate: &String, id: &String) -> (b: bool)
    ensures
        b == call_id_aliases(id@).contains(candidate@),
{
    let aliases = tool_call_id_aliases(id.as_str());
    let mut i: usize = 0;
    while i < aliases.len()
        invariant
            i <= aliases.len(),
            string_views(aliases@) == call_id_aliases(id@),
            forall|j: int| 0 <= j < i ==> call_id_aliases(id@)[j] != candidate@,
        decreases aliases.len() - i,
    {
        assert(string_views(aliases@)[i as int] == aliases@[i as int]@);
        if aliases[i] == *candidate {
            assert(call_id_aliases(id@)[i as int] == candidate@);
            return true;
        }
        i = i + 1;
    }
    false
}

// ---------------------------------------------------------------------------
// The fold over stream events
// ---------------------------------------------------------------------------

/// Content as the contracts see it.
pub ghost enum ContentView {
    Text { text: Seq<char> },
    Thinking { text: Seq<char> },
    Image { data: Seq<char> },
    ToolCall { id: Seq<char>, name: Seq<char>, arguments: serde_json::Value },
}

/// The view of a content block.
pub open spec fn content_view(content: CanonicalContent) -> ContentView {
    match content {
        CanonicalContent::Text { text } => ContentView::Text { text: text@ },
        CanonicalContent::Thinking { text } => ContentView::Thinking { text: text@ },
        CanonicalContent::Image { data } => ContentView::Image { data: data@ },
        CanonicalContent::ToolCall { id, name, arguments } => ContentView::ToolCall {
            id: id@,
            name: name@,
            arguments,
        },
    }
}

/// Runtime events as the contracts see them.
pub ghost enum StreamEventView {
    TextDelta { text: Seq<char> },
    ThinkingDelta { text: Seq<char> },
    ToolCallStarted { call_id: Seq<char>, name: Seq<char>, input: serde_json::Value },
    Usage { usage: CanonicalUsage },
}

/// The view of a runtime event.
pub open spec fn event_view(event: StreamRuntimeEvent) -> StreamEventView {
    match event {
        StreamRuntimeEvent::TextDelta { text } => StreamEventView::TextDelta { text: text@ },
        StreamRuntimeEvent::ThinkingDelta { text } => StreamEventView::ThinkingDelta {
            text: text@,
        },
        StreamRuntimeEvent::ToolCallStarted { call_id, name, input } => {
            StreamEventView::ToolCallStarted { call_id: call_id@, name: name@, input }
        },
        StreamRuntimeEvent::Usage { usage } => StreamEventView::Usage { usage },
    }
}

/// A pending tool call as the contracts see it.
pub ghost struct PendingView {
    pub id: Seq<char>,
    pub name: Option<Seq<char>>,
    pub arguments: Seq<char>,
}

/// The view of a pending tool call.
pub open spec fn pending_view(p: PendingToolCall) -> PendingView {
    PendingView {
        id: p.id@,
        name: match p.name {
            Some(n) => Some(n@),
            None => None,
        },
        arguments: p.arguments@,
    }
}

/// The state of the fold after some stream events.
pub ghost struct StreamFold {
    pub content: Seq<ContentView>,
    pub text: Seq<char>,
    pub usage: CanonicalUsage,
    pub stop_reason: CanonicalStopReason,
    pub saw_done: bool,
    pub pending: Seq<PendingView>,
    pub completed: Seq<Seq<char>>,
    pub events: Seq<StreamEventView>,
    pub error: Option<Seq<char>>,
}

/// The fold before any event.
pub open spec fn stream_start() -> StreamFold {
    StreamFold {
        content: Seq::empty(),
        text: Seq::empty(),
        usage: CanonicalUsage {
            input_tokens: 0,
            output_tokens: 0,
            cache_creation_input_tokens: 0,
            cache_read_input_tokens: 0,
        },
        stop_reason: CanonicalStopReason::EndTurn,
        saw_done: false,
        pending: Seq::empty(),
        completed: Seq::empty(),
        events: Seq::empty(),
        error: None,
    }
}

/// The first pending call with id `id` at or after `from`.
pub open spec fn pending_index(pending: Seq<PendingView>, id: Seq<char>, from: int) -> Option<int>
    decreases pending.len() - from,
{
    if from < 0 || from >= pending.len() {
        None
    } else if pending[from].id == id {
        Some(from)
    } else {
        pending_index(pending, id, from + 1)
    }
}

/// Whether tool-call deltas under `delta_id` (carrying `delta_name`) belong to
/// the completed call `completed_id`: deltas under its own id always do;
/// nameless deltas under another of the ids it is known by do too.
pub open spec fn folds_into(delta_id: Seq<char>, delta_name: Option<Seq<char>>, completed_id: Seq<char>) -> bool {
    delta_id == completed_id || (delta_name is None && call_id_aliases(completed_id).contains(delta_id))
}

/// Whether deltas under `id` (carrying `name`) belong to a call already completed.
pub open spec fn aliases_completed(completed: Seq<Seq<char>>, id: Seq<char>, name: Option<Seq<char>>) -> bool {
    exists|j: int| 0 <= j < completed.len() && #[trigger] folds_into(id, name, completed[j])
}

/// Whether a completed call with id `id` absorbs the pending call `p`.
pub open spec fn absorbs(p: PendingView, id: Seq<char>) -> bool {
    folds_into(p.id, p.name, id)
}

/// The pending calls that a completed call leaves pending.
pub open spec fn without_absorbed(pending: Seq<PendingView>, id: Seq<char>) -> Seq<
    PendingView,
>
    decreases pending.len(),
{
    if pending.len() == 0 {
        pending
    } else {
        let rest = without_absorbed(pending.drop_last(), id);
        if absorbs(pending.last(), id) {
            rest
        } else {
            rest.push(pending.last())
        }
    }
}

/// A completed tool call leaves no pending call it absorbs, so a call seen
/// both as deltas and as a completed block starts (and is assembled) once;
/// every other pending call stays.
pub proof fn lemma_completed_call_absorbs_its_pending_deltas(pending: Seq<PendingView>, id: Seq<char>)
    ensures
        forall|j: int|
            0 <= j < without_absorbed(pending, id).len() ==> !absorbs(
                #[trigger] without_absorbed(pending, id)[j],
                id,
            ),
        forall|j: int|
            0 <= j < pending.len() && !absorbs(pending[j], id) ==> without_absorbed(pending, id).contains(
                #[trigger] pending[j],
            ),
        without_absorbed(pending, id).len() <= pending.len(),
    decreases pending.len(),
{
    if pending.len() > 0 {
        lemma_completed_call_absorbs_its_pending_deltas(pending.drop_last(), id);
        assert forall|j: int| 0 <= j < pending.len() && !absorbs(pending[j], id) implies without_absorbed(
            pending,
            id,
        ).contains(#[trigger] pending[j]) by {
            if j < pending.len() - 1 {
                assert(pending.drop_last()[j] == pending[j]);
                let k = choose|k: int| 0 <= k < without_absorbed(pending.drop_last(), id).len() && without_absorbed(pending.drop_last(), id)[k] == pending[j];
                if !absorbs(pending.last(), id) {
                    assert(without_absorbed(pending, id)[k] == pending[j]);
                }
            } else {
                assert(without_absorbed(pending, id).last() == pending[j]);
            }
        }
    }
}

/// Deltas that belong to a completed call change nothing.
pub proof fn lemma_deltas_of_a_completed_call_are_ignored(
    st: StreamFold,
    id: String,
    name: Option<String>,
    arguments_delta: String,
)
    requires
        aliases_completed(st.completed, id@, match name {
            Some(n) => Some(n@),
            None => None,
        }),
    ensures
        stream_step(st, ProviderStreamEvent::ToolCallDelta { id, name, arguments_delta }) == st,
{
}

/// Adds one tool-call delta to the pending calls.
pub open spec fn with_delta(
    pending: Seq<PendingView>,
    id: Seq<char>,
    name: Option<Seq<char>>,
    delta: Seq<char>,
) -> Seq<PendingView> {
    match pending_index(pending, id, 0) {
        Some(j) => pending.update(
            j,
            PendingView {
                id,
                name: if name is Some { name } else { pending[j].name },
                arguments: pending[j].arguments + delta,
            },
        ),
        None => pending.push(PendingView { id, name, arguments: delta }),
    }
}

/// Component-wise sum of two usages.
pub open spec fn usage_sum(a: CanonicalUsage, b: CanonicalUsage) -> (int, int, int, int) {
    (
        a.input_tokens + b.input_tokens,
        a.output_tokens + b.output_tokens,
        a.cache_creation_input_tokens + b.cache_creation_input_tokens,
        a.cache_read_input_tokens + b.cache_read_input_tokens,
    )
}

/// The fold after one more event.
pub open spec fn stream_step(st: StreamFold, event: ProviderStreamEvent) -> StreamFold {
    if st.error is Some {
        st
    } else {
        match event {
            ProviderStreamEvent::TextDelta { text } => StreamFold {
                text: st.text + text@,
                events: st.events.push(StreamEventView::TextDelta { text: text@ }),
                ..st
            },
            ProviderStreamEvent::ThinkingDelta { text } => StreamFold {
                content: st.content.push(ContentView::Thinking { text: text@ }),
                events: st.events.push(StreamEventView::ThinkingDelta { text: text@ }),
                ..st
            },
            ProviderStreamEvent::ToolCallDelta { id, name, arguments_delta } => {
                if aliases_completed(st.completed, id@, match name {
                    Some(n) => Some(n@),
                    None => None,
                }) {
                    st
                } else {
                    StreamFold {
                        pending: with_delta(
                            st.pending,
                            id@,
                            match name {
                                Some(n) => Some(n@),
                                None => None,
                            },
                            arguments_delta@,
                        ),
                        ..st
                    }
                }
            },
            ProviderStreamEvent::Content { content } => match content {
                CanonicalContent::Text { text } => {
                    if st.text.len() > 0 && text@ == st.text {
                        st
                    } else {
                        StreamFold { content: st.content.push(content_view(content)), ..st }
                    }
                },
                CanonicalContent::ToolCall { id, name, arguments } => StreamFold {
                    content: st.content.push(content_view(content)),
                    pending: without_absorbed(st.pending, id@),
                    completed: st.completed.push(id@),
                    events: st.events.push(
                        StreamEventView::ToolCallStarted { call_id: id@, name: name@, input: arguments },
                    ),
                    ..st
                },
                _ => StreamFold { content: st.content.push(content_view(content)), ..st },
            },
            ProviderStreamEvent::Usage { usage } => {
                let s = usage_sum(st.usage, usage);
                StreamFold {
                    usage: CanonicalUsage {
                        input_tokens: s.0 as u64,
                        output_tokens: s.1 as u64,
                        cache_creation_input_tokens: s.2 as u64,
                        cache_read_input_tokens: s.3 as u64,
                    },
                    events: st.events.push(StreamEventView::Usage { usage }),
                    ..st
                }
            },
            ProviderStreamEvent::Done { stop_reason } => StreamFold {
                saw_done: true,
                stop_reason,
                ..st
            },
            ProviderStreamEvent::Error { message } => StreamFold { error: Some(message@), ..st },
        }
    }
}

/// The fold after all of `events`.
pub open spec fn stream_fold(events: Seq<ProviderStreamEvent>) -> StreamFold
    decreases events.len(),
{
    if events.len() == 0 {
        stream_start()
    } else {
        stream_step(stream_fold(events.drop_last()), events.last())
    }
}

/// Sum of all usage reported by `events`, per field.
pub open spec fn reported_usage(events: Seq<ProviderStreamEvent>) -> (int, int, int, int)
    decreases events.len(),
{
    if events.len() == 0 {
        (0, 0, 0, 0)
    } else {
        let s = reported_usage(events.drop_last());
        match events.last() {
            ProviderStreamEvent::Usage { usage } => (
                s.0 + usage.input_tokens,
                s.1 + usage.output_tokens,
                s.2 + usage.cache_creation_input_tokens,
                s.3 + usage.cache_read_input_tokens,
            ),
            _ => s,
        }
    }
}

/// Whether the usage a stream reports fits the counters.
pub open spec fn usage_fits(events: Seq<ProviderStreamEvent>) -> bool {
    let s = reported_usage(events);
    s.0 <= u64::MAX && s.1 <= u64::MAX && s.2 <= u64::MAX && s.3 <= u64::MAX
}

/// The text the text deltas of `events` carry, concatenated in order.
pub open spec fn delta_text(events: Seq<ProviderStreamEvent>) -> Seq<char>
    decreases events.len(),
{
    if events.len() == 0 {
        Seq::empty()
    } else {
        match events.last() {
            ProviderStreamEvent::TextDelta { text } => delta_text(events.drop_last()) + text@,
            _ => delta_text(events.drop_last()),
        }
    }
}

proof fn lemma_fold_text_is_delta_text(events: Seq<ProviderStreamEvent>)
    requires
        forall|i: int| 0 <= i < events.len() ==> !(#[trigger] events[i] is Error),
    ensures
        stream_fold(events).text == delta_text(events),
        stream_fold(events).error is None,
    decreases events.len(),
{
    if events.len() > 0 {
        lemma_fold_text_is_delta_text(events.drop_last());
    }
}

proof fn lemma_fold_content_grows(events: Seq<ProviderStreamEvent>, k: int)
    requires
        0 <= k <= events.len(),
    ensures
        stream_fold(events.take(k)).content.len() <= stream_fold(events).content.len(),
        stream_fold(events).content.take(stream_fold(events.take(k)).content.len() as int) == stream_fold(
            events.take(k),
        ).content,
    decreases events.len() - k,
{
    if k == events.len() {
        assert(events.take(k) =~= events);
    } else {
        lemma_fold_content_grows(events, k + 1);
        let a = stream_fold(events.take(k)).content;
        let b = stream_fold(events.take(k + 1)).content;
        assert(events.take(k + 1).drop_last() =~= events.take(k));
        assert(b == a || b == a.push(b.last()));
        let c = stream_fold(events).content;
        assert(c.take(a.len() as int) =~= b.take(a.len() as int));
        assert(b.take(a.len() as int) =~= a);
    }
}

/// A completed text block is lost only as the repetition of the streamed
/// text: when it differs from the text the deltas streamed before it (or no
/// text was streamed), it stands in the assembled content, before the
/// pending calls, whatever else the stream holds.
pub proof fn lemma_completed_text_blocks_are_kept(events: Seq<ProviderStreamEvent>, k: int, text: Seq<char>)
    requires
        0 <= k < events.len(),
        events[k] matches ProviderStreamEvent::Content { content: CanonicalContent::Text { text: t } } && t@ == text,
        forall|i: int| 0 <= i <= k ==> !(#[trigger] events[i] is Error),
        delta_text(events.take(k)).len() == 0 || delta_text(events.take(k)) != text,
    ensures
        stream_fold(events).content.contains(ContentView::Text { text }),
        assembled_prefix(stream_fold(events)).contains(ContentView::Text { text }),
{
    let before = events.take(k);
    assert forall|i: int| 0 <= i < before.len() implies !(#[trigger] before[i] is Error) by {
        assert(before[i] == events[i]);
    }
    lemma_fold_text_is_delta_text(before);
    assert(events.take(k + 1).drop_last() =~= before);
    assert(events.take(k + 1).last() == events[k]);
    let after = stream_fold(events.take(k + 1)).content;
    assert(after == stream_fold(before).content.push(ContentView::Text { text }));
    lemma_fold_content_grows(events, k + 1);
    let all = stream_fold(events).content;
    assert(all[after.len() - 1] == after[after.len() - 1]);
    let f = stream_fold(events);
    let pre = if f.text.len() > 0 { seq![ContentView::Text { text: f.text }] } else { Seq::<ContentView>::empty() };
    assert(assembled_prefix(f) == pre + all);
    assert(assembled_prefix(f)[pre.len() + after.len() - 1] == ContentView::Text { text });
}

/// Why finalizing a pending call fails, if it does.
pub open spec fn pending_failure(p: PendingView) -> Option<Seq<char>> {
    if p.name is None {
        Some("streamed tool call "@ + p.id + " is missing a name"@)
    } else if !is_blank(p.arguments) && json_parse_failure(p.arguments) is Some {
        Some(
            "invalid streamed tool arguments for "@ + p.id + ": "@ + json_parse_failure(
                p.arguments,
            ).unwrap(),
        )
    } else {
        None
    }
}

/// The failure message for a pending call whose arguments did not parse,
/// given the parser's rendered error.
pub fn invalid_arguments_message(call_id: &str, parse_error: String) -> (message: String)
    ensures
        message@ == "invalid streamed tool arguments for "@ + call_id@ + ": "@ + parse_error@,
{
    let mut message = String::from_str("invalid streamed tool arguments for ");
    push_str(&mut message, call_id);
    push_str(&mut message, ": ");
    push_str(&mut message, parse_error.as_str());
    message
}

/// The arguments a pending call is assembled with: its accumulated text
/// parsed as JSON, or `{}` when that text is blank.
pub open spec fn assembled_arguments(text: Seq<char>) -> serde_json::Value {
    if is_blank(text) {
        json_parsed("{}"@)
    } else {
        json_parsed(text)
    }
}

/// Whether `c` is the tool call assembled from pending call `p`.
pub open spec fn is_assembled_call(c: ContentView, p: PendingView) -> bool {
    c matches ContentView::ToolCall { id, name, arguments } && id == p.id && Some(name) == p.name && arguments
        == assembled_arguments(p.arguments)
}

/// Whether `e` is the started event of the call assembled from pending call `p`.
pub open spec fn is_assembled_start(e: StreamEventView, p: PendingView) -> bool {
    e matches StreamEventView::ToolCallStarted { call_id, name, input } && call_id == p.id && Some(name) == p.name
        && input == assembled_arguments(p.arguments)
}

/// The first failure among the pending calls from index `from` on.
pub open spec fn first_pending_failure(pending: Seq<PendingView>, from: int) -> Option<Seq<char>>
    decreases pending.len() - from,
{
    if from < 0 || from >= pending.len() {
        None
    } else if pending_failure(pending[from]) is Some {
        pending_failure(pending[from])
    } else {
        first_pending_failure(pending, from + 1)
    }
}

/// Why a folded stream cannot be assembled, if it cannot: a stream error, a
/// missing `Done`, or a pending call without a name or with arguments that do
/// not parse.
pub open spec fn stream_failure(f: StreamFold) -> Option<Seq<char>> {
    if f.error is Some {
        f.error
    } else if !f.saw_done {
        Some("provider stream ended before done event"@)
    } else {
        first_pending_failure(f.pending, 0)
    }
}

/// The assembled content before the pending calls: the accumulated text (if
/// any) first, then the content blocks in order.
pub open spec fn assembled_prefix(f: StreamFold) -> Seq<ContentView> {
    (if f.text.len() > 0 {
        seq![ContentView::Text { text: f.text }]
    } else {
        Seq::empty()
    }) + f.content
}

/// Views of content blocks.
pub open spec fn content_views(content: Seq<CanonicalContent>) -> Seq<ContentView> {
    content.map_values(|c: CanonicalContent| content_view(c))
}

/// Views of runtime events.
pub open spec fn event_views(events: Seq<StreamRuntimeEvent>) -> Seq<StreamEventView> {
    events.map_values(|e: StreamRuntimeEvent| event_view(e))
}

/// Views of pending calls.
pub open spec fn pending_views(pending: Seq<PendingToolCall>) -> Seq<PendingView> {
    pending.map_values(|p: PendingToolCall| pending_view(p))
}

/// The index of the pending call with id `id`.
fn find_pending(pending: &Vec<PendingToolCall>, id: &String) -> (index: Option<usize>)
    ensures
        match index {
            Some(j) => pending_index(pending_views(pending@), id@, 0) == Some(j as int),
            None => pending_index(pending_views(pending@), id@, 0) is None,
        },
{
    let mut j: usize = 0;
    while j < pending.len()
        invariant
            j <= pending.len(),
            pending_index(pending_views(pending@), id@, 0) == pending_index(
                pending_views(pending@),
                id@,
                j as int,
            ),
        decreases pending.len() - j,
    {
        assert(pending_views(pending@)[j as int] == pending_view(pending@[j as int]));
        if pending[j].id == *id {
            return Some(j);
        }
        j = j + 1;
    }
    None
}

fn folds_into_exec(delta_id: &String, delta_name: &Option<String>, completed_id: &String) -> (b: bool)
    ensures
        b == folds_into(delta_id@, match delta_name {
            Some(n) => Some(n@),
            None => None,
        }, completed_id@),
{
    *delta_id == *completed_id || (delta_name.is_none() && is_alias(delta_id, completed_id))
}

/// Whether deltas under `id` (carrying `name`) belong to a completed call.
fn aliases_a_completed_call(completed: &Vec<String>, id: &String, name: &Option<String>) -> (b: bool)
    ensures
        b == aliases_completed(string_views(completed@), id@, match name {
            Some(n) => Some(n@),
            None => None,
        }),
{
    let ghost nv: Option<Seq<char>> = match name {
        Some(n) => Some(n@),
        None => None,
    };
    let mut j: usize = 0;
    while j < completed.len()
        invariant
            j <= completed.len(),
            nv == (match name {
                Some(n) => Some(n@),
                None => None::<Seq<char>>,
            }),
            forall|m: int| 0 <= m < j ==> !#[trigger] folds_into(id@, nv, string_views(completed@)[m]),
        decreases completed.len() - j,
    {
        assert(string_views(completed@)[j as int] == completed@[j as int]@);
        if folds_into_exec(id, name, &completed[j]) {
            return true;
        }
        j = j + 1;
    }
    false
}

/// Keeps the pending calls that a completed call does not absorb.
fn drop_absorbed(pending: Vec<PendingToolCall>, id: &String) -> (kept: Vec<PendingToolCall>)
    ensures
        pending_views(kept@) == without_absorbed(pending_views(pending@), id@),
{
    let ghost original = pending@;
    let n = pending.len();
    let mut pending = pending;
    let mut kept: Vec<PendingToolCall> = Vec::new();
    let mut i: usize = 0;
    while i < n
        invariant
            i <= n,
            n == original.len(),
            pending@ == original.skip(i as int),
            pending_views(kept@) == without_absorbed(pending_views(original.take(i as int)), id@),
        decreases n - i,
    {
        let p = pending.remove(0);
        proof {
            assert(original.skip(i as int)[0] == p);
            assert(pending@ =~= original.skip(i as int + 1));
            assert(pending_views(original.take(i as int + 1)).drop_last() =~= pending_views(original.take(i as int)));
            assert(pending_views(original.take(i as int + 1)).last() == pending_view(p));
        }
        let absorbed = folds_into_exec(&p.id, &p.name, id);
        if !absorbed {
            kept.push(p);
            proof {
                assert(pending_views(kept@) =~= without_absorbed(pending_views(original.take(i as int)), id@).push(pending_view(p)));
            }
        }
        i = i + 1;
    }
    proof {
        assert(original.take(n as int) =~= original);
    }
    kept
}

/// Adds a tool-call delta to the pending calls.
fn add_delta(pending: &mut Vec<PendingToolCall>, id: String, name: Option<String>, delta: String)
    ensures
        pending_views(final(pending)@) == with_delta(
            pending_views(old(pending)@),
            id@,
            match name {
                Some(n) => Some(n@),
                None => None,
            },
            delta@,
        ),
{
    let found = find_pending(pending, &id);
    proof {
        lemma_pending_index_range(pending_views(pending@), id@, 0);
    }
    match found {
        Some(j) => {
            let old_call = pending.remove(j);
            let mut arguments = old_call.arguments;
            push_str(&mut arguments, delta.as_str());
            let new_name = match name {
                Some(n) => Some(n),
                None => old_call.name,
            };
            pending.insert(j, PendingToolCall { id, name: new_name, arguments });
            proof {
                assert(pending_views(pending@) =~= pending_views(old(pending)@).update(
                    j as int,
                    pending_view(pending@[j as int]),
                ));
            }
        },
        None => {
            pending.push(PendingToolCall { id, name, arguments: delta });
            proof {
                assert(pending_views(pending@) =~= pending_views(old(pending)@).push(
                    pending_view(pending@[pending.len() - 1]),
                ));
            }
        },
    }
}

proof fn lemma_pending_index_range(pending: Seq<PendingView>, id: Seq<char>, from: int)
    ensures
        pending_index(pending, id, from) matches Some(j) ==> 0 <= from <= j < pending.len()
            && pending[j].id == id,
    decreases pending.len() - from,
{
    if 0 <= from < pending.len() {
        lemma_pending_index_range(pending, id, from + 1);
    }
}

proof fn lemma_reported_usage_prefix(events: Seq<ProviderStreamEvent>, i: int)
    requires
        0 <= i <= events.len(),
    ensures
        reported_usage(events.take(i)).0 <= reported_usage(events).0,
        reported_usage(events.take(i)).1 <= reported_usage(events).1,
        reported_usage(events.take(i)).2 <= reported_usage(events).2,
        reported_usage(events.take(i)).3 <= reported_usage(events).3,
    decreases events.len(),
{
    if i == events.len() {
        assert(events.take(i) =~= events);
    } else {
        assert(events.take(i) =~= events.drop_last().take(i));
        lemma_reported_usage_prefix(events.drop_last(), i);
    }
}

proof fn lemma_fold_error_sticks(events: Seq<ProviderStreamEvent>, i: int)
    requires
        0 <= i <= events.len(),
        stream_fold(events.take(i)).error is Some,
    ensures
        stream_fold(events) == stream_fold(events.take(i)),
    decreases events.len(),
{
    if i == events.len() {
        assert(events.take(i) =~= events);
    } else {
        assert(events.drop_last().take(i) =~= events.take(i));
        lemma_fold_error_sticks(events.drop_last(), i);
    }
}

/// Whether a pending call's failure is absent for all of `pending[..j]`.
proof fn lemma_first_pending_failure_skip(pending: Seq<PendingView>, j: int)
    requires
        0 <= j < pending.len(),
        pending_failure(pending[j]) is None,
    ensures
        first_pending_failure(pending, j) == first_pending_failure(pending, j + 1),
{
}

/// Assembles a streamed response: text deltas accumulate into one leading
/// text block, thinking deltas and completed content blocks follow in order
/// (a completed text block equal to the accumulated text is dropped), usage is
/// summed, and tool-call deltas accumulate into pending calls that are
/// finalized after `Done`. Deltas belong to a completed tool call when they
/// carry its exact id, or carry no name and one of the other ids it is known
/// under (see `folds_into`): a completed call absorbs such pending calls, and
/// such deltas after it are ignored. Each assembled call's arguments are the
/// parsed text of its deltas (`{}` when blank), and its started event carries
/// them. The stream fails on an error event, without `Done`, or when a
/// pending call has no name or unparsable arguments.
pub fn response_from_stream_events(stream_events: Vec<ProviderStreamEvent>) -> (assembly:
    StreamAssembly)
    requires
        usage_fits(stream_events@),
    ensures
        ({
            let f = stream_fold(stream_events@);
            let prefix = assembled_prefix(f);
            match assembly.response {
                Err(error) => {
                    &&& stream_failure(f) == Some(error.message@)
                    &&& error.class == ModelRequestErrorClass::StreamAssembly
                    &&& event_views(assembly.events@) == f.events
                },
                Ok(response) => {
                    &&& stream_failure(f) is None
                    &&& response.usage == f.usage
                    &&& response.stop_reason == f.stop_reason
                    &&& response.content.len() == prefix.len() + f.pending.len()
                    &&& content_views(response.content@).take(prefix.len() as int) == prefix
                    &&& forall|j: int|
                        0 <= j < f.pending.len() ==> (is_assembled_call(#[trigger] content_views(
                            response.content@,
                        )[prefix.len() + j], f.pending[j]))
                    &&& assembly.events.len() == f.events.len() + f.pending.len()
                    &&& event_views(assembly.events@).take(f.events.len() as int) == f.events
                    &&& forall|j: int|
                        0 <= j < f.pending.len() ==> (is_assembled_start(#[trigger] event_views(assembly.events@)[f.events.len() + j], f.pending[j]))
                },
            }
        }),
{
    let ghost all = stream_events@;
    let n = stream_events.len();
    let mut remaining = stream_events;
    let mut content: Vec<CanonicalContent> = Vec::new();
    let mut text = String::new();
    let mut usage = CanonicalUsage {
        input_tokens: 0,
        output_tokens: 0,
        cache_creation_input_tokens: 0,
        cache_read_input_tokens: 0,
    };
    let mut stop_reason = CanonicalStopReason::EndTurn;
    let mut saw_done = false;
    let mut pending: Vec<PendingToolCall> = Vec::new();
    let mut completed: Vec<String> = Vec::new();
    let mut events: Vec<StreamRuntimeEvent> = Vec::new();
    let mut i: usize = 0;
    proof {
        assert(all.take(0) =~= Seq::<ProviderStreamEvent>::empty());
        assert(content_views(content@) =~= Seq::<ContentView>::empty());
        assert(event_views(events@) =~= Seq::<StreamEventView>::empty());
        assert(pending_views(pending@) =~= Seq::<PendingView>::empty());
        assert(string_views(completed@) =~= Seq::<Seq<char>>::empty());
    }
    while i < n
        invariant
            i <= n,
            n == all.len(),
            all == stream_events@,
            usage_fits(all),
            remaining@ == all.skip(i as int),
            ({
                let f = stream_fold(all.take(i as int));
                &&& f.error is None
                &&& content_views(content@) == f.content
                &&& text@ == f.text
                &&& usage == f.usage
                &&& stop_reason == f.stop_reason
                &&& saw_done == f.saw_done
                &&& pending_views(pending@) == f.pending
                &&& string_views(completed@) == f.completed
                &&& event_views(events@) == f.events
            }),
            usage.input_tokens == reported_usage(all.take(i as int)).0,
            usage.output_tokens == reported_usage(all.take(i as int)).1,
            usage.cache_creation_input_tokens == reported_usage(all.take(i as int)).2,
            usage.cache_read_input_tokens == reported_usage(all.take(i as int)).3,
        decreases n - i,
    {
        let event = remaining.remove(0);
        let ghost before = stream_fold(all.take(i as int));
        proof {
            assert(all.skip(i as int)[0] == event);
            assert(remaining@ =~= all.skip(i as int + 1));
            assert(all.take(i as int + 1).drop_last() =~= all.take(i as int));
            assert(all.take(i as int + 1).last() == event);
            lemma_reported_usage_prefix(all, i as int + 1);
        }
        match event {
            ProviderStreamEvent::TextDelta { text: delta } => {
                events.push(StreamRuntimeEvent::TextDelta { text: delta.clone() });
                push_str(&mut text, delta.as_str());
                proof {
                    assert(event_views(events@) =~= before.events.push(
                        StreamEventView::TextDelta { text: delta@ },
                    ));
                }
            },
            ProviderStreamEvent::ThinkingDelta { text: delta } => {
                events.push(StreamRuntimeEvent::ThinkingDelta { text: delta.clone() });
                content.push(CanonicalContent::Thinking { text: delta });
                proof {
                    assert(event_views(events@) =~= before.events.push(
                        StreamEventView::ThinkingDelta { text: delta@ },
                    ));
                    assert(content_views(content@) =~= before.content.push(
                        ContentView::Thinking { text: delta@ },
                    ));
                }
            },
            ProviderStreamEvent::ToolCallDelta { id, name, arguments_delta } => {
                if !aliases_a_completed_call(&completed, &id, &name) {
                    add_delta(&mut pending, id, name, arguments_delta);
                }
            },
            ProviderStreamEvent::Content { content: incoming } => {
                match incoming {
                    CanonicalContent::Text { text: incoming_text } => {
                        if text.as_str().is_empty() || incoming_text != text {
                            content.push(CanonicalContent::Text { text: incoming_text });
                            proof {
                                assert(content_views(content@) =~= before.content.push(
                                    ContentView::Text { text: incoming_text@ },
                                ));
                            }
                        }
                    },
                    CanonicalContent::ToolCall { id, name, arguments } => {
                        pending = drop_absorbed(pending, &id);
                        completed.push(id.clone());
                        events.push(
                            StreamRuntimeEvent::ToolCallStarted {
                                call_id: id.clone(),
                                name: name.clone(),
                                input: duplicate_value(&arguments),
                            },
                        );
                        content.push(CanonicalContent::ToolCall { id, name, arguments });
                        proof {
                            assert(string_views(completed@) =~= before.completed.push(id@));
                            assert(event_views(events@) =~= before.events.push(
                                StreamEventView::ToolCallStarted {
                                    call_id: id@,
                                    name: name@,
                                    input: arguments,
                                },
                            ));
                            assert(content_views(content@) =~= before.content.push(
                                ContentView::ToolCall { id: id@, name: name@, arguments },
                            ));
                        }
                    },
                    other => {
                        let ghost other_view = content_view(other);
                        content.push(other);
                        proof {
                            assert(content_views(content@) =~= before.content.push(other_view));
                        }
                    },
                }
            },
            ProviderStreamEvent::Usage { usage: reported } => {
                usage = CanonicalUsage {
                    input_tokens: usage.input_tokens + reported.input_tokens,
                    output_tokens: usage.output_tokens + reported.output_tokens,
                    cache_creation_input_tokens: usage.cache_creation_input_tokens
                        + reported.cache_creation_input_tokens,
                    cache_read_input_tokens: usage.cache_read_input_tokens
                        + reported.cache_read_input_tokens,
                };
                events.push(StreamRuntimeEvent::Usage { usage: reported });
                proof {
                    assert(event_views(events@) =~= before.events.push(
                        StreamEventView::Usage { usage: reported },
                    ));
                }
            },
            ProviderStreamEvent::Done { stop_reason: reason } => {
                saw_done = true;
                stop_reason = reason;
            },
            ProviderStreamEvent::Error { message } => {
                proof {
                    assert(stream_fold(all.take(i as int + 1)) == stream_step(before, all.take(i as int + 1).last()));
                    assert(stream_fold(all.take(i as int + 1)).error == Some(message@));
                    lemma_fold_error_sticks(all, i as int + 1);
                    assert(all.take(n as int) =~= all);
                    assert(stream_fold(all).events == before.events);
                    assert(stream_failure(stream_fold(all)) == Some(message@));
                }
                return StreamAssembly { response: Err(stream_assembly_error(message)), events };
            },
        }
        i = i + 1;
    }
    let ghost f = stream_fold(all);
    proof {
        assert(all.take(n as int) =~= all);
        assert(all == stream_events@);
    }
    if !saw_done {
        return StreamAssembly {
            response: Err(stream_assembly_error(String::from_str("provider stream ended before done event"))),
            events,
        };
    }
    let mut calls: Vec<CanonicalContent> = Vec::new();
    let mut starts: Vec<StreamRuntimeEvent> = Vec::new();
    let mut j: usize = 0;
    while j < pending.len()
        invariant
            j <= pending.len(),
            all == stream_events@,
            f == stream_fold(all),
            pending_views(pending@) == f.pending,
            event_views(events@) == f.events,
            stream_failure(f) == first_pending_failure(f.pending, j as int),
            f.error is None,
            f.saw_done,
            calls.len() == j,
            starts.len() == j,
            forall|m: int|
                0 <= m < j ==> (is_assembled_call(#[trigger] content_views(calls@)[m], f.pending[m])),
            forall|m: int|
                0 <= m < j ==> (is_assembled_start(#[trigger] event_views(starts@)[m], f.pending[m])),
        decreases pending.len() - j,
    {
        let call = &pending[j];
        proof {
            assert(f.pending[j as int] == pending_view(*call));
        }
        let name = match &call.name {
            Some(name) => name.clone(),
            None => {
                let mut message = String::from_str("streamed tool call ");
                push_str(&mut message, call.id.as_str());
                push_str(&mut message, " is missing a name");
                proof {
                    assert(pending_failure(f.pending[j as int]) == Some(message@));
                    assert(first_pending_failure(f.pending, j as int) == Some(message@));
                    assert(all == stream_events@);
                }
                return StreamAssembly { response: Err(stream_assembly_error(message)), events };
            },
        };
        let arguments = if text_is_blank(call.arguments.as_str()) {
            empty_object()
        } else {
            match parse_json(call.arguments.as_str()) {
                Ok(value) => value,
                Err(parse_error) => {
                    let message = invalid_arguments_message(call.id.as_str(), parse_error);
                    proof {
                        assert(pending_failure(f.pending[j as int]) == Some(message@));
                        assert(first_pending_failure(f.pending, j as int) == Some(message@));
                        assert(all == stream_events@);
                    }
                    return StreamAssembly {
                        response: Err(stream_assembly_error(message)),
                        events,
                    };
                },
            }
        };
        proof {
            lemma_first_pending_failure_skip(f.pending, j as int);
        }
        let start = StreamRuntimeEvent::ToolCallStarted {
            call_id: call.id.clone(),
            name: name.clone(),
            input: duplicate_value(&arguments),
        };
        proof {
            assert(is_assembled_start(event_view(start), f.pending[j as int]));
        }
        let ghost old_starts = starts@;
        starts.push(start);
        let ghost old_calls = calls@;
        calls.push(CanonicalContent::ToolCall { id: call.id.clone(), name, arguments });
        proof {
            assert forall|m: int| 0 <= m < j + 1 implies (is_assembled_call(#[trigger] content_views(calls@)[m], f.pending[m])) by {
                if m < j {
                    assert(content_views(old_calls)[m] == content_views(calls@)[m]);
                } else {
                    assert(content_views(calls@)[m] == content_view(calls@[m]));
                }
            }
            assert forall|m: int| 0 <= m < j + 1 implies (is_assembled_start(#[trigger] event_views(starts@)[m], f.pending[m])) by {
                if m < j {
                    assert(event_views(old_starts)[m] == event_views(starts@)[m]);
                } else {
                    assert(event_views(starts@)[m] == event_view(starts@[m]));
                }
            }
        }
        j = j + 1;
    }
    let ghost body = content@;
    if !text.as_str().is_empty() {
        content.insert(0, CanonicalContent::Text { text });
    }
    proof {
        assert(content_views(content@) =~= assembled_prefix(f));
    }
    let ghost prefix_events = events@;
    let ghost prefix_content = content@;
    let ghost call_list = calls@;
    let ghost start_list = starts@;
    content.append(&mut calls);
    events.append(&mut starts);
    proof {
        assert(content_views(content@).take(prefix_content.len() as int) =~= content_views(prefix_content));
        assert(event_views(events@).take(prefix_events.len() as int) =~= event_views(prefix_events));
        assert forall|m: int| 0 <= m < f.pending.len() implies (is_assembled_call(#[trigger] content_views(content@)[prefix_content.len() + m], f.pending[m])) by {
            assert(content@[prefix_content.len() + m] == call_list[m]);
            assert(content_views(call_list)[m] == content_view(call_list[m]));
        }
        assert forall|m: int| 0 <= m < f.pending.len() implies (is_assembled_start(#[trigger] event_views(events@)[f.events.len() + m], f.pending[m])) by {
            assert(events@[prefix_events.len() + m] == start_list[m]);
            assert(event_views(start_list)[m] == event_view(start_list[m]));
        }
    }
    StreamAssembly {
        response: Ok(ProviderResponse { content, usage, stop_reason }),
        events,
    }
}

// ---------------------------------------------------------------------------
// Deltas of a complete response
// ---------------------------------------------------------------------------

/// The deltas that replay a complete content list: one text delta per
/// non-empty text block and one thinking delta per non-empty thinking block,
/// in order.
pub open spec fn replayed_deltas(content: Seq<CanonicalContent>) -> Seq<StreamEventView>
    decreases content.len(),
{
    if content.len() == 0 {
        Seq::empty()
    } else {
        replayed_deltas(content.drop_last()) + match content.last() {
            CanonicalContent::Text { text } => if text@.len() > 0 {
                seq![StreamEventView::TextDelta { text: text@ }]
            } else {
                Seq::empty()
            },
            CanonicalContent::Thinking { text } => if text@.len() > 0 {
                seq![StreamEventView::ThinkingDelta { text: text@ }]
            } else {
                Seq::empty()
            },
            _ => Seq::empty(),
        }
    }
}

/// The runtime events that announce a complete (non-streamed) response: the
/// deltas of an assistant message's content; nothing for other messages.
pub fn non_stream_content_events(message: &CanonicalMessage) -> (events: Vec<StreamRuntimeEvent>)
    ensures
        event_views(events@) == match *message {
            CanonicalMessage::Assistant { content, .. } => replayed_deltas(content@),
            _ => Seq::empty(),
        },
{
    let mut events: Vec<StreamRuntimeEvent> = Vec::new();
    match message {
        CanonicalMessage::Assistant { content, .. } => {
            let mut i: usize = 0;
            while i < content.len()
                invariant
                    i <= content.len(),
                    event_views(events@) == replayed_deltas(content@.take(i as int)),
                decreases content.len() - i,
            {
                let ghost before = events@;
                proof {
                    assert(content@.take(i as int + 1).drop_last() =~= content@.take(i as int));
                    assert(content@.take(i as int + 1).last() == content@[i as int]);
                }
                match &content[i] {
                    CanonicalContent::Text { text } => {
                        if !text.as_str().is_empty() {
                            events.push(StreamRuntimeEvent::TextDelta { text: text.clone() });
                            proof {
                                assert(event_views(events@) =~= event_views(before).push(
                                    StreamEventView::TextDelta { text: text@ },
                                ));
                            }
                        }
                    },
                    CanonicalContent::Thinking { text } => {
                        if !text.as_str().is_empty() {
                            events.push(StreamRuntimeEvent::ThinkingDelta { text: text.clone() });
                            proof {
                                assert(event_views(events@) =~= event_views(before).push(
                                    StreamEventView::ThinkingDelta { text: text@ },
                                ));
                            }
                        }
                    },
                    _ => {},
                }
                proof {
                    assert(event_views(events@) =~= replayed_deltas(content@.take(i as int + 1)));
                }
                i = i + 1;
            }
            proof {
                assert(content@.take(content.len() as int) =~= content@);
            }
        },
        _ => {
            proof {
                assert(event_views(events@) =~= Seq::<StreamEventView>::empty());
            }
        },
    }
    events
}

} // verus!
