//! The canonical session history that a turn is assembled from, and the
//! reordering that reattaches late tool results to the batch that issued them.

use vstd::prelude::*;
use crate::retry::ProviderApi;
use crate::json::duplicate_value;
use crate::text::{is_blank, join, push_str, text_is_blank};

verus! {

/// Token usage of a model response.
#[derive(Clone, Copy, Debug, PartialEq, Eq, Structural)]
pub struct CanonicalUsage {
    pub input_tokens: u64,
    pub output_tokens: u64,
    pub cache_creation_input_tokens: u64,
    pub cache_read_input_tokens: u64,
}

/// Why a model stopped producing output.
#[derive(Clone, Copy, Debug, PartialEq, Eq, Structural)]
pub enum CanonicalStopReason {
    EndTurn,
    ToolUse,
    MaxTokens,
    StopSequence,
}

/// One block of message content.
#[derive(Debug)]
pub enum CanonicalContent {
    Text { text: String },
    Thinking { text: String },
    Image { data: String },
    ToolCall { id: String, name: String, arguments: serde_json::Value },
}

/// A message of the canonical conversation.
#[derive(Debug)]
pub enum CanonicalMessage {
    User { content: Vec<CanonicalContent> },
    Assistant {
        provider: String,
        api: ProviderApi,
        model: String,
        content: Vec<CanonicalContent>,
        usage: CanonicalUsage,
        stop_reason: CanonicalStopReason,
    },
    ToolResult {
        tool_call_id: String,
        tool_name: String,
        content: Vec<CanonicalContent>,
        is_error: bool,
    },
}

/// What a session entry holds.
#[derive(Debug)]
pub enum SessionEntryKind {
    Message { message: CanonicalMessage },
    CustomContextMessage { message: CanonicalMessage },
    Compaction { summary: String },
}

/// One persisted entry of a session's history.
#[derive(Debug)]
pub struct SessionEntry {
    pub entry_id: String,
    pub turn_id: Option<String>,
    pub kind: SessionEntryKind,
}

// ---------------------------------------------------------------------------
// Reattaching late tool results
// ---------------------------------------------------------------------------

/// Number of tool-call blocks with id `id` in `content`.
pub open spec fn call_count_in(content: Seq<CanonicalContent>, id: Seq<char>) -> nat
    decreases content.len(),
{
    if content.len() == 0 {
        0
    } else {
        call_count_in(content.drop_last(), id) + match content.last() {
            CanonicalContent::ToolCall { id: call_id, .. } => if call_id@ == id { 1nat } else { 0nat },
            _ => 0nat,
        }
    }
}

/// Number of tool-call blocks with id `id` that an entry issues: those of an
/// assistant message entry.
pub open spec fn entry_call_count(entry: SessionEntry, id: Seq<char>) -> nat {
    match entry.kind {
        SessionEntryKind::Message { message: CanonicalMessage::Assistant { content, .. } } => {
            call_count_in(content@, id)
        },
        _ => 0,
    }
}

/// Number of tool-call blocks with id `id` issued by the first `k` entries.
pub open spec fn issued_count(entries: Seq<SessionEntry>, id: Seq<char>, k: int) -> nat
    decreases k,
{
    if k <= 0 {
        0
    } else {
        issued_count(entries, id, k - 1) + entry_call_count(entries[k - 1], id)
    }
}

/// The first entry at or after `from` that issues a call with id `id`.
pub open spec fn first_issuer_from(entries: Seq<SessionEntry>, id: Seq<char>, from: int) -> Option<
    int,
>
    decreases entries.len() - from,
{
    if from < 0 || from >= entries.len() {
        None
    } else if entry_call_count(entries[from], id) > 0 {
        Some(from)
    } else {
        first_issuer_from(entries, id, from + 1)
    }
}

/// The entry that issued tool call `id`, when exactly one tool-call block in
/// the whole history carries that id; ambiguous or unknown ids have none.
pub open spec fn issuer_of(entries: Seq<SessionEntry>, id: Seq<char>) -> Option<int> {
    if issued_count(entries, id, entries.len() as int) == 1 {
        first_issuer_from(entries, id, 0)
    } else {
        None
    }
}

/// The call id that a tool-result message entry answers.
pub open spec fn result_call_id(entry: SessionEntry) -> Option<Seq<char>> {
    match entry.kind {
        SessionEntryKind::Message {
            message: CanonicalMessage::ToolResult { tool_call_id, .. },
        } => Some(tool_call_id@),
        _ => None,
    }
}

/// A compaction entry.
pub open spec fn is_compaction(entry: SessionEntry) -> bool {
    entry.kind is Compaction
}

/// A turn input: a user message entry that belongs to a turn.
pub open spec fn is_turn_input(entry: SessionEntry) -> bool {
    entry.turn_id is Some && match entry.kind {
        SessionEntryKind::Message { message: CanonicalMessage::User { .. } } => true,
        _ => false,
    }
}

/// Whether some entry strictly between `i` and `r` is a compaction.
pub open spec fn compaction_between(entries: Seq<SessionEntry>, i: int, r: int) -> bool {
    exists|j: int| i < j < r && #[trigger] is_compaction(entries[j])
}

/// The first turn input in `[from, to)`.
pub open spec fn first_turn_input(entries: Seq<SessionEntry>, from: int, to: int) -> Option<int>
    decreases to - from,
{
    if from >= to {
        None
    } else if is_turn_input(entries[from]) {
        Some(from)
    } else {
        first_turn_input(entries, from + 1, to)
    }
}

/// Where the tool result at index `r` moves: before the first turn input
/// that came between its issuing assistant entry and the result, provided the
/// issuer is unambiguous, comes first, and no compaction lies in between.
pub open spec fn late_result_target(entries: Seq<SessionEntry>, r: int) -> Option<int> {
    match result_call_id(entries[r]) {
        Some(id) => match issuer_of(entries, id) {
            Some(i) => if i < r && !compaction_between(entries, i, r) {
                first_turn_input(entries, i + 1, r)
            } else {
                None
            },
            None => None,
        },
        None => None,
    }
}

/// The results among the first `upto` entries that move before entry `k`, in
/// their original order.
pub open spec fn moved_before(entries: Seq<SessionEntry>, k: int, upto: int) -> Seq<int>
    decreases upto,
{
    if upto <= 0 {
        Seq::empty()
    } else if late_result_target(entries, upto - 1) == Some(k) {
        moved_before(entries, k, upto - 1).push(upto - 1)
    } else {
        moved_before(entries, k, upto - 1)
    }
}

/// What stands at the place of entry `k` in the reordered history: the results
/// moved before it, then the entry itself unless it moved away.
pub open spec fn reattach_slot(entries: Seq<SessionEntry>, k: int) -> Seq<int> {
    moved_before(entries, k, entries.len() as int) + if late_result_target(entries, k) is None {
        seq![k]
    } else {
        Seq::empty()
    }
}

/// Indices of the reordered history built from the places of the first `k` entries.
pub open spec fn reattach_order_prefix(entries: Seq<SessionEntry>, k: int) -> Seq<int>
    decreases k,
{
    if k <= 0 {
        Seq::empty()
    } else {
        reattach_order_prefix(entries, k - 1) + reattach_slot(entries, k - 1)
    }
}

/// For each position of the reordered history, the index of the original
/// entry that stands there.
pub open spec fn reattach_order(entries: Seq<SessionEntry>) -> Seq<int> {
    reattach_order_prefix(entries, entries.len() as int)
}

/// The reordered history.
pub open spec fn reattached(entries: Seq<SessionEntry>) -> Seq<SessionEntry> {
    reattach_order(entries).map_values(|k: int| entries[k])
}

/// `order` lists every index below `n` exactly once.
pub open spec fn is_index_permutation(order: Seq<int>, n: int) -> bool {
    &&& order.no_duplicates()
    &&& forall|j: int| 0 <= j < order.len() ==> 0 <= #[trigger] order[j] < n
    &&& forall|k: int| 0 <= k < n ==> #[trigger] order.contains(k)
}


/// Moves the elements of `items` into a new vector in the order `order` names.
fn take_in_order<T>(items: Vec<T>, order: &Vec<usize>) -> (out: Vec<T>)
    requires
        order@.no_duplicates(),
        forall|j: int| 0 <= j < order.len() ==> #[trigger] order@[j] < items.len(),
    ensures
        out.len() == order.len(),
        forall|j: int| 0 <= j < order.len() ==> #[trigger] out@[j] == items@[order@[j] as int],
        out@ == order@.map_values(|k: usize| items@[k as int]),
{
    let n = items.len();
    let ghost original = items@;
    let mut items = items;
    let mut reversed: Vec<Option<T>> = Vec::new();
    while items.len() > 0
        invariant
            items.len() + reversed.len() == n,
            n == original.len(),
            forall|i: int| 0 <= i < items.len() ==> items@[i] == original[i],
            forall|i: int| 0 <= i < reversed.len() ==> #[trigger] reversed@[i] == Some(original[n - 1 - i]),
        decreases items.len(),
    {
        let item = items.pop().unwrap();
        reversed.push(Some(item));
    }
    let mut out: Vec<T> = Vec::new();
    let mut j: usize = 0;
    while j < order.len()
        invariant
            j <= order.len(),
            reversed.len() == n,
            n == original.len(),
            out.len() == j,
            order@.no_duplicates(),
            forall|m: int| 0 <= m < order.len() ==> #[trigger] order@[m] < n,
            forall|m: int| 0 <= m < j ==> #[trigger] out@[m] == original[order@[m] as int],
            forall|i: int| 0 <= i < n ==> (#[trigger] reversed@[n - 1 - i] == Some(original[i])
                || exists|m: int| 0 <= m < j && order@[m] == i),
        decreases order.len() - j,
    {
        let k = order[j];
        let slot = n - 1 - k;
        proof {
            assert forall|m: int| 0 <= m < j implies order@[m] != k by {
                assert(order@[m] != order@[j as int]);
            }
            assert(reversed@[n - 1 - k as int] == Some(original[k as int]));
        }
        let mut taken: Option<T> = None;
        std::mem::swap(&mut taken, &mut reversed[slot]);
        match taken {
            Some(item) => {
                out.push(item);
            },
            None => {},
        }
        j = j + 1;
    }
    assert(out@ == order@.map_values(|k: usize| original[k as int]));
    out
}


/// Number of tool-call blocks with id `id` in `content`.
fn count_calls(content: &Vec<CanonicalContent>, id: &String) -> (count: usize)
    ensures
        count == call_count_in(content@, id@),
{
    let mut count: usize = 0;
    let mut i: usize = 0;
    while i < content.len()
        invariant
            i <= content.len(),
            count <= i,
            count == call_count_in(content@.take(i as int), id@),
        decreases content.len() - i,
    {
        assert(content@.take(i as int + 1).drop_last() == content@.take(i as int));
        match &content[i] {
            CanonicalContent::ToolCall { id: call_id, .. } => {
                if *call_id == *id {
                    count = count + 1;
                }
            },
            _ => {},
        }
        i = i + 1;
    }
    assert(content@.take(content.len() as int) == content@);
    count
}

/// Number of tool-call blocks with id `id` that `entry` issues.
fn entry_calls(entry: &SessionEntry, id: &String) -> (count: usize)
    ensures
        count == entry_call_count(*entry, id@),
{
    match &entry.kind {
        SessionEntryKind::Message { message: CanonicalMessage::Assistant { content, .. } } => {
            count_calls(content, id)
        },
        _ => 0,
    }
}

proof fn lemma_first_issuer_step(entries: Seq<SessionEntry>, id: Seq<char>, k: int)
    requires
        0 <= k < entries.len(),
    ensures
        entry_call_count(entries[k], id) > 0 ==> first_issuer_from(entries, id, k) == Some(k),
        entry_call_count(entries[k], id) == 0 ==> first_issuer_from(entries, id, k)
            == first_issuer_from(entries, id, k + 1),
{
}

/// The unique issuer of tool call `id`, if there is one.
fn find_issuer(entries: &Vec<SessionEntry>, id: &String) -> (issuer: Option<usize>)
    ensures
        match issuer {
            Some(i) => issuer_of(entries@, id@) == Some(i as int),
            None => issuer_of(entries@, id@) is None,
        },
{
    let mut total: usize = 0;
    let mut first: Option<usize> = None;
    let mut k: usize = 0;
    while k < entries.len()
        invariant
            k <= entries.len(),
            total <= 2,
            total as int == min_count(issued_count(entries@, id@, k as int)),
            match first {
                Some(f) => f < k && first_issuer_from(entries@, id@, 0) == Some(f as int),
                None => first_issuer_from(entries@, id@, 0) == first_issuer_from(
                    entries@,
                    id@,
                    k as int,
                ),
            },
        decreases entries.len() - k,
    {
        let c = entry_calls(&entries[k], id);
        proof {
            lemma_first_issuer_step(entries@, id@, k as int);
        }
        if c > 0 && first.is_none() {
            first = Some(k);
        }
        if c >= 2 || total + c >= 2 {
            total = 2;
        } else {
            total = total + c;
        }
        k = k + 1;
    }
    if total == 1 {
        first
    } else {
        None
    }
}

/// `n` capped at two.
pub open spec fn min_count(n: nat) -> int {
    if n >= 2 { 2 } else { n as int }
}

/// The call id answered by a tool-result message entry.
fn entry_result_id(entry: &SessionEntry) -> (id: Option<&String>)
    ensures
        match id {
            Some(s) => result_call_id(*entry) == Some(s@),
            None => result_call_id(*entry) is None,
        },
{
    match &entry.kind {
        SessionEntryKind::Message { message: CanonicalMessage::ToolResult { tool_call_id, .. } } => {
            Some(tool_call_id)
        },
        _ => None,
    }
}

fn entry_is_compaction(entry: &SessionEntry) -> (b: bool)
    ensures
        b == is_compaction(*entry),
{
    match &entry.kind {
        SessionEntryKind::Compaction { .. } => true,
        _ => false,
    }
}

fn entry_is_turn_input(entry: &SessionEntry) -> (b: bool)
    ensures
        b == is_turn_input(*entry),
{
    if entry.turn_id.is_none() {
        return false;
    }
    match &entry.kind {
        SessionEntryKind::Message { message: CanonicalMessage::User { .. } } => true,
        _ => false,
    }
}

/// Where the tool result at index `r` moves, if it is late.
fn late_target(entries: &Vec<SessionEntry>, r: usize) -> (target: Option<usize>)
    requires
        r < entries.len(),
    ensures
        match target {
            Some(t) => late_result_target(entries@, r as int) == Some(t as int) && t < r,
            None => late_result_target(entries@, r as int) is None,
        },
{
    let id = match entry_result_id(&entries[r]) {
        Some(id) => id,
        None => return None,
    };
    let issuer = match find_issuer(entries, id) {
        Some(i) => i,
        None => return None,
    };
    if issuer >= r {
        return None;
    }
    let mut found: Option<usize> = None;
    let mut j: usize = issuer + 1;
    while j < r
        invariant
            issuer < j <= r,
            r < entries.len(),
            result_call_id(entries@[r as int]) == Some(id@),
            issuer_of(entries@, id@) == Some(issuer as int),
            forall|m: int| issuer < m < j ==> !#[trigger] is_compaction(entries@[m]),
            match found {
                Some(t) => issuer < t < r && first_turn_input(entries@, issuer + 1, r as int)
                    == Some(t as int),
                None => first_turn_input(entries@, issuer + 1, r as int) == first_turn_input(
                    entries@,
                    j as int,
                    r as int,
                ),
            },
        decreases r - j,
    {
        if entry_is_compaction(&entries[j]) {
            assert(is_compaction(entries@[j as int]));
            return None;
        }
        if found.is_none() && entry_is_turn_input(&entries[j]) {
            found = Some(j);
        }
        j = j + 1;
    }
    proof {
        lemma_first_turn_input_range(entries@, issuer + 1, r as int);
    }
    found
}

proof fn lemma_first_turn_input_range(entries: Seq<SessionEntry>, from: int, to: int)
    ensures
        first_turn_input(entries, from, to) matches Some(t) ==> from <= t < to,
    decreases to - from,
{
    if from < to {
        lemma_first_turn_input_range(entries, from + 1, to);
    }
}

proof fn lemma_first_issuer_range(entries: Seq<SessionEntry>, id: Seq<char>, from: int)
    ensures
        first_issuer_from(entries, id, from) matches Some(i) ==> 0 <= from <= i < entries.len(),
    decreases entries.len() - from,
{
    if 0 <= from < entries.len() {
        lemma_first_issuer_range(entries, id, from + 1);
    }
}

/// A late result moves to a non-negative index.
proof fn lemma_target_non_negative(entries: Seq<SessionEntry>, r: int)
    ensures
        late_result_target(entries, r) matches Some(t) ==> 0 <= t,
{
    if let Some(id) = result_call_id(entries[r]) {
        lemma_first_issuer_range(entries, id, 0);
        if let Some(i) = issuer_of(entries, id) {
            lemma_first_turn_input_range(entries, i + 1, r);
        }
    }
}

proof fn lemma_target_below(entries: Seq<SessionEntry>, r: int)
    ensures
        late_result_target(entries, r) matches Some(t) ==> t < r,
{
    if let Some(id) = result_call_id(entries[r]) {
        if let Some(i) = issuer_of(entries, id) {
            lemma_first_turn_input_range(entries, i + 1, r);
        }
    }
}

/// The place of index `x` in the reordered history: the entry it moves
/// before, or its own index.
pub open spec fn reattach_anchor(entries: Seq<SessionEntry>, x: int) -> int {
    match late_result_target(entries, x) {
        Some(t) => t,
        None => x,
    }
}

/// Moves every tool result that was persisted after a later turn's input back
/// before that input, so that each result follows the assistant batch that
/// issued it in the assembled context.
///
/// A result moves only when exactly one tool-call block in the history carries
/// its call id, that block's entry precedes the result, no compaction lies in
/// between, and a turn input lies in between; it then goes right before the
/// first such turn input, after any result that moved there earlier. Every
/// other entry keeps its relative place.
pub fn reattach_late_tool_result_entries(entries: Vec<SessionEntry>) -> (out: Vec<SessionEntry>)
    ensures
        out@ == reattached(entries@),
        is_index_permutation(reattach_order(entries@), entries.len() as int),
        (forall|r: int| 0 <= r < entries.len() ==> late_result_target(entries@, r) is None)
            ==> out@ == entries@,
{
    let n = entries.len();
    let ghost es = entries@;
    let mut targets: Vec<Option<usize>> = Vec::new();
    let mut r: usize = 0;
    while r < n
        invariant
            r <= n,
            n == entries.len(),
            es == entries@,
            targets.len() == r,
            forall|x: int| 0 <= x < r ==> match #[trigger] targets@[x] {
                Some(t) => late_result_target(es, x) == Some(t as int) && t < x,
                None => late_result_target(es, x) is None,
            },
        decreases n - r,
    {
        let t = late_target(&entries, r);
        targets.push(t);
        r = r + 1;
    }
    proof {
        assert forall|x: int| 0 <= x < n implies 0 <= #[trigger] reattach_anchor(es, x) <= x by {
            assert(targets@[x] == targets@[x]);
            lemma_target_non_negative(es, x);
        }
    }
    let mut order: Vec<usize> = Vec::new();
    let ghost mut g: Seq<int> = Seq::empty();
    let mut k: usize = 0;
    while k < n
        invariant
            k <= n,
            n == es.len(),
            targets.len() == n,
            forall|x: int| 0 <= x < n ==> match #[trigger] targets@[x] {
                Some(t) => late_result_target(es, x) == Some(t as int) && t < x,
                None => late_result_target(es, x) is None,
            },
            forall|x: int| 0 <= x < n ==> 0 <= #[trigger] reattach_anchor(es, x) <= x,
            order.len() == g.len(),
            forall|j: int| 0 <= j < g.len() ==> #[trigger] order@[j] as int == g[j],
            g == reattach_order_prefix(es, k as int),
            g.no_duplicates(),
            forall|j: int| 0 <= j < g.len() ==> 0 <= #[trigger] g[j] < n && reattach_anchor(
                es,
                g[j],
            ) < k,
            forall|x: int| 0 <= x < n && reattach_anchor(es, x) < k ==> #[trigger] g.contains(x),
            (forall|x: int| 0 <= x < n ==> late_result_target(es, x) is None) ==> g =~= Seq::new(
                k as nat,
                |i: int| i,
            ),
        decreases n - k,
    {
        let ghost g_before = g;
        let mut r: usize = 0;
        while r < n
            invariant
                r <= n,
                k < n,
                n == es.len(),
                targets.len() == n,
                forall|x: int| 0 <= x < n ==> match #[trigger] targets@[x] {
                    Some(t) => late_result_target(es, x) == Some(t as int) && t < x,
                    None => late_result_target(es, x) is None,
                },
                forall|x: int| 0 <= x < n ==> 0 <= #[trigger] reattach_anchor(es, x) <= x,
                order.len() == g.len(),
                forall|j: int| 0 <= j < g.len() ==> #[trigger] order@[j] as int == g[j],
                g == g_before + moved_before(es, k as int, r as int),
                g_before == reattach_order_prefix(es, k as int),
                g_before.no_duplicates(),
                forall|j: int| 0 <= j < g_before.len() ==> 0 <= #[trigger] g_before[j] < n
                    && reattach_anchor(es, g_before[j]) < k,
                forall|x: int| 0 <= x < n && reattach_anchor(es, x) < k ==> #[trigger] g_before.contains(x),
                g.no_duplicates(),
                forall|j: int| 0 <= j < g.len() ==> 0 <= #[trigger] g[j] < n && (reattach_anchor(
                    es,
                    g[j],
                ) < k || (late_result_target(es, g[j]) == Some(k as int) && g[j] < r)),
                forall|x: int| 0 <= x < n && (reattach_anchor(es, x) < k || (late_result_target(es, x) == Some(k as int) && x < r)) ==> #[trigger] g.contains(x),
                (forall|x: int| 0 <= x < n ==> late_result_target(es, x) is None) ==> g == g_before,
            decreases n - r,
        {
            let ghost g_old = g;
            if targets[r] == Some(k) {
                proof {
                    assert forall|j: int| 0 <= j < g.len() implies g[j] != r by {}
                    g = g.push(r as int);
                }
                order.push(r);
            }
            proof {
                assert(targets@[r as int] == targets@[r as int]);
                assert forall|x: int|
                    0 <= x < n && (reattach_anchor(es, x) < k || (late_result_target(es, x) == Some(
                        k as int,
                    ) && x < r + 1)) implies #[trigger] g.contains(x) by {
                    if late_result_target(es, x) == Some(k as int) && x == r {
                        assert(g[g.len() - 1] == x);
                    } else {
                        assert(g_old.contains(x));
                        let i = choose|i: int| 0 <= i < g_old.len() && g_old[i] == x;
                        assert(g[i] == x);
                    }
                }
            }
            r = r + 1;
        }
        let ghost g_moved = g;
        if targets[k].is_none() {
            proof {
                assert forall|j: int| 0 <= j < g.len() implies g[j] != k by {}
                g = g.push(k as int);
            }
            order.push(k);
        }
        proof {
            assert(targets@[k as int] == targets@[k as int]);
            assert(g == reattach_order_prefix(es, k as int + 1));
            assert forall|x: int| 0 <= x < n && reattach_anchor(es, x) < k + 1 implies #[trigger] g.contains(
                x,
            ) by {
                if reattach_anchor(es, x) < k || late_result_target(es, x) == Some(k as int) {
                    assert(g_moved.contains(x));
                    let i = choose|i: int| 0 <= i < g_moved.len() && g_moved[i] == x;
                    assert(g[i] == x);
                } else {
                    assert(x == k);
                    assert(g[g.len() - 1] == x);
                }
            }
        }
        k = k + 1;
    }
    proof {
        assert forall|x: int| 0 <= x < n implies reattach_anchor(es, x) < n by {
            assert(0 <= reattach_anchor(es, x) <= x);
        }
    }
    let out = take_in_order(entries, &order);
    proof {
        assert(g == reattach_order(es));
        assert(out@ =~= reattached(es));
    }
    out
}

// ---------------------------------------------------------------------------
// Reattaching twice
// ---------------------------------------------------------------------------

proof fn lemma_first_issuer_found(entries: Seq<SessionEntry>, id: Seq<char>, from: int)
    ensures
        first_issuer_from(entries, id, from) matches Some(i) ==> 0 <= from <= i < entries.len()
            && entry_call_count(entries[i], id) > 0,
    decreases entries.len() - from,
{
    if 0 <= from < entries.len() {
        lemma_first_issuer_found(entries, id, from + 1);
    }
}

proof fn lemma_first_issuer_exists(entries: Seq<SessionEntry>, id: Seq<char>, from: int, j: int)
    requires
        0 <= from <= j < entries.len(),
        entry_call_count(entries[j], id) > 0,
    ensures
        first_issuer_from(entries, id, from) is Some,
    decreases j - from,
{
    if from < j {
        lemma_first_issuer_exists(entries, id, from + 1, j);
    }
}

proof fn lemma_first_turn_input_props(entries: Seq<SessionEntry>, from: int, to: int)
    ensures
        first_turn_input(entries, from, to) matches Some(t) ==> {
            &&& from <= t < to
            &&& is_turn_input(entries[t])
            &&& forall|c: int| from <= c < t ==> !is_turn_input(#[trigger] entries[c])
        },
        first_turn_input(entries, from, to) is None ==> forall|c: int|
            from <= c < to ==> !is_turn_input(#[trigger] entries[c]),
    decreases to - from,
{
    if from < to {
        lemma_first_turn_input_props(entries, from + 1, to);
    }
}

proof fn lemma_issued_count_at_least_one(s: Seq<SessionEntry>, id: Seq<char>, k: int, a: int)
    requires
        0 <= a < k,
    ensures
        issued_count(s, id, k) >= entry_call_count(s[a], id),
    decreases k,
{
    if a < k - 1 {
        lemma_issued_count_at_least_one(s, id, k - 1, a);
    }
}

proof fn lemma_issued_count_at_least_two(s: Seq<SessionEntry>, id: Seq<char>, k: int, a: int, b: int)
    requires
        0 <= a < b < k,
    ensures
        issued_count(s, id, k) >= entry_call_count(s[a], id) + entry_call_count(s[b], id),
    decreases k,
{
    if b < k - 1 {
        lemma_issued_count_at_least_two(s, id, k - 1, a, b);
    } else {
        lemma_issued_count_at_least_one(s, id, k - 1, a);
    }
}

proof fn lemma_issued_count_only(s: Seq<SessionEntry>, id: Seq<char>, k: int, a: int)
    requires
        0 <= a < k,
        forall|c: int| 0 <= c < k && c != a ==> entry_call_count(#[trigger] s[c], id) == 0,
    ensures
        issued_count(s, id, k) == entry_call_count(s[a], id),
    decreases k,
{
    if a < k - 1 {
        lemma_issued_count_only(s, id, k - 1, a);
    } else {
        lemma_issued_count_zero(s, id, k - 1);
    }
}

proof fn lemma_issued_count_zero(s: Seq<SessionEntry>, id: Seq<char>, k: int)
    requires
        forall|c: int| 0 <= c < k ==> entry_call_count(#[trigger] s[c], id) == 0,
    ensures
        issued_count(s, id, k) == 0,
    decreases k,
{
    if k > 0 {
        lemma_issued_count_zero(s, id, k - 1);
    }
}

/// Whether index `u` stands before index `v` in the reordered history: an
/// earlier place, or the same place with `u` a moved result that is earlier
/// than `v` or that `v` (the entry of that place) follows.
pub open spec fn placed_before(entries: Seq<SessionEntry>, u: int, v: int) -> bool {
    ||| reattach_anchor(entries, u) < reattach_anchor(entries, v)
    ||| (reattach_anchor(entries, u) == reattach_anchor(entries, v) && late_result_target(entries, u) is Some && (
    late_result_target(entries, v) is None || u < v))
}

proof fn lemma_moved_before_props(entries: Seq<SessionEntry>, k: int, upto: int)
    ensures
        forall|i: int|
            0 <= i < moved_before(entries, k, upto).len() ==> 0 <= #[trigger] moved_before(entries, k, upto)[i] < upto
                && late_result_target(entries, moved_before(entries, k, upto)[i]) == Some(k),
        forall|i: int, j: int|
            0 <= i < j < moved_before(entries, k, upto).len() ==> #[trigger] moved_before(entries, k, upto)[i]
                < #[trigger] moved_before(entries, k, upto)[j],
        forall|x: int|
            0 <= x < upto && late_result_target(entries, x) == Some(k) ==> #[trigger] moved_before(
                entries,
                k,
                upto,
            ).contains(x),
    decreases upto,
{
    if upto > 0 {
        lemma_moved_before_props(entries, k, upto - 1);
        let prev = moved_before(entries, k, upto - 1);
        let m = moved_before(entries, k, upto);
        assert forall|x: int| 0 <= x < upto && late_result_target(entries, x) == Some(k) implies #[trigger] m.contains(
            x,
        ) by {
            if x < upto - 1 {
                assert(prev.contains(x));
                let i = choose|i: int| 0 <= i < prev.len() && prev[i] == x;
                assert(m[i] == x);
            } else {
                assert(m[m.len() - 1] == x);
            }
        }
    }
}

proof fn lemma_order_prefix_props(entries: Seq<SessionEntry>, k: int)
    requires
        0 <= k <= entries.len(),
    ensures
        forall|i: int|
            0 <= i < reattach_order_prefix(entries, k).len() ==> 0 <= #[trigger] reattach_order_prefix(entries, k)[i]
                < entries.len() && reattach_anchor(entries, reattach_order_prefix(entries, k)[i]) < k,
        forall|i: int, j: int|
            0 <= i < j < reattach_order_prefix(entries, k).len() ==> placed_before(
                entries,
                #[trigger] reattach_order_prefix(entries, k)[i],
                #[trigger] reattach_order_prefix(entries, k)[j],
            ),
        forall|x: int|
            0 <= x < entries.len() && reattach_anchor(entries, x) < k ==> #[trigger] reattach_order_prefix(
                entries,
                k,
            ).contains(x),
    decreases k,
{
    if k > 0 {
        let n = entries.len() as int;
        lemma_order_prefix_props(entries, k - 1);
        lemma_moved_before_props(entries, k - 1, n);
        let prev = reattach_order_prefix(entries, k - 1);
        let mv = moved_before(entries, k - 1, n);
        let slot = reattach_slot(entries, k - 1);
        let g = reattach_order_prefix(entries, k);
        assert(g == prev + slot);
        assert forall|i: int| 0 <= i < slot.len() implies 0 <= #[trigger] slot[i] < n && reattach_anchor(
            entries,
            slot[i],
        ) == k - 1 by {
            if i < mv.len() {
                assert(slot[i] == mv[i]);
            }
        }
        assert forall|i: int| 0 <= i < g.len() implies 0 <= #[trigger] g[i] < n && reattach_anchor(entries, g[i])
            < k by {
            if i >= prev.len() {
                assert(g[i] == slot[i - prev.len()]);
            }
        }
        assert forall|i: int, j: int| 0 <= i < j < g.len() implies placed_before(
            entries,
            #[trigger] g[i],
            #[trigger] g[j],
        ) by {
            if j < prev.len() {
                assert(placed_before(entries, prev[i], prev[j]));
            } else if i < prev.len() {
                assert(g[j] == slot[j - prev.len()]);
            } else {
                let a = i - prev.len();
                let b = j - prev.len();
                assert(g[i] == slot[a]);
                assert(g[j] == slot[b]);
                if b < mv.len() {
                    assert(slot[a] == mv[a]);
                    assert(slot[b] == mv[b]);
                    assert(mv[a] < mv[b]);
                } else {
                    assert(slot[a] == mv[a]);
                }
            }
        }
        assert forall|x: int| 0 <= x < n && reattach_anchor(entries, x) < k implies #[trigger] g.contains(x) by {
            lemma_target_non_negative(entries, x);
            if reattach_anchor(entries, x) < k - 1 {
                assert(prev.contains(x));
                let i = choose|i: int| 0 <= i < prev.len() && prev[i] == x;
                assert(g[i] == x);
            } else if late_result_target(entries, x) is Some {
                assert(mv.contains(x));
                let i = choose|i: int| 0 <= i < mv.len() && mv[i] == x;
                assert(g[prev.len() + i] == x);
            } else {
                assert(x == k - 1);
                assert(g[g.len() - 1] == x);
            }
        }
    } else {
        assert forall|x: int| 0 <= x < entries.len() implies reattach_anchor(entries, x) >= 0 by {
            lemma_target_non_negative(entries, x);
        }
    }
}

proof fn lemma_no_moves_keep_the_order(entries: Seq<SessionEntry>, k: int)
    requires
        0 <= k <= entries.len(),
        forall|x: int| 0 <= x < entries.len() ==> #[trigger] late_result_target(entries, x) is None,
    ensures
        reattach_order_prefix(entries, k) =~= Seq::new(k as nat, |i: int| i),
    decreases k,
{
    if k > 0 {
        lemma_no_moves_keep_the_order(entries, k - 1);
        lemma_moved_before_props(entries, k - 1, entries.len() as int);
        let mv = moved_before(entries, k - 1, entries.len() as int);
        if mv.len() > 0 {
            assert(late_result_target(entries, mv[0]) is None);
        }
        assert(mv =~= Seq::<int>::empty());
    }
}

/// A history without late results is left as it is.
proof fn lemma_no_late_results_fixpoint(entries: Seq<SessionEntry>)
    requires
        forall|x: int| 0 <= x < entries.len() ==> #[trigger] late_result_target(entries, x) is None,
    ensures
        reattached(entries) == entries,
{
    lemma_no_moves_keep_the_order(entries, entries.len() as int);
    assert(reattached(entries) =~= entries);
}

/// No result of a reattached history is late any more.
proof fn lemma_reattached_has_no_late_result(entries: Seq<SessionEntry>, x: int)
    requires
        0 <= x < reattached(entries).len(),
    ensures
        late_result_target(reattached(entries), x) is None,
{
    let n = entries.len() as int;
    let o = reattach_order(entries);
    let rs = reattached(entries);
    lemma_order_prefix_props(entries, n);
    let r = o[x];
    assert(rs[x] == entries[r]);
    if let Some(id) = result_call_id(rs[x]) {
        if let Some(ip) = issuer_of(rs, id) {
            lemma_first_issuer_found(rs, id, 0);
            if ip < x && !compaction_between(rs, ip, x) {
                lemma_first_turn_input_props(rs, ip + 1, x);
                if let Some(p) = first_turn_input(rs, ip + 1, x) {
                    let j = o[ip];
                    let c = o[p];
                    assert(rs[ip] == entries[j]);
                    assert(rs[p] == entries[c]);
                    assert(entry_call_count(entries[j], id) > 0);
                    assert(result_call_id(entries[j]) is None);
                    assert(result_call_id(entries[c]) is None);
                    assert(placed_before(entries, o[ip], o[p]));
                    assert(placed_before(entries, o[p], o[x]));
                    assert(j < c);
                    assert(c < reattach_anchor(entries, r));
                    assert(result_call_id(entries[r]) == Some(id));
                    lemma_first_issuer_found(entries, id, 0);
                    match late_result_target(entries, r) {
                        Some(t) => {
                            let i = issuer_of(entries, id)->Some_0;
                            if i != j {
                                if i < j {
                                    lemma_issued_count_at_least_two(entries, id, n, i, j);
                                } else {
                                    lemma_issued_count_at_least_two(entries, id, n, j, i);
                                }
                            }
                            lemma_first_turn_input_props(entries, i + 1, r);
                            assert(is_turn_input(entries[c]));
                        },
                        None => {
                            match issuer_of(entries, id) {
                                Some(i) => {
                                    if i != j {
                                        if i < j {
                                            lemma_issued_count_at_least_two(entries, id, n, i, j);
                                        } else {
                                            lemma_issued_count_at_least_two(entries, id, n, j, i);
                                        }
                                    }
                                    lemma_first_turn_input_props(entries, j + 1, r);
                                    if compaction_between(entries, j, r) {
                                        let m = choose|m: int| j < m < r && #[trigger] is_compaction(entries[m]);
                                        assert(result_call_id(entries[m]) is None);
                                        assert(reattach_anchor(entries, m) == m);
                                        assert(o.contains(m));
                                        let q = choose|q: int| 0 <= q < o.len() && o[q] == m;
                                        if q < ip {
                                            assert(placed_before(entries, o[q], o[ip]));
                                        } else if q > x {
                                            assert(placed_before(entries, o[x], o[q]));
                                        }
                                        assert(rs[q] == entries[m]);
                                        assert(is_compaction(rs[q]));
                                    } else {
                                        assert(!is_turn_input(entries[c]));
                                    }
                                },
                                None => {
                                    lemma_issued_count_at_least_one(entries, id, n, j);
                                    lemma_issued_count_at_least_one(rs, id, rs.len() as int, ip);
                                    if entry_call_count(entries[j], id) == 1 {
                                        if forall|k: int| 0 <= k < n && k != j ==> entry_call_count(#[trigger] entries[k], id) == 0 {
                                            lemma_issued_count_only(entries, id, n, j);
                                            lemma_first_issuer_exists(entries, id, 0, j);
                                        } else {
                                            let k = choose|k: int| 0 <= k < n && k != j && entry_call_count(#[trigger] entries[k], id) != 0;
                                            assert(result_call_id(entries[k]) is None);
                                            assert(reattach_anchor(entries, k) == k);
                                            assert(o.contains(k));
                                            let q = choose|q: int| 0 <= q < o.len() && o[q] == k;
                                            assert(rs[q] == entries[k]);
                                            if q < ip {
                                                lemma_issued_count_at_least_two(rs, id, rs.len() as int, q, ip);
                                            } else {
                                                lemma_issued_count_at_least_two(rs, id, rs.len() as int, ip, q);
                                            }
                                        }
                                    }
                                },
                            }
                        },
                    }
                }
            }
        }
    }
}

/// Reattaching only reorders the history: each entry of the result is an
/// entry of the history, and each entry of the history is in the result.
pub proof fn lemma_reattaching_keeps_the_entries(entries: Seq<SessionEntry>)
    ensures
        forall|p: int|
            0 <= p < reattached(entries).len() ==> exists|k: int|
                0 <= k < entries.len() && #[trigger] reattached(entries)[p] == entries[k],
        forall|k: int| 0 <= k < entries.len() ==> reattached(entries).contains(#[trigger] entries[k]),
{
    let n = entries.len() as int;
    let o = reattach_order(entries);
    let rs = reattached(entries);
    lemma_order_prefix_props(entries, n);
    assert forall|p: int| 0 <= p < rs.len() implies exists|k: int| 0 <= k < n && #[trigger] rs[p] == entries[k] by {
        assert(rs[p] == entries[o[p]]);
    }
    assert forall|k: int| 0 <= k < n implies rs.contains(#[trigger] entries[k]) by {
        lemma_target_non_negative(entries, k);
        lemma_target_below(entries, k);
        assert(o.contains(k));
        let q = choose|q: int| 0 <= q < o.len() && o[q] == k;
        assert(rs[q] == entries[k]);
    }
}

/// Reattaching is idempotent: once late tool results are reattached, none is
/// late any more, so reattaching the history again changes nothing.
pub proof fn lemma_reattaching_twice_changes_nothing(entries: Seq<SessionEntry>)
    ensures
        reattached(reattached(entries)) == reattached(entries),
{
    assert forall|x: int| 0 <= x < reattached(entries).len() implies #[trigger] late_result_target(
        reattached(entries),
        x,
    ) is None by {
        lemma_reattached_has_no_late_result(entries, x);
    }
    lemma_no_late_results_fixpoint(reattached(entries));
}

// ---------------------------------------------------------------------------
// Text projections
// ---------------------------------------------------------------------------

/// The texts of the text blocks (and, with `with_thinking`, the thinking
/// blocks) of `content`, in order.
pub open spec fn block_texts(content: Seq<CanonicalContent>, with_thinking: bool) -> Seq<Seq<char>>
    decreases content.len(),
{
    if content.len() == 0 {
        Seq::empty()
    } else {
        block_texts(content.drop_last(), with_thinking) + match content.last() {
            CanonicalContent::Text { text } => seq![text@],
            CanonicalContent::Thinking { text } => if with_thinking {
                seq![text@]
            } else {
                Seq::empty()
            },
            _ => Seq::empty(),
        }
    }
}

/// Joins the texts of `content` with `separator`.
pub fn join_block_texts(content: &Vec<CanonicalContent>, with_thinking: bool, separator: &str) -> (joined: String)
    ensures
        joined@ == join(block_texts(content@, with_thinking), separator@),
{
    let mut joined = String::new();
    let ghost mut pieces: Seq<Seq<char>> = Seq::empty();
    let mut any = false;
    let mut i: usize = 0;
    while i < content.len()
        invariant
            i <= content.len(),
            any == (pieces.len() > 0),
            pieces == block_texts(content@.take(i as int), with_thinking),
            joined@ == join(pieces, separator@),
        decreases content.len() - i,
    {
        proof {
            assert(content@.take(i as int + 1).drop_last() =~= content@.take(i as int));
        }
        let piece: Option<&String> = match &content[i] {
            CanonicalContent::Text { text } => Some(text),
            CanonicalContent::Thinking { text } => if with_thinking { Some(text) } else { None },
            _ => None,
        };
        match piece {
            Some(text) => {
                if any {
                    push_str(&mut joined, separator);
                }
                push_str(&mut joined, text.as_str());
                any = true;
                proof {
                    let next = pieces.push(text@);
                    assert(next.drop_last() =~= pieces);
                    pieces = next;
                }
            },
            None => {},
        }
        proof {
            assert(block_texts(content@.take(i as int + 1), with_thinking) =~= pieces);
        }
        i = i + 1;
    }
    proof {
        assert(content@.take(content.len() as int) =~= content@);
    }
    joined
}

/// The text of a response's content: text and thinking blocks, concatenated.
pub fn response_content_text(content: &Vec<CanonicalContent>) -> (text: String)
    ensures
        text@ == join(block_texts(content@, true), Seq::empty()),
{
    proof {
        reveal_strlit("");
        assert(""@ =~= Seq::<char>::empty());
    }
    join_block_texts(content, true, "")
}

/// The user-visible text of content: its text blocks, one per line.
pub open spec fn text_projection(content: Seq<CanonicalContent>) -> Seq<char> {
    join(block_texts(content, false), seq!['\n'])
}

/// The user-visible text of content: its text blocks, one per line.
pub fn canonical_content_text_projection(content: &Vec<CanonicalContent>) -> (text: String)
    ensures
        text@ == text_projection(content@),
{
    proof {
        reveal_strlit("\n");
        assert("\n"@ =~= seq!['\n']);
    }
    join_block_texts(content, false, "\n")
}

/// The output text of a message: the text blocks of an assistant message or a
/// tool result, concatenated; nothing for a user message.
pub open spec fn message_text(message: CanonicalMessage) -> Seq<char> {
    match message {
        CanonicalMessage::Assistant { content, .. } => join(block_texts(content@, false), Seq::empty()),
        CanonicalMessage::ToolResult { content, .. } => join(block_texts(content@, false), Seq::empty()),
        CanonicalMessage::User { .. } => Seq::empty(),
    }
}

/// The output text of a message.
pub fn text_from_message(message: &CanonicalMessage) -> (text: String)
    ensures
        text@ == message_text(*message),
{
    proof {
        reveal_strlit("");
        assert(""@ =~= Seq::<char>::empty());
    }
    match message {
        CanonicalMessage::Assistant { content, .. } => join_block_texts(content, false, ""),
        CanonicalMessage::ToolResult { content, .. } => join_block_texts(content, false, ""),
        CanonicalMessage::User { .. } => String::new(),
    }
}

/// The hook context that delivers a steering input to the active turn, unless
/// the input is blank.
pub open spec fn steering_text(turn_id: Seq<char>, text: Seq<char>) -> Option<Seq<char>> {
    if is_blank(text) {
        None
    } else {
        Some("Additional user steering for active turn "@ + turn_id + ":\n"@ + text)
    }
}

/// Frames a steering input for the active turn.
pub fn steering_context(turn_id: &str, text: String) -> (context: Option<String>)
    ensures
        match context {
            Some(c) => steering_text(turn_id@, text@) == Some(c@),
            None => steering_text(turn_id@, text@) is None,
        },
{
    if text_is_blank(text.as_str()) {
        return None;
    }
    let mut context = String::from_str("Additional user steering for active turn ");
    push_str(&mut context, turn_id);
    push_str(&mut context, ":\n");
    push_str(&mut context, text.as_str());
    Some(context)
}

/// A tool call requested by the model.
#[derive(Debug)]
pub struct ProviderToolCall {
    pub id: String,
    pub name: String,
    pub arguments: serde_json::Value,
}

/// A tool call as the contracts see it.
pub ghost struct ToolCallView {
    pub id: Seq<char>,
    pub name: Seq<char>,
    pub arguments: serde_json::Value,
}

/// The view of a tool call.
pub open spec fn tool_call_view(call: ProviderToolCall) -> ToolCallView {
    ToolCallView { id: call.id@, name: call.name@, arguments: call.arguments }
}

/// The tool calls among content blocks, in order.
pub open spec fn content_tool_calls(content: Seq<CanonicalContent>) -> Seq<ToolCallView>
    decreases content.len(),
{
    if content.len() == 0 {
        Seq::empty()
    } else {
        content_tool_calls(content.drop_last()) + match content.last() {
            CanonicalContent::ToolCall { id, name, arguments } => seq![
                ToolCallView { id: id@, name: name@, arguments },
            ],
            _ => Seq::empty(),
        }
    }
}

/// The tool calls a message requests: those of an assistant message.
pub open spec fn message_tool_calls(message: CanonicalMessage) -> Seq<ToolCallView> {
    match message {
        CanonicalMessage::Assistant { content, .. } => content_tool_calls(content@),
        _ => Seq::empty(),
    }
}

/// The tool calls a message requests.
pub fn tool_calls_from_message(message: &CanonicalMessage) -> (calls: Vec<ProviderToolCall>)
    ensures
        calls@.map_values(|c: ProviderToolCall| tool_call_view(c)) == message_tool_calls(*message),
{
    let mut calls: Vec<ProviderToolCall> = Vec::new();
    match message {
        CanonicalMessage::Assistant { content, .. } => {
            let mut i: usize = 0;
            while i < content.len()
                invariant
                    i <= content.len(),
                    calls@.map_values(|c: ProviderToolCall| tool_call_view(c)) == content_tool_calls(content@.take(i as int)),
                decreases content.len() - i,
            {
                proof {
                    assert(content@.take(i as int + 1).drop_last() =~= content@.take(i as int));
                }
                let ghost before = calls@;
                match &content[i] {
                    CanonicalContent::ToolCall { id, name, arguments } => {
                        calls.push(ProviderToolCall {
                            id: id.clone(),
                            name: name.clone(),
                            arguments: duplicate_value(arguments),
                        });
                        proof {
                            assert(calls@.map_values(|c: ProviderToolCall| tool_call_view(c)) =~= before.map_values(|c: ProviderToolCall| tool_call_view(c)).push(tool_call_view(calls@[i as int - (i as int - before.len() as int)])));
                        }
                    },
                    _ => {},
                }
                proof {
                    assert(calls@.map_values(|c: ProviderToolCall| tool_call_view(c)) =~= content_tool_calls(content@.take(i as int + 1)));
                }
                i = i + 1;
            }
            proof {
                assert(content@.take(content.len() as int) =~= content@);
            }
        },
        _ => {
            proof {
                assert(calls@.map_values(|c: ProviderToolCall| tool_call_view(c)) =~= Seq::<ToolCallView>::empty());
            }
        },
    }
    calls
}

/// Token usage as it is reported in runtime events.
#[derive(Clone, Copy, Debug, PartialEq, Eq, Structural)]
pub struct RuntimeUsage {
    pub input_tokens: u64,
    pub output_tokens: u64,
    pub cache_creation_input_tokens: u64,
    pub cache_read_input_tokens: u64,
}

/// The reported form of a usage.
pub open spec fn as_runtime_usage(usage: CanonicalUsage) -> RuntimeUsage {
    RuntimeUsage {
        input_tokens: usage.input_tokens,
        output_tokens: usage.output_tokens,
        cache_creation_input_tokens: usage.cache_creation_input_tokens,
        cache_read_input_tokens: usage.cache_read_input_tokens,
    }
}

/// Converts a usage to its reported form.
pub fn runtime_usage_from_canonical(usage: &CanonicalUsage) -> (reported: RuntimeUsage)
    ensures
        reported == as_runtime_usage(*usage),
{
    RuntimeUsage {
        input_tokens: usage.input_tokens,
        output_tokens: usage.output_tokens,
        cache_creation_input_tokens: usage.cache_creation_input_tokens,
        cache_read_input_tokens: usage.cache_read_input_tokens,
    }
}

/// The usage an assistant message reports; other messages report none.
pub fn usage_from_message(message: &CanonicalMessage) -> (reported: Option<RuntimeUsage>)
    ensures
        match *message {
            CanonicalMessage::Assistant { usage, .. } => reported == Some(as_runtime_usage(usage)),
            _ => reported is None,
        },
{
    match message {
        CanonicalMessage::Assistant { usage, .. } => Some(runtime_usage_from_canonical(usage)),
        _ => None,
    }
}

} // verus!
