//! Model-request retry policy, error classes, and the decision taken after a
//! failed attempt: retry the same endpoint, fall back to the next one, or fail.

use vstd::prelude::*;
use crate::text::{decimal, push_decimal, push_str};

verus! {

/// How often and how patiently one model endpoint is retried.
#[derive(Clone, Copy, Debug, PartialEq, Eq, Structural)]
pub struct ModelRequestRetryPolicy {
    pub max_attempts: u32,
    pub initial_backoff_ms: u64,
    pub max_backoff_ms: u64,
}

/// `2^e`.
pub open spec fn two_pow(e: nat) -> nat
    decreases e,
{
    if e == 0 { 1 } else { 2 * two_pow((e - 1) as nat) }
}

/// The backoff exponent of an attempt: `attempt - 1`, saturating at zero and capped at 31.
pub open spec fn backoff_exponent(attempt: u32) -> nat {
    if attempt == 0 { 0 } else if attempt - 1 > 31 { 31 } else { (attempt - 1) as nat }
}

/// The smaller of two integers.
pub open spec fn min_int(a: int, b: int) -> int {
    if a <= b { a } else { b }
}

impl ModelRequestRetryPolicy {
    /// The policy of the disabled retry: one attempt, no delay.
    pub open spec fn disabled_policy() -> ModelRequestRetryPolicy {
        ModelRequestRetryPolicy { max_attempts: 1, initial_backoff_ms: 0, max_backoff_ms: 0 }
    }

    /// Attempts made per endpoint: `max_attempts`, but at least one.
    pub open spec fn attempt_count(self) -> nat {
        if self.max_attempts == 0 { 1 } else { self.max_attempts as nat }
    }

    /// Delay before the attempt that follows `attempt`: zero without an initial
    /// backoff; otherwise the initial backoff doubled `backoff_exponent(attempt)`
    /// times, saturating at `u64::MAX`, then capped by `max_backoff_ms` when
    /// that is not zero.
    pub open spec fn backoff_delay(self, attempt: u32) -> nat {
        if self.initial_backoff_ms == 0 {
            0
        } else {
            let raw = min_int(
                self.initial_backoff_ms * two_pow(backoff_exponent(attempt)),
                u64::MAX as int,
            );
            if self.max_backoff_ms == 0 {
                raw as nat
            } else {
                min_int(raw, self.max_backoff_ms as int) as nat
            }
        }
    }

    /// A policy that makes a single attempt.
    pub fn disabled() -> (policy: Self)
        ensures
            policy == Self::disabled_policy(),
    {
        Self { max_attempts: 1, initial_backoff_ms: 0, max_backoff_ms: 0 }
    }

    /// A policy of `max_attempts` attempts with a constant delay between them.
    pub fn fixed(max_attempts: u32, delay_ms: u64) -> (policy: Self)
        ensures
            policy == (ModelRequestRetryPolicy {
                max_attempts,
                initial_backoff_ms: delay_ms,
                max_backoff_ms: delay_ms,
            }),
    {
        Self { max_attempts, initial_backoff_ms: delay_ms, max_backoff_ms: delay_ms }
    }

    /// Number of attempts per endpoint.
    pub fn attempts(self) -> (n: u32)
        ensures
            n as nat == self.attempt_count(),
            n >= 1,
    {
        if self.max_attempts >= 1 { self.max_attempts } else { 1 }
    }

    /// Delay in milliseconds before retrying after the failed `attempt`.
    pub fn delay_ms(self, attempt: u32) -> (delay: u64)
        ensures
            delay as nat == self.backoff_delay(attempt),
    {
        let base = self.initial_backoff_ms;
        if base == 0 {
            return 0;
        }
        let exponent: u32 = if attempt == 0 {
            0
        } else if attempt - 1 > 31 {
            31
        } else {
            attempt - 1
        };
        let mut factor: u64 = 1;
        let mut i: u32 = 0;
        while i < exponent
            invariant
                i <= exponent <= 31,
                factor as nat == two_pow(i as nat),
            decreases exponent - i,
        {
            proof {
                lemma_two_pow_monotone(i as nat, 30);
                lemma_two_pow_30();
            }
            factor = factor * 2;
            i = i + 1;
        }
        assert(exponent as nat == backoff_exponent(attempt));
        let delay: u64 = match base.checked_mul(factor) {
            Some(product) => product,
            None => u64::MAX,
        };
        if self.max_backoff_ms == 0 {
            delay
        } else if delay <= self.max_backoff_ms {
            delay
        } else {
            self.max_backoff_ms
        }
    }
}

impl Default for ModelRequestRetryPolicy {
    fn default() -> (policy: Self)
        ensures
            policy == Self::disabled_policy(),
    {
        Self::disabled()
    }
}

/// `two_pow` grows with its exponent.
pub proof fn lemma_two_pow_monotone(a: nat, b: nat)
    requires
        a <= b,
    ensures
        1 <= two_pow(a) <= two_pow(b),
    decreases b,
{
    if a < b {
        lemma_two_pow_monotone(a, (b - 1) as nat);
    } else if b > 0 {
        lemma_two_pow_monotone(0, (b - 1) as nat);
    }
}

proof fn lemma_two_pow_30()
    ensures
        two_pow(30) == 0x4000_0000,
{
    reveal_with_fuel(two_pow, 31);
}

/// Retrying never shortens the wait: the delay after a later attempt is at
/// least the delay after an earlier one.
pub proof fn lemma_backoff_delay_is_monotone(policy: ModelRequestRetryPolicy, a: u32, b: u32)
    requires
        a <= b,
    ensures
        policy.backoff_delay(a) <= policy.backoff_delay(b),
{
    lemma_two_pow_monotone(backoff_exponent(a), backoff_exponent(b));
    assert(policy.initial_backoff_ms * two_pow(backoff_exponent(a))
        <= policy.initial_backoff_ms * two_pow(backoff_exponent(b))) by (nonlinear_arith)
        requires
            two_pow(backoff_exponent(a)) <= two_pow(backoff_exponent(b)),
    ;
}

/// With a non-zero cap, no delay exceeds the cap.
pub proof fn lemma_backoff_delay_is_capped(policy: ModelRequestRetryPolicy, attempt: u32)
    requires
        policy.max_backoff_ms > 0,
    ensures
        policy.backoff_delay(attempt) <= policy.max_backoff_ms,
{
    lemma_two_pow_monotone(0, backoff_exponent(attempt));
    assert(policy.initial_backoff_ms * two_pow(backoff_exponent(attempt)) >= 0) by (nonlinear_arith)
        requires
            two_pow(backoff_exponent(attempt)) >= 1,
    ;
}

/// A fixed policy waits exactly its delay after every attempt.
pub proof fn lemma_fixed_policy_delay_is_constant(max_attempts: u32, delay_ms: u64, attempt: u32)
    ensures
        (ModelRequestRetryPolicy {
            max_attempts,
            initial_backoff_ms: delay_ms,
            max_backoff_ms: delay_ms,
        }).backoff_delay(attempt) == delay_ms,
{
    let e = backoff_exponent(attempt);
    lemma_two_pow_monotone(0, e);
    assert(delay_ms * two_pow(e) >= delay_ms) by (nonlinear_arith)
        requires
            two_pow(e) >= 1,
    ;
}

/// How a failed model-request attempt is classified.
#[derive(Clone, Copy, Debug, PartialEq, Eq, Structural)]
pub enum ModelRequestErrorClass {
    Cancelled,
    UnsupportedCapability,
    Retryable,
    RateLimited,
    Fatal,
    StreamAssembly,
}

/// A failed attempt: its class and its rendered message.
#[derive(Debug)]
pub struct ModelRequestAttemptError {
    pub class: ModelRequestErrorClass,
    pub message: String,
}

/// Classes that the same endpoint is retried on.
pub open spec fn class_is_retryable(class: ModelRequestErrorClass) -> bool {
    class == ModelRequestErrorClass::Retryable || class == ModelRequestErrorClass::RateLimited
}

/// Classes that move the request on to a fallback endpoint.
pub open spec fn class_is_fallback_eligible(class: ModelRequestErrorClass) -> bool {
    class == ModelRequestErrorClass::Retryable || class == ModelRequestErrorClass::RateLimited
        || class == ModelRequestErrorClass::UnsupportedCapability
}

impl ModelRequestAttemptError {
    /// Whether the same endpoint may be tried again.
    pub fn retryable(&self) -> (r: bool)
        ensures
            r == class_is_retryable(self.class),
    {
        match self.class {
            ModelRequestErrorClass::Retryable | ModelRequestErrorClass::RateLimited => true,
            _ => false,
        }
    }

    /// Whether the request may move on to a fallback endpoint.
    pub fn fallback_eligible(&self) -> (r: bool)
        ensures
            r == class_is_fallback_eligible(self.class),
    {
        match self.class {
            ModelRequestErrorClass::Retryable
            | ModelRequestErrorClass::RateLimited
            | ModelRequestErrorClass::UnsupportedCapability => true,
            _ => false,
        }
    }
}

/// Every retryable class is also eligible for fallback.
pub proof fn lemma_retryable_is_fallback_eligible(class: ModelRequestErrorClass)
    ensures
        class_is_retryable(class) ==> class_is_fallback_eligible(class),
{
}

/// The shape of a provider error, as far as its classification depends on it.
#[derive(Clone, Copy, Debug, PartialEq, Eq, Structural)]
pub enum ProviderErrorKind {
    Cancelled,
    UnsupportedCapability,
    ApiMismatch,
    Http,
    HttpStatus { status: u16 },
    Decode,
}

/// The class of a provider error: transport failures, server errors and the
/// statuses 408, 409 and 425 are retryable, 429 is rate limiting, capability and
/// API mismatches are unsupported capabilities, everything else is fatal.
pub open spec fn provider_error_class(kind: ProviderErrorKind) -> ModelRequestErrorClass {
    match kind {
        ProviderErrorKind::Cancelled => ModelRequestErrorClass::Cancelled,
        ProviderErrorKind::UnsupportedCapability => ModelRequestErrorClass::UnsupportedCapability,
        ProviderErrorKind::ApiMismatch => ModelRequestErrorClass::UnsupportedCapability,
        ProviderErrorKind::Http => ModelRequestErrorClass::Retryable,
        ProviderErrorKind::HttpStatus { status } => {
            if status == 429 {
                ModelRequestErrorClass::RateLimited
            } else if (500 <= status && status <= 599) || status == 408 || status == 409
                || status == 425 {
                ModelRequestErrorClass::Retryable
            } else {
                ModelRequestErrorClass::Fatal
            }
        },
        ProviderErrorKind::Decode => ModelRequestErrorClass::Fatal,
    }
}

/// Classifies a provider error; `message` is the error's rendered text.
pub fn classify_provider_error(kind: ProviderErrorKind, message: String) -> (error:
    ModelRequestAttemptError)
    ensures
        error.class == provider_error_class(kind),
        error.message == message,
{
    let class = match kind {
        ProviderErrorKind::Cancelled => ModelRequestErrorClass::Cancelled,
        ProviderErrorKind::UnsupportedCapability | ProviderErrorKind::ApiMismatch => {
            ModelRequestErrorClass::UnsupportedCapability
        },
        ProviderErrorKind::Http => ModelRequestErrorClass::Retryable,
        ProviderErrorKind::HttpStatus { status } => {
            if status == 429 {
                ModelRequestErrorClass::RateLimited
            } else if (500 <= status && status <= 599) || status == 408 || status == 409
                || status == 425 {
                ModelRequestErrorClass::Retryable
            } else {
                ModelRequestErrorClass::Fatal
            }
        },
        ProviderErrorKind::Decode => ModelRequestErrorClass::Fatal,
    };
    ModelRequestAttemptError { class, message }
}

/// An error raised while assembling a streamed response.
pub fn stream_assembly_error(message: String) -> (error: ModelRequestAttemptError)
    ensures
        error.class == ModelRequestErrorClass::StreamAssembly,
        error.message == message,
{
    ModelRequestAttemptError { class: ModelRequestErrorClass::StreamAssembly, message }
}

/// What the loop does after an attempt failed.
#[derive(Clone, Copy, Debug, PartialEq, Eq, Structural)]
pub enum ModelRequestStep {
    /// Wait `delay_ms`, then make attempt `next_attempt` on the same endpoint.
    Retry { next_attempt: u32, delay_ms: u64 },
    /// Start over on endpoint `next_endpoint` (its first attempt).
    Fallback { next_endpoint: usize },
    /// Give up with this attempt's error.
    Fail,
}

/// The step after attempt `attempt` on endpoint `endpoint_index` (of
/// `endpoint_count`) failed with `class`; `cancelled` is whether the turn was
/// cancelled meanwhile.
pub open spec fn failure_step(
    policy: ModelRequestRetryPolicy,
    attempt: u32,
    endpoint_index: usize,
    endpoint_count: usize,
    class: ModelRequestErrorClass,
    cancelled: bool,
) -> ModelRequestStep {
    if attempt < policy.attempt_count() && class_is_retryable(class) && !cancelled {
        ModelRequestStep::Retry {
            next_attempt: (attempt + 1) as u32,
            delay_ms: policy.backoff_delay(attempt) as u64,
        }
    } else if endpoint_index + 1 < endpoint_count && class_is_fallback_eligible(class)
        && !cancelled {
        ModelRequestStep::Fallback { next_endpoint: (endpoint_index + 1) as usize }
    } else {
        ModelRequestStep::Fail
    }
}

/// Decides how to continue after a failed attempt.
pub fn next_model_request_step(
    policy: ModelRequestRetryPolicy,
    attempt: u32,
    endpoint_index: usize,
    endpoint_count: usize,
    error: &ModelRequestAttemptError,
    cancelled: bool,
) -> (step: ModelRequestStep)
    requires
        1 <= attempt <= policy.attempt_count(),
        endpoint_index < endpoint_count,
    ensures
        step == failure_step(policy, attempt, endpoint_index, endpoint_count, error.class, cancelled),
        step matches ModelRequestStep::Retry { next_attempt, .. } ==> next_attempt
            <= policy.attempt_count(),
        step matches ModelRequestStep::Fallback { next_endpoint } ==> next_endpoint
            < endpoint_count,
{
    if attempt < policy.attempts() && error.retryable() && !cancelled {
        let delay_ms = policy.delay_ms(attempt);
        ModelRequestStep::Retry { next_attempt: attempt + 1, delay_ms }
    } else if endpoint_index + 1 < endpoint_count && error.fallback_eligible() && !cancelled {
        ModelRequestStep::Fallback { next_endpoint: endpoint_index + 1 }
    } else {
        ModelRequestStep::Fail
    }
}

/// Attempts still available from (endpoint, attempt): the attempts left on this
/// endpoint plus all attempts of the endpoints after it.
pub open spec fn remaining_attempts(
    policy: ModelRequestRetryPolicy,
    endpoint_index: nat,
    endpoint_count: nat,
    attempt: nat,
) -> int {
    (endpoint_count - endpoint_index - 1) * policy.attempt_count() + (policy.attempt_count()
        - attempt)
}

/// Each step after a failure strictly consumes the attempt budget, so a model
/// request makes at most `attempts × endpoints` attempts in all.
pub proof fn lemma_failure_steps_consume_the_budget(
    policy: ModelRequestRetryPolicy,
    attempt: u32,
    endpoint_index: usize,
    endpoint_count: usize,
    class: ModelRequestErrorClass,
    cancelled: bool,
)
    requires
        1 <= attempt <= policy.attempt_count(),
        endpoint_index < endpoint_count,
    ensures
        0 <= remaining_attempts(policy, endpoint_index as nat, endpoint_count as nat, attempt as nat),
        remaining_attempts(policy, 0, endpoint_count as nat, 1) == endpoint_count
            * policy.attempt_count() - 1,
        match failure_step(policy, attempt, endpoint_index, endpoint_count, class, cancelled) {
            ModelRequestStep::Retry { next_attempt, .. } => remaining_attempts(
                policy,
                endpoint_index as nat,
                endpoint_count as nat,
                next_attempt as nat,
            ) < remaining_attempts(
                policy,
                endpoint_index as nat,
                endpoint_count as nat,
                attempt as nat,
            ),
            ModelRequestStep::Fallback { next_endpoint } => 0 <= remaining_attempts(
                policy,
                next_endpoint as nat,
                endpoint_count as nat,
                1,
            ) < remaining_attempts(
                policy,
                endpoint_index as nat,
                endpoint_count as nat,
                attempt as nat,
            ),
            ModelRequestStep::Fail => true,
        },
{
    let a = policy.attempt_count();
    let k = (endpoint_count - endpoint_index - 1) as int;
    assert(k * a >= 0) by (nonlinear_arith)
        requires
            k >= 0,
            a >= 1,
    ;
    assert((endpoint_count - 0 - 1) * a + (a - 1) == endpoint_count * a - 1) by (nonlinear_arith);
    if endpoint_index + 1 < endpoint_count {
        assert((endpoint_count - (endpoint_index + 1) - 1) * a + (a - 1) < k * a + (a - attempt))
            by (nonlinear_arith)
            requires
                k == endpoint_count - endpoint_index - 1,
                attempt <= a,
                k >= 1,
        ;
        assert((endpoint_count - (endpoint_index + 1) - 1) * a >= 0) by (nonlinear_arith)
            requires
                endpoint_count - (endpoint_index + 1) - 1 >= 0,
                a >= 1,
        ;
    }
}

/// The attempts a model request makes, as `(endpoint, attempt)` positions,
/// from attempt `attempt` on endpoint `endpoint_index`, when those attempts
/// fail in turn as `failures` says (each with an error class and whether the
/// turn was cancelled by then): the request goes on until the failures run
/// out (the last attempt listed is the one that did not fail) or a failure
/// ends it.
pub open spec fn attempt_trace(
    policy: ModelRequestRetryPolicy,
    endpoint_count: usize,
    failures: Seq<(ModelRequestErrorClass, bool)>,
    endpoint_index: usize,
    attempt: u32,
) -> Seq<(int, int)>
    decreases failures.len(),
{
    let here = seq![(endpoint_index as int, attempt as int)];
    if failures.len() == 0 {
        here
    } else {
        let rest = failures.subrange(1, failures.len() as int);
        match failure_step(policy, attempt, endpoint_index, endpoint_count, failures[0].0, failures[0].1) {
            ModelRequestStep::Retry { next_attempt, .. } => here + attempt_trace(
                policy,
                endpoint_count,
                rest,
                endpoint_index,
                next_attempt,
            ),
            ModelRequestStep::Fallback { next_endpoint } => here + attempt_trace(
                policy,
                endpoint_count,
                rest,
                next_endpoint,
                1,
            ),
            ModelRequestStep::Fail => here,
        }
    }
}

/// Whether position `a` comes strictly before position `b`: an earlier
/// endpoint, or an earlier attempt on the same endpoint.
pub open spec fn position_before(a: (int, int), b: (int, int)) -> bool {
    a.0 < b.0 || (a.0 == b.0 && a.1 < b.1)
}

/// Every position of a trace names an endpoint and an attempt within the
/// policy, and the positions strictly advance.
pub open spec fn trace_in_order(t: Seq<(int, int)>, policy: ModelRequestRetryPolicy, endpoint_count: usize) -> bool {
    &&& forall|i: int| 0 <= i < t.len() ==> 0 <= (#[trigger] t[i]).0 < endpoint_count && 1 <= t[i].1 <= policy.attempt_count()
    &&& forall|i: int, j: int| 0 <= i < j < t.len() ==> position_before(#[trigger] t[i], #[trigger] t[j])
}

/// A trace from any position stays within the policy, advances strictly,
/// uses no more attempts than remain, and starts no attempt after a failure
/// that saw the turn cancelled.
pub proof fn lemma_attempt_trace_from(
    policy: ModelRequestRetryPolicy,
    endpoint_count: usize,
    failures: Seq<(ModelRequestErrorClass, bool)>,
    endpoint_index: usize,
    attempt: u32,
)
    requires
        1 <= attempt <= policy.attempt_count(),
        endpoint_index < endpoint_count,
    ensures
        1 <= attempt_trace(policy, endpoint_count, failures, endpoint_index, attempt).len() <= failures.len() + 1,
        attempt_trace(policy, endpoint_count, failures, endpoint_index, attempt)[0] == (
        endpoint_index as int,
        attempt as int,
        ),
        attempt_trace(policy, endpoint_count, failures, endpoint_index, attempt).len() <= remaining_attempts(
            policy,
            endpoint_index as nat,
            endpoint_count as nat,
            attempt as nat,
        ) + 1,
        trace_in_order(attempt_trace(policy, endpoint_count, failures, endpoint_index, attempt), policy, endpoint_count),
        forall|i: int|
            0 <= i < attempt_trace(policy, endpoint_count, failures, endpoint_index, attempt).len() - 1 ==> !(
            #[trigger] failures[i]).1,
    decreases failures.len(),
{
    let t = attempt_trace(policy, endpoint_count, failures, endpoint_index, attempt);
    lemma_failure_steps_consume_the_budget(policy, attempt, endpoint_index, endpoint_count, failures[0].0, failures[0].1);
    if failures.len() > 0 {
        let rest = failures.subrange(1, failures.len() as int);
        let step = failure_step(policy, attempt, endpoint_index, endpoint_count, failures[0].0, failures[0].1);
        let here = seq![(endpoint_index as int, attempt as int)];
        let next: (usize, u32) = match step {
            ModelRequestStep::Retry { next_attempt, .. } => (endpoint_index, next_attempt),
            ModelRequestStep::Fallback { next_endpoint } => (next_endpoint, 1u32),
            ModelRequestStep::Fail => (endpoint_index, attempt),
        };
        if !(step is Fail) {
            lemma_attempt_trace_from(policy, endpoint_count, rest, next.0, next.1);
            let u = attempt_trace(policy, endpoint_count, rest, next.0, next.1);
            assert(t == here + u);
            assert(position_before(t[0], u[0]));
            assert forall|i: int, j: int| 0 <= i < j < t.len() implies position_before(#[trigger] t[i], #[trigger] t[j]) by {
                if i == 0 {
                    if j > 1 {
                        assert(position_before(u[0], u[j - 1]));
                    }
                } else {
                    assert(position_before(u[i - 1], u[j - 1]));
                }
            }
            assert forall|i: int| 0 <= i < t.len() - 1 implies !(#[trigger] failures[i]).1 by {
                if i > 0 {
                    assert(failures[i] == rest[i - 1]);
                }
            }
            assert forall|i: int| 0 <= i < t.len() implies 0 <= (#[trigger] t[i]).0 < endpoint_count && 1 <= t[i].1
                <= policy.attempt_count() by {
                if i > 0 {
                    assert(t[i] == u[i - 1]);
                }
            }
        }
    }
}

/// A model request tries its endpoints in order, the primary first, each at
/// most `attempts` times, so it makes at most `attempts × endpoints`
/// attempts in all; and once a failure saw the turn cancelled, no retry or
/// fallback follows it.
pub proof fn lemma_model_request_attempts_are_bounded(
    policy: ModelRequestRetryPolicy,
    endpoint_count: usize,
    failures: Seq<(ModelRequestErrorClass, bool)>,
)
    requires
        endpoint_count > 0,
    ensures
        attempt_trace(policy, endpoint_count, failures, 0, 1)[0] == (0int, 1int),
        attempt_trace(policy, endpoint_count, failures, 0, 1).len() <= endpoint_count * policy.attempt_count(),
        trace_in_order(attempt_trace(policy, endpoint_count, failures, 0, 1), policy, endpoint_count),
        forall|i: int| 0 <= i < attempt_trace(policy, endpoint_count, failures, 0, 1).len() - 1 ==> !(
            #[trigger] failures[i]).1,
{
    lemma_attempt_trace_from(policy, endpoint_count, failures, 0, 1);
    lemma_failure_steps_consume_the_budget(
        policy,
        1,
        0,
        endpoint_count,
        ModelRequestErrorClass::Fatal,
        true,
    );
}

/// An event a model request emits about one of its attempts.
#[derive(Clone, Copy, Debug, PartialEq, Eq, Structural)]
pub enum RequestEventKind {
    Started,
    Completed,
    Failed,
    RetryScheduled,
    FallbackSelected,
}

/// Whether an event finishes an attempt.
pub open spec fn finishes(kind: RequestEventKind) -> bool {
    kind == RequestEventKind::Completed || kind == RequestEventKind::Failed
}

/// The events a model request emits, each with the `(endpoint, attempt)`
/// position of the attempt it is about (the attempt's request id is a
/// function of that position), from attempt `attempt` on endpoint
/// `endpoint_index`, when the attempts fail in turn as `failures` says and
/// the attempt after the last failure completes: each attempt starts, then
/// completes or fails, and a failure is followed by the scheduled retry or
/// the selected fallback, if any.
pub open spec fn request_events(
    policy: ModelRequestRetryPolicy,
    endpoint_count: usize,
    failures: Seq<(ModelRequestErrorClass, bool)>,
    endpoint_index: usize,
    attempt: u32,
) -> Seq<(RequestEventKind, (int, int))>
    decreases failures.len(),
{
    let p = (endpoint_index as int, attempt as int);
    if failures.len() == 0 {
        seq![(RequestEventKind::Started, p), (RequestEventKind::Completed, p)]
    } else {
        let rest = failures.subrange(1, failures.len() as int);
        match failure_step(policy, attempt, endpoint_index, endpoint_count, failures[0].0, failures[0].1) {
            ModelRequestStep::Retry { next_attempt, .. } => seq![
                (RequestEventKind::Started, p),
                (RequestEventKind::Failed, p),
                (RequestEventKind::RetryScheduled, p),
            ] + request_events(policy, endpoint_count, rest, endpoint_index, next_attempt),
            ModelRequestStep::Fallback { next_endpoint } => seq![
                (RequestEventKind::Started, p),
                (RequestEventKind::Failed, p),
                (RequestEventKind::FallbackSelected, p),
            ] + request_events(policy, endpoint_count, rest, next_endpoint, 1),
            ModelRequestStep::Fail => seq![(RequestEventKind::Started, p), (RequestEventKind::Failed, p)],
        }
    }
}

/// Every start is followed at once by the finish of the same attempt, no
/// other event finishes that attempt, and every finish follows its start.
pub open spec fn starts_pair_with_finishes(events: Seq<(RequestEventKind, (int, int))>) -> bool {
    &&& forall|a: int|
        0 <= a < events.len() && (#[trigger] events[a]).0 == RequestEventKind::Started ==> {
            &&& a + 1 < events.len()
            &&& finishes(events[a + 1].0)
            &&& events[a + 1].1 == events[a].1
            &&& forall|b: int| 0 <= b < events.len() && b != a + 1 && finishes(#[trigger] events[b].0) ==> events[b].1 != events[a].1
        }
    &&& forall|b: int|
        0 <= b < events.len() && finishes((#[trigger] events[b]).0) ==> b >= 1 && events[b - 1] == (
        RequestEventKind::Started,
        events[b].1,
        )
}

proof fn lemma_request_event_positions(
    policy: ModelRequestRetryPolicy,
    endpoint_count: usize,
    failures: Seq<(ModelRequestErrorClass, bool)>,
    endpoint_index: usize,
    attempt: u32,
)
    requires
        1 <= attempt <= policy.attempt_count(),
        endpoint_index < endpoint_count,
    ensures
        forall|i: int|
            0 <= i < request_events(policy, endpoint_count, failures, endpoint_index, attempt).len() ==> {
                let q = (#[trigger] request_events(policy, endpoint_count, failures, endpoint_index, attempt)[i]).1;
                q == (endpoint_index as int, attempt as int) || position_before((endpoint_index as int, attempt as int), q)
            },
        starts_pair_with_finishes(request_events(policy, endpoint_count, failures, endpoint_index, attempt)),
    decreases failures.len(),
{
    let p = (endpoint_index as int, attempt as int);
    let ev = request_events(policy, endpoint_count, failures, endpoint_index, attempt);
    if failures.len() > 0 {
        let rest = failures.subrange(1, failures.len() as int);
        let step = failure_step(policy, attempt, endpoint_index, endpoint_count, failures[0].0, failures[0].1);
        lemma_failure_steps_consume_the_budget(policy, attempt, endpoint_index, endpoint_count, failures[0].0, failures[0].1);
        if !(step is Fail) {
            let next: (usize, u32) = match step {
                ModelRequestStep::Retry { next_attempt, .. } => (endpoint_index, next_attempt),
                ModelRequestStep::Fallback { next_endpoint } => (next_endpoint, 1u32),
                ModelRequestStep::Fail => (endpoint_index, attempt),
            };
            lemma_request_event_positions(policy, endpoint_count, rest, next.0, next.1);
            let r = request_events(policy, endpoint_count, rest, next.0, next.1);
            let seg = seq![
                (RequestEventKind::Started, p),
                (RequestEventKind::Failed, p),
                ev[2],
            ];
            assert(ev == seg + r);
            let np = (next.0 as int, next.1 as int);
            assert(position_before(p, np));
            assert forall|i: int| 0 <= i < r.len() implies position_before(p, (#[trigger] r[i]).1) by {}
            assert forall|i: int| 0 <= i < ev.len() implies ({
                let q = (#[trigger] ev[i]).1;
                q == p || position_before(p, q)
            }) by {
                if i >= 3 {
                    assert(ev[i] == r[i - 3]);
                }
            }
            assert forall|a: int| 0 <= a < ev.len() && (#[trigger] ev[a]).0 == RequestEventKind::Started implies {
                &&& a + 1 < ev.len()
                &&& finishes(ev[a + 1].0)
                &&& ev[a + 1].1 == ev[a].1
                &&& forall|b: int| 0 <= b < ev.len() && b != a + 1 && finishes(#[trigger] ev[b].0) ==> ev[b].1 != ev[a].1
            } by {
                if a >= 3 {
                    assert(ev[a] == r[a - 3]);
                    assert(ev[a + 1] == r[a - 2]);
                    assert forall|b: int| 0 <= b < ev.len() && b != a + 1 && finishes(#[trigger] ev[b].0) implies ev[b].1 != ev[a].1 by {
                        if b >= 3 {
                            assert(ev[b] == r[b - 3]);
                        } else {
                            assert(position_before(p, r[a - 3].1));
                        }
                    }
                } else {
                    assert(a == 0);
                    assert forall|b: int| 0 <= b < ev.len() && b != a + 1 && finishes(#[trigger] ev[b].0) implies ev[b].1 != ev[a].1 by {
                        if b >= 3 {
                            assert(ev[b] == r[b - 3]);
                            assert(position_before(p, r[b - 3].1));
                        }
                    }
                }
            }
            assert forall|b: int| 0 <= b < ev.len() && finishes((#[trigger] ev[b]).0) implies b >= 1 && ev[b - 1] == (
                RequestEventKind::Started,
                ev[b].1,
            ) by {
                if b >= 3 {
                    assert(ev[b] == r[b - 3]);
                    assert(r[b - 3].0 != RequestEventKind::Started);
                    if b == 3 {
                        assert(finishes(r[0].0));
                        assert(false);
                    }
                    assert(ev[b - 1] == r[b - 4]);
                }
            }
        }
    }
}

/// A model request's events pair up: every attempt that starts is finished
/// by exactly one event, which follows its start at once, and every finish
/// belongs to an attempt that started just before it.
pub proof fn lemma_started_requests_finish_once(
    policy: ModelRequestRetryPolicy,
    endpoint_count: usize,
    failures: Seq<(ModelRequestErrorClass, bool)>,
)
    requires
        endpoint_count > 0,
    ensures
        starts_pair_with_finishes(request_events(policy, endpoint_count, failures, 0, 1)),
{
    lemma_request_event_positions(policy, endpoint_count, failures, 0, 1);
}

/// The message of a request whose endpoints all failed over: the last
/// fallback error, or a fixed text when no attempt ran.
pub open spec fn exhausted_request_message(last_error: Option<Seq<char>>) -> Seq<char> {
    match last_error {
        Some(message) => message,
        None => "provider request did not run"@,
    }
}

/// Message reported when the endpoint loop ends without success or failure.
pub fn exhausted_request_error(last_error: Option<ModelRequestAttemptError>) -> (message: String)
    ensures
        message@ == exhausted_request_message(
            match last_error {
                Some(e) => Some(e.message@),
                None => None,
            },
        ),
{
    match last_error {
        Some(error) => error.message,
        None => {
            let m = String::from_str("provider request did not run");
            m
        },
    }
}

/// The request mode a provider is asked for.
#[derive(Clone, Copy, Debug, PartialEq, Eq, Structural)]
pub enum ProviderRequestMode {
    Complete,
    Stream,
}

/// The request mode as it is reported in runtime events.
#[derive(Clone, Copy, Debug, PartialEq, Eq, Structural)]
pub enum RuntimeModelRequestMode {
    Complete,
    Stream,
}

/// Why a model request is made.
#[derive(Clone, Copy, Debug, PartialEq, Eq, Structural)]
pub enum RuntimeModelRequestPurpose {
    Turn,
    Compaction,
}

/// Maps the provider mode onto the reported mode.
pub fn runtime_request_mode(mode: ProviderRequestMode) -> (r: RuntimeModelRequestMode)
    ensures
        mode == ProviderRequestMode::Complete ==> r == RuntimeModelRequestMode::Complete,
        mode == ProviderRequestMode::Stream ==> r == RuntimeModelRequestMode::Stream,
{
    match mode {
        ProviderRequestMode::Complete => RuntimeModelRequestMode::Complete,
        ProviderRequestMode::Stream => RuntimeModelRequestMode::Stream,
    }
}

/// Label of a request mode.
pub open spec fn mode_label(mode: RuntimeModelRequestMode) -> Seq<char> {
    match mode {
        RuntimeModelRequestMode::Complete => "complete"@,
        RuntimeModelRequestMode::Stream => "stream"@,
    }
}

/// Label of a request purpose.
pub open spec fn purpose_label(purpose: RuntimeModelRequestPurpose) -> Seq<char> {
    match purpose {
        RuntimeModelRequestPurpose::Turn => "turn"@,
        RuntimeModelRequestPurpose::Compaction => "compaction"@,
    }
}

/// The request id
/// `{trace}:{turn}:{purpose}:{mode}:{messages}:candidate{endpoint+1}:attempt{attempt}`.
pub open spec fn model_request_id_text(
    trace_id: Seq<char>,
    turn_id: Seq<char>,
    purpose: RuntimeModelRequestPurpose,
    mode: RuntimeModelRequestMode,
    message_count: nat,
    endpoint_index: nat,
    attempt: nat,
) -> Seq<char> {
    trace_id + ":"@ + turn_id + ":"@ + purpose_label(purpose) + ":"@ + mode_label(mode) + ":"@
        + decimal(message_count) + ":candidate"@ + decimal(endpoint_index + 1) + ":attempt"@
        + decimal(attempt)
}

fn push_purpose(s: &mut String, purpose: RuntimeModelRequestPurpose)
    ensures
        final(s)@ == old(s)@ + purpose_label(purpose),
{
    match purpose {
        RuntimeModelRequestPurpose::Turn => push_str(s, "turn"),
        RuntimeModelRequestPurpose::Compaction => push_str(s, "compaction"),
    }
}

fn push_mode(s: &mut String, mode: RuntimeModelRequestMode)
    ensures
        final(s)@ == old(s)@ + mode_label(mode),
{
    match mode {
        RuntimeModelRequestMode::Complete => push_str(s, "complete"),
        RuntimeModelRequestMode::Stream => push_str(s, "stream"),
    }
}

/// Identifier of one attempt of one model request.
pub fn model_request_id(
    trace_id: &str,
    turn_id: &str,
    purpose: RuntimeModelRequestPurpose,
    mode: RuntimeModelRequestMode,
    message_count: usize,
    endpoint_index: usize,
    attempt: u32,
) -> (id: String)
    requires
        endpoint_index < usize::MAX,
        endpoint_index + 1 <= u64::MAX,
    ensures
        id@ == model_request_id_text(
            trace_id@,
            turn_id@,
            purpose,
            mode,
            message_count as nat,
            endpoint_index as nat,
            attempt as nat,
        ),
{
    let mut id = String::new();
    push_str(&mut id, trace_id);
    push_str(&mut id, ":");
    push_str(&mut id, turn_id);
    push_str(&mut id, ":");
    push_purpose(&mut id, purpose);
    push_str(&mut id, ":");
    push_mode(&mut id, mode);
    push_str(&mut id, ":");
    push_decimal(&mut id, message_count as u64);
    push_str(&mut id, ":candidate");
    push_decimal(&mut id, (endpoint_index + 1) as u64);
    push_str(&mut id, ":attempt");
    push_decimal(&mut id, attempt as u64);
    id
}

/// Provider API families.
#[derive(Clone, Debug, PartialEq, Eq)]
pub enum ProviderApi {
    OpenAIResponses,
    OpenAIChatCompletions,
    AnthropicMessages,
    Other(String),
}

/// Event label of a provider API.
pub open spec fn provider_api_label(api: ProviderApi) -> Seq<char> {
    match api {
        ProviderApi::OpenAIResponses => "openai_responses"@,
        ProviderApi::OpenAIChatCompletions => "openai_chat_completions"@,
        ProviderApi::AnthropicMessages => "anthropic_messages"@,
        ProviderApi::Other(family) => family@,
    }
}

/// The label under which a provider API appears in runtime events.
pub fn provider_api_event_label(api: &ProviderApi) -> (label: String)
    ensures
        label@ == provider_api_label(*api),
{
    match api {
        ProviderApi::OpenAIResponses => String::from_str("openai_responses"),
        ProviderApi::OpenAIChatCompletions => String::from_str("openai_chat_completions"),
        ProviderApi::AnthropicMessages => String::from_str("anthropic_messages"),
        ProviderApi::Other(family) => family.clone(),
    }
}

/// Milliseconds elapsed, saturating at `u64::MAX`.
pub fn elapsed_ms(elapsed_millis: u128) -> (ms: u64)
    ensures
        ms == min_int(elapsed_millis as int, u64::MAX as int),
{
    if elapsed_millis <= u64::MAX as u128 {
        elapsed_millis as u64
    } else {
        u64::MAX
    }
}

} // verus!
