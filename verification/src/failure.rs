//! The `turn.failed` record of a provider turn that failed: the class of
//! the error, the provider and HTTP status when a provider answered, how many
//! retries were spent, and a message capped at 1024 bytes on a character
//! boundary. The message is the error's own text, never a response body.

use vstd::prelude::*;
use crate::retry::ProviderErrorKind;

verus! {

/// Bytes a `turn.failed` message may take.
pub const TURN_FAILURE_MESSAGE_BYTES: usize = 1024;

/// Why a turn failed.
#[derive(Debug)]
pub enum TurnFailure {
    /// The provider request failed with this kind of error and its text.
    Provider { kind: ProviderErrorKind, message: String },
    /// Something else in the turn failed, with this text.
    Runtime { message: String },
}

/// The error class a `turn.failed` record names.
#[derive(Clone, Copy, Debug, PartialEq, Eq, Structural)]
pub enum TurnFailureErrorClass {
    ProviderHttp,
    ProviderTransport,
    ProviderDecode,
    ProviderUnsupported,
    ProviderCancelled,
    Runtime,
}

/// The `turn.failed` record.
#[derive(Debug)]
pub struct TurnFailedPayload {
    pub turn_id: String,
    pub error_class: TurnFailureErrorClass,
    pub provider_id: Option<String>,
    pub http_status: Option<u16>,
    pub message: String,
    pub retries_attempted: u32,
}

/// Bytes of a character in UTF-8.
pub open spec fn utf8_len(c: char) -> nat {
    if (c as u32) < 0x80 {
        1
    } else if (c as u32) < 0x800 {
        2
    } else if (c as u32) < 0x10000 {
        3
    } else {
        4
    }
}

/// Bytes of a text in UTF-8.
pub open spec fn utf8_bytes(s: Seq<char>) -> nat
    decreases s.len(),
{
    if s.len() == 0 {
        0
    } else {
        utf8_bytes(s.drop_last()) + utf8_len(s.last())
    }
}

/// How many leading characters of `s`, from `k` on, fit in `limit` bytes.
pub open spec fn fitting_chars(s: Seq<char>, limit: nat, k: nat) -> nat
    decreases s.len() - k,
{
    if k < s.len() && utf8_bytes(s.take(k + 1int)) <= limit {
        fitting_chars(s, limit, k + 1)
    } else {
        k
    }
}

/// The longest prefix of `s` that fits in `limit` bytes.
pub open spec fn capped_text(s: Seq<char>, limit: nat) -> Seq<char> {
    s.take(fitting_chars(s, limit, 0) as int)
}

/// The class of a failure.
pub open spec fn failure_class(failure: TurnFailure) -> TurnFailureErrorClass {
    match failure {
        TurnFailure::Provider { kind, .. } => match kind {
            ProviderErrorKind::HttpStatus { .. } => TurnFailureErrorClass::ProviderHttp,
            ProviderErrorKind::Http => TurnFailureErrorClass::ProviderTransport,
            ProviderErrorKind::Decode => TurnFailureErrorClass::ProviderDecode,
            ProviderErrorKind::UnsupportedCapability => TurnFailureErrorClass::ProviderUnsupported,
            ProviderErrorKind::ApiMismatch => TurnFailureErrorClass::ProviderUnsupported,
            ProviderErrorKind::Cancelled => TurnFailureErrorClass::ProviderCancelled,
        },
        TurnFailure::Runtime { .. } => TurnFailureErrorClass::Runtime,
    }
}

/// The text of a failure.
pub open spec fn failure_message(failure: TurnFailure) -> Seq<char> {
    match failure {
        TurnFailure::Provider { message, .. } => message@,
        TurnFailure::Runtime { message } => message@,
    }
}

/// The HTTP status of a failure, when a provider answered with one.
pub open spec fn failure_status(failure: TurnFailure) -> Option<u16> {
    match failure {
        TurnFailure::Provider { kind: ProviderErrorKind::HttpStatus { status }, .. } => Some(status),
        _ => None,
    }
}

/// The longest prefix of `text` that fits in `limit` bytes of UTF-8.
pub fn cap_text_bytes(text: &str, limit: usize) -> (capped: String)
    ensures
        capped@ == capped_text(text@, limit as nat),
{
    let n = text.unicode_len();
    let mut k: usize = 0;
    let mut bytes: usize = 0;
    while k < n
        invariant
            k <= n,
            n == text@.len(),
            bytes == utf8_bytes(text@.take(k as int)),
            bytes <= limit,
            fitting_chars(text@, limit as nat, 0) == fitting_chars(text@, limit as nat, k as nat),
        ensures
            k <= n,
            fitting_chars(text@, limit as nat, 0) == k,
        decreases n - k,
    {
        let c = text.get_char(k);
        let code = c as u32;
        let width: usize = if code < 0x80 {
            1
        } else if code < 0x800 {
            2
        } else if code < 0x10000 {
            3
        } else {
            4
        };
        proof {
            assert(text@.take(k as int + 1).drop_last() =~= text@.take(k as int));
            assert(text@.take(k as int + 1).last() == c);
        }
        assert(width == utf8_len(c));
        if width > limit - bytes {
            assert(utf8_bytes(text@.take(k as int + 1)) > limit);
            break;
        }
        bytes = bytes + width;
        k = k + 1;
    }
    String::from_str(text.substring_char(0, k))
}

/// The text `turn.failed` carries for a failure.
pub fn turn_failure_message(message: &str) -> (capped: String)
    ensures
        capped@ == capped_text(message@, TURN_FAILURE_MESSAGE_BYTES as nat),
{
    cap_text_bytes(message, TURN_FAILURE_MESSAGE_BYTES)
}

/// The `turn.failed` record of turn `turn_id`, which failed with `failure`
/// after its last model request made `attempts_made` attempts on a provider
/// `provider`: the provider and status are named only for a provider's
/// failure, the retries are the attempts after the first, and the message is
/// capped at 1024 bytes.
pub fn turn_failed_payload(turn_id: &str, failure: &TurnFailure, provider: &str, attempts_made: u32) -> (payload:
    TurnFailedPayload)
    ensures
        payload.turn_id@ == turn_id@,
        payload.error_class == failure_class(*failure),
        payload.provider_id matches Some(p) ==> p@ == provider@,
        payload.provider_id is Some <==> failure is Provider,
        payload.http_status == failure_status(*failure),
        payload.message@ == capped_text(failure_message(*failure), TURN_FAILURE_MESSAGE_BYTES as nat),
        payload.retries_attempted == if attempts_made == 0 {
            0
        } else {
            attempts_made - 1
        },
{
    let (error_class, provider_id, http_status, message) = match failure {
        TurnFailure::Provider { kind, message } => {
            let class = match kind {
                ProviderErrorKind::HttpStatus { .. } => TurnFailureErrorClass::ProviderHttp,
                ProviderErrorKind::Http => TurnFailureErrorClass::ProviderTransport,
                ProviderErrorKind::Decode => TurnFailureErrorClass::ProviderDecode,
                ProviderErrorKind::UnsupportedCapability => TurnFailureErrorClass::ProviderUnsupported,
                ProviderErrorKind::ApiMismatch => TurnFailureErrorClass::ProviderUnsupported,
                ProviderErrorKind::Cancelled => TurnFailureErrorClass::ProviderCancelled,
            };
            let status = match kind {
                ProviderErrorKind::HttpStatus { status } => Some(*status),
                _ => None,
            };
            (class, Some(String::from_str(provider)), status, turn_failure_message(message.as_str()))
        },
        TurnFailure::Runtime { message } => (
            TurnFailureErrorClass::Runtime,
            None,
            None,
            turn_failure_message(message.as_str()),
        ),
    };
    TurnFailedPayload {
        turn_id: String::from_str(turn_id),
        error_class,
        provider_id,
        http_status,
        message,
        retries_attempted: if attempts_made == 0 { 0 } else { attempts_made - 1 },
    }
}

proof fn lemma_utf8_bytes_prefix(s: Seq<char>, k: int)
    requires
        0 <= k <= s.len(),
    ensures
        utf8_bytes(s.take(k)) <= utf8_bytes(s),
    decreases s.len() - k,
{
    if k < s.len() {
        lemma_utf8_bytes_prefix(s, k + 1);
        assert(s.take(k + 1).drop_last() =~= s.take(k));
    } else {
        assert(s.take(k) =~= s);
    }
}

proof fn lemma_fitting_chars_props(s: Seq<char>, limit: nat, k: nat)
    requires
        k <= s.len(),
        utf8_bytes(s.take(k as int)) <= limit,
    ensures
        k <= fitting_chars(s, limit, k) <= s.len(),
        utf8_bytes(s.take(fitting_chars(s, limit, k) as int)) <= limit,
        fitting_chars(s, limit, k) < s.len() ==> utf8_bytes(s.take(fitting_chars(s, limit, k) + 1int)) > limit,
        utf8_bytes(s) <= limit ==> fitting_chars(s, limit, k) == s.len(),
    decreases s.len() - k,
{
    if k < s.len() {
        if utf8_bytes(s) <= limit {
            lemma_utf8_bytes_prefix(s, k + 1int);
        }
        if utf8_bytes(s.take(k + 1int)) <= limit {
            lemma_fitting_chars_props(s, limit, k + 1);
        }
    }
}

/// A capped message is a prefix of the text that fits the byte limit and
/// ends on a character boundary; no longer prefix fits; and a text that fits
/// is kept whole.
pub proof fn lemma_capped_text_is_the_longest_fitting_prefix(s: Seq<char>, limit: nat)
    ensures
        capped_text(s, limit).len() <= s.len(),
        capped_text(s, limit) == s.take(capped_text(s, limit).len() as int),
        utf8_bytes(capped_text(s, limit)) <= limit,
        capped_text(s, limit).len() < s.len() ==> utf8_bytes(s.take(capped_text(s, limit).len() + 1int)) > limit,
        utf8_bytes(s) <= limit ==> capped_text(s, limit) == s,
{
    assert(s.take(0) =~= Seq::<char>::empty());
    lemma_fitting_chars_props(s, limit, 0);
    if utf8_bytes(s) <= limit {
        assert(s.take(s.len() as int) =~= s);
    }
}

} // verus!
