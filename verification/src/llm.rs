//! What an endpoint for large language models and its callers share: the
//! context tags, the errors, the arguments of a completion, and the
//! settings that size a context.

use core::time::Duration;
use vstd::prelude::*;
use vstd::string::*;
use crate::request::{Passport, QueueError};

verus! {

/// The context tag marking the start of generated dialogue.
pub const ASSISTANT_TAG: &'static str = "<|ASSISTANT|>";

/// The context tag marking the start of user dialogue.
pub const USER_TAG: &'static str = "<|USER|>";

/// The context tag marking the start of a tool's output.
pub const TOOL_TAG: &'static str = "<|TOOL|>";

/// The context tag marking the start of system information.
pub const SYSTEM_TAG: &'static str = "<|SYSTEM|>";

/// Why an operation of an endpoint failed.
#[derive(Clone, Debug, PartialEq, Eq)]
pub enum LLMEndpointError {
    /// The context could not be advanced; generation was aborted.
    Advance(String),
    /// The model could not be loaded.
    Load(String),
    /// No session could be created.
    SessionCreationFailed(String),
    /// Embeddings could not be created, for whatever reason on their path.
    Embeddings(String),
    /// The model does not offer the operation that was asked of it.
    UnsuitableEndpoint(String),
    /// The admission queue turned the request away.
    Queue(QueueError),
    /// The ticket of the request was revoked: the request must go through
    /// the admission queue again, with this very passport.
    Retry(Passport),
}

impl LLMEndpointError {
    /// The text of the error: what failed, followed by the detail where the
    /// error carries one.
    pub open spec fn message_spec(self) -> Seq<char> {
        match self {
            LLMEndpointError::Advance(detail) => "failed to advance context: "@ + detail@,
            LLMEndpointError::Load(detail) => "failed to load the model: "@ + detail@,
            LLMEndpointError::SessionCreationFailed(detail) => "failed to create a new session: "@
                + detail@,
            LLMEndpointError::Embeddings(detail) => "failed to create embeddings: "@ + detail@,
            LLMEndpointError::UnsuitableEndpoint(detail) => "unsuitable endpoint for model: "@
                + detail@,
            LLMEndpointError::Queue(_) => "could not submit request"@,
            LLMEndpointError::Retry(_) => "request must be enqueued again with the provided passport"@,
        }
    }

    /// The text of the error.
    pub fn message(&self) -> (text: String)
        ensures
            text@ == self.message_spec(),
    {
        match self {
            LLMEndpointError::Advance(detail) => with_detail(
                "failed to advance context: ",
                detail,
            ),
            LLMEndpointError::Load(detail) => with_detail("failed to load the model: ", detail),
            LLMEndpointError::SessionCreationFailed(detail) => with_detail(
                "failed to create a new session: ",
                detail,
            ),
            LLMEndpointError::Embeddings(detail) => with_detail(
                "failed to create embeddings: ",
                detail,
            ),
            LLMEndpointError::UnsuitableEndpoint(detail) => with_detail(
                "unsuitable endpoint for model: ",
                detail,
            ),
            LLMEndpointError::Queue(_) => "could not submit request".to_owned(),
            LLMEndpointError::Retry(_) => {
                "request must be enqueued again with the provided passport".to_owned()
            },
        }
    }

    /// Whether the caller may safely try the request again: after a full or
    /// timed-out queue once it has backed off, and after a revoked ticket
    /// with the passport that the error returns.
    pub fn is_retryable(&self) -> (retryable: bool)
        ensures
            retryable == (self matches LLMEndpointError::Retry(_) || self
                == LLMEndpointError::Queue(QueueError::Full) || self == LLMEndpointError::Queue(
                QueueError::Timeout,
            )),
    {
        match self {
            LLMEndpointError::Retry(_) => true,
            LLMEndpointError::Queue(QueueError::Full) => true,
            LLMEndpointError::Queue(QueueError::Timeout) => true,
            _ => false,
        }
    }
}

/// `prefix` followed by `detail`.
fn with_detail(prefix: &str, detail: &String) -> (text: String)
    ensures
        text@ == prefix@ + detail@,
{
    let mut text: String = prefix.to_owned();
    text.append(detail.as_str());
    text
}

impl From<QueueError> for LLMEndpointError {
    fn from(error: QueueError) -> (wrapped: LLMEndpointError) {
        LLMEndpointError::Queue(error)
    }
}

impl vstd::std_specs::convert::FromSpecImpl<QueueError> for LLMEndpointError {
    open spec fn obeys_from_spec() -> bool {
        true
    }

    open spec fn from_spec(error: QueueError) -> LLMEndpointError {
        LLMEndpointError::Queue(error)
    }
}

/// A frequency penalty, kept as the bit pattern of the single-precision
/// number that the caller gave. The library carries it; it never computes
/// with it.
#[derive(Clone, Copy, Debug, PartialEq, Eq, Structural)]
pub struct FrequencyPenalty {
    pub bits: u32,
}

/// The parameters that shape a completion.
#[derive(Clone, Copy, Debug, PartialEq, Eq, Structural)]
pub struct CompletionArgs {
    /// Whether the completion leaves no session behind.
    pub one_shot: bool,
    /// The seed that makes the completion repeatable, if there is one.
    pub seed: Option<u32>,
    /// The penalty on repeated tokens.
    pub frequency_penalty: FrequencyPenalty,
    /// How large a context the caller expects to need, if it says so.
    pub context_hint: Option<u32>,
}

impl Default for CompletionArgs {
    /// A completion within a session, unseeded, with no penalty and no hint.
    fn default() -> (args: CompletionArgs)
        ensures
            args == (CompletionArgs {
                one_shot: false,
                seed: None,
                frequency_penalty: FrequencyPenalty { bits: 0 },
                context_hint: None,
            }),
    {
        CompletionArgs {
            one_shot: false,
            seed: None,
            frequency_penalty: FrequencyPenalty { bits: 0 },
            context_hint: None,
        }
    }
}

/// The whole seconds of a duration.
pub uninterp spec fn duration_secs(duration: Duration) -> u64;

/// The whole milliseconds of the part of a duration that is less than one
/// second.
pub uninterp spec fn duration_subsec_millis(duration: Duration) -> u32;

/// The nanoseconds of the part of a duration that is less than one second:
/// what `Duration::subsec_nanos` returns.
pub uninterp spec fn duration_subsec_nanos(duration: Duration) -> u32;

/// `Duration::from_secs` makes the duration of that many whole seconds and
/// no fraction of a second, neither in milliseconds nor in nanoseconds.
pub assume_specification[ Duration::from_secs ](secs: u64) -> (duration: Duration)
    ensures
        duration_secs(duration) == secs,
        duration_subsec_millis(duration) == 0,
        duration_subsec_nanos(duration) == 0,
;

/// `Duration::as_secs` returns the whole seconds of the duration.
pub assume_specification[ Duration::as_secs ](duration: &Duration) -> (secs: u64)
    ensures
        secs == duration_secs(*duration),
;

/// `Duration::subsec_millis` returns the whole milliseconds of the part of
/// the duration that is less than one second, so fewer than a thousand.
pub assume_specification[ Duration::subsec_millis ](duration: &Duration) -> (millis: u32)
    ensures
        millis == duration_subsec_millis(*duration),
        millis < 1000,
;

/// The seconds for which a model may stay unused before it is unloaded.
pub const INACTIVE_LLM_TTL_SECS: u64 = 300;

/// The seconds for which a session may stay unused before it is unloaded.
pub const INACTIVE_LLM_SESSION_TTL_SECS: u64 = 120;

/// Return the [`Duration`] for which a large language model lives while not
/// being used before being unloaded from memory: five minutes.
pub fn inactive_llm_ttl() -> (ttl: Duration)
    ensures
        duration_secs(ttl) == 300,
        duration_subsec_millis(ttl) == 0,
        duration_subsec_nanos(ttl) == 0,
{
    Duration::from_secs(INACTIVE_LLM_TTL_SECS)
}

/// Return the [`Duration`] for which a large language model session lives
/// while not being used before being unloaded from memory: two minutes.
pub fn inactive_llm_session_ttl() -> (ttl: Duration)
    ensures
        duration_secs(ttl) == 120,
        duration_subsec_millis(ttl) == 0,
        duration_subsec_nanos(ttl) == 0,
{
    Duration::from_secs(INACTIVE_LLM_SESSION_TTL_SECS)
}

/// The milliseconds of a duration, as a number.
pub open spec fn millis_of(duration: Duration) -> int {
    duration_secs(duration) * 1000 + duration_subsec_millis(duration)
}

/// The whole milliseconds of `duration`, stopping at `u64::MAX`.
pub fn duration_millis(duration: &Duration) -> (millis: u64)
    ensures
        millis == crate::resource::clamp_u64(millis_of(*duration)),
{
    let secs: u64 = duration.as_secs();
    let fraction: u64 = duration.subsec_millis() as u64;
    crate::resource::saturating_mul_u64(secs, 1000).saturating_add(fraction)
}

/// The settings that size a context.
#[derive(Clone, Copy, Debug, PartialEq, Eq, Structural)]
pub struct ContextSettings {
    /// The number of threads a process should use.
    pub threads: u32,
    /// The size of a context (where applicable).
    pub size: u32,
}

impl ContextSettings {
    /// The settings with the given number of threads and context size.
    pub fn new(threads: u32, size: u32) -> (settings: ContextSettings)
        ensures
            settings.threads == threads,
            settings.size == size,
    {
        ContextSettings { threads, size }
    }
}

} // verus!
