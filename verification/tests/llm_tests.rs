use std::time::Duration;

use edgen_core::llm::{
    duration_millis, inactive_llm_session_ttl, inactive_llm_ttl, CompletionArgs, ContextSettings,
    FrequencyPenalty, LLMEndpointError, INACTIVE_LLM_SESSION_TTL_SECS, INACTIVE_LLM_TTL_SECS,
};
use edgen_core::request::{DeviceId, ModelId, Passport, QueueError, RequestKind};
use edgen_core::resource::ResourceVector;

fn a_passport() -> Passport {
    Passport {
        device: DeviceId::Accelerator(1),
        kind: RequestKind::Embeddings,
        requested: ResourceVector::new(1, 2, 3),
        model: ModelId(9),
    }
}

#[test]
fn an_unused_model_lives_five_minutes() {
    assert_eq!(inactive_llm_ttl(), Duration::from_secs(5 * 60));
    assert_eq!(INACTIVE_LLM_TTL_SECS, 300);
}

#[test]
fn an_unused_session_lives_two_minutes() {
    assert_eq!(inactive_llm_session_ttl(), Duration::from_secs(2 * 60));
    assert_eq!(INACTIVE_LLM_SESSION_TTL_SECS, 120);
}

#[test]
fn durations_are_read_in_whole_milliseconds() {
    assert_eq!(duration_millis(&Duration::from_millis(1_500)), 1_500);
    assert_eq!(duration_millis(&Duration::from_secs(3)), 3_000);
    assert_eq!(duration_millis(&Duration::ZERO), 0);
    assert_eq!(duration_millis(&Duration::from_nanos(999_999)), 0);
    assert_eq!(duration_millis(&Duration::from_nanos(1_000_000)), 1);
    assert_eq!(duration_millis(&Duration::new(2, 999_999_999)), 2_999);
    assert_eq!(duration_millis(&inactive_llm_ttl()), 300_000);
    assert_eq!(duration_millis(&inactive_llm_session_ttl()), 120_000);
    assert_eq!(duration_millis(&Duration::MAX), u64::MAX);
}

#[test]
fn default_completion_args() {
    let args = CompletionArgs::default();
    assert!(!args.one_shot);
    assert_eq!(args.seed, None);
    assert_eq!(args.frequency_penalty, FrequencyPenalty { bits: 0 });
    assert_eq!(f32::from_bits(args.frequency_penalty.bits), 0.0);
    assert_eq!(args.context_hint, None);
}

#[test]
fn context_settings_keep_their_values() {
    let settings = ContextSettings::new(8, 2048);
    assert_eq!(settings.threads, 8);
    assert_eq!(settings.size, 2048);
}

#[test]
fn every_error_has_its_text() {
    assert_eq!(
        LLMEndpointError::Advance("eof".to_string()).message(),
        "failed to advance context: eof"
    );
    assert_eq!(
        LLMEndpointError::Load("no such file".to_string()).message(),
        "failed to load the model: no such file"
    );
    assert_eq!(
        LLMEndpointError::SessionCreationFailed("out of slots".to_string()).message(),
        "failed to create a new session: out of slots"
    );
    assert_eq!(
        LLMEndpointError::Embeddings("bad input".to_string()).message(),
        "failed to create embeddings: bad input"
    );
    assert_eq!(
        LLMEndpointError::UnsuitableEndpoint("whisper".to_string()).message(),
        "unsuitable endpoint for model: whisper"
    );
    assert_eq!(
        LLMEndpointError::Queue(QueueError::Timeout).message(),
        "could not submit request"
    );
    assert_eq!(
        LLMEndpointError::Retry(a_passport()).message(),
        "request must be enqueued again with the provided passport"
    );
    assert_eq!(LLMEndpointError::Load(String::new()).message(), "failed to load the model: ");
}

#[test]
fn a_queue_error_becomes_an_endpoint_error() {
    assert_eq!(
        LLMEndpointError::from(QueueError::Full),
        LLMEndpointError::Queue(QueueError::Full)
    );
    assert_eq!(
        LLMEndpointError::from(QueueError::Timeout),
        LLMEndpointError::Queue(QueueError::Timeout)
    );
    let converted: LLMEndpointError = QueueError::Cancelled.into();
    assert_eq!(converted, LLMEndpointError::Queue(QueueError::Cancelled));
}

#[test]
fn which_errors_may_be_tried_again() {
    assert!(LLMEndpointError::Retry(a_passport()).is_retryable());
    assert!(LLMEndpointError::Queue(QueueError::Full).is_retryable());
    assert!(LLMEndpointError::Queue(QueueError::Timeout).is_retryable());
    assert!(!LLMEndpointError::Queue(QueueError::Cancelled).is_retryable());
    assert!(!LLMEndpointError::Load("x".to_string()).is_retryable());
    assert!(!LLMEndpointError::Advance("x".to_string()).is_retryable());
    assert!(!LLMEndpointError::SessionCreationFailed("x".to_string()).is_retryable());
    assert!(!LLMEndpointError::Embeddings("x".to_string()).is_retryable());
    assert!(!LLMEndpointError::UnsuitableEndpoint("x".to_string()).is_retryable());
}

#[test]
fn the_lifetimes_have_no_fraction_of_a_second() {
    assert_eq!(inactive_llm_ttl().subsec_nanos(), 0);
    assert_eq!(inactive_llm_ttl().subsec_millis(), 0);
    assert_eq!(inactive_llm_ttl().as_secs(), 300);
    assert_eq!(inactive_llm_session_ttl().subsec_nanos(), 0);
    assert_eq!(inactive_llm_session_ttl().subsec_millis(), 0);
    assert_eq!(inactive_llm_session_ttl().as_secs(), 120);
}
