use edgen_core::llm::{CompletionArgs, ContextSettings, FrequencyPenalty, LLMEndpointError};
use edgen_core::request::{DeviceId, ModelId, Passport, RequestKind};
use edgen_core::requirements::{
    completion_requirements, embedding_requirements, ModelCosts, ModelProfile,
};
use edgen_core::resource::ResourceVector;

fn costs() -> ModelCosts {
    ModelCosts {
        load: ResourceVector::new(0, 0, 4_000),
        session: ResourceVector::new(1, 16, 500),
        memory_per_token: 2,
    }
}

fn profile() -> ModelProfile {
    ModelProfile {
        model: ModelId(3),
        completions: true,
        embeddings: true,
        loaded: false,
        costs: Some(costs()),
    }
}

fn settings() -> ContextSettings {
    ContextSettings::new(4, 100)
}

fn args(one_shot: bool, context_hint: Option<u32>) -> CompletionArgs {
    CompletionArgs {
        one_shot,
        seed: Some(1),
        frequency_penalty: FrequencyPenalty { bits: 0 },
        context_hint,
    }
}

#[test]
fn a_session_completion_on_an_unloaded_model() {
    let passport =
        completion_requirements(&profile(), &settings(), DeviceId::Cpu, "hello", &args(false, None))
            .unwrap();
    // load (0, 0, 4000) + session (1, 16, 500) + sized (4, 100, 2 * 100)
    assert_eq!(
        passport,
        Passport {
            device: DeviceId::Cpu,
            kind: RequestKind::CompletionSession,
            requested: ResourceVector::new(5, 116, 4_700),
            model: ModelId(3),
        }
    );
}

#[test]
fn a_one_shot_completion_pays_for_no_session() {
    let passport =
        completion_requirements(&profile(), &settings(), DeviceId::Cpu, "hello", &args(true, None))
            .unwrap();
    assert_eq!(passport.kind, RequestKind::CompletionOneShot);
    assert_eq!(passport.requested, ResourceVector::new(4, 100, 4_200));
}

#[test]
fn a_loaded_model_is_not_paid_for_again() {
    let loaded = ModelProfile { loaded: true, ..profile() };
    let passport = completion_requirements(
        &loaded,
        &settings(),
        DeviceId::Accelerator(2),
        "hello",
        &args(true, None),
    )
    .unwrap();
    assert_eq!(passport.device, DeviceId::Accelerator(2));
    assert_eq!(passport.requested, ResourceVector::new(4, 100, 200));
}

#[test]
fn a_larger_hint_asks_for_more() {
    let small = completion_requirements(
        &profile(),
        &settings(),
        DeviceId::Cpu,
        "hello",
        &args(true, Some(10)),
    )
    .unwrap();
    let large = completion_requirements(
        &profile(),
        &settings(),
        DeviceId::Cpu,
        "hello",
        &args(true, Some(1_000)),
    )
    .unwrap();
    assert_eq!(small.requested, ResourceVector::new(4, 10, 4_020));
    assert_eq!(large.requested, ResourceVector::new(4, 1_000, 6_000));
    assert!(small.requested.fits_within(&large.requested));
}

#[test]
fn a_prompt_longer_than_the_hint_is_priced_by_its_length() {
    let prompt = "x".repeat(250);
    let passport = completion_requirements(
        &profile(),
        &settings(),
        DeviceId::Cpu,
        &prompt,
        &args(true, Some(10)),
    )
    .unwrap();
    assert_eq!(passport.requested, ResourceVector::new(4, 250, 4_500));
}

#[test]
fn a_prompt_is_measured_in_characters() {
    // four characters, twelve bytes
    let passport = completion_requirements(
        &profile(),
        &settings(),
        DeviceId::Cpu,
        "日本語の",
        &args(true, Some(0)),
    )
    .unwrap();
    assert_eq!(passport.requested, ResourceVector::new(4, 4, 4_008));
}

#[test]
fn an_empty_prompt_without_a_hint_takes_the_default_size() {
    let zero = ContextSettings::new(0, 0);
    let passport =
        completion_requirements(&profile(), &zero, DeviceId::Cpu, "", &args(true, None)).unwrap();
    assert_eq!(passport.requested, ResourceVector::new(0, 0, 4_000));
}

#[test]
fn an_estimate_stops_at_the_top() {
    let huge = ModelProfile {
        costs: Some(ModelCosts {
            load: ResourceVector::new(u64::MAX, 0, u64::MAX - 10),
            session: ResourceVector::new(0, u64::MAX - 5, 0),
            memory_per_token: u64::MAX / 2,
        }),
        ..profile()
    };
    let passport =
        completion_requirements(&huge, &settings(), DeviceId::Cpu, "", &args(false, Some(3)))
            .unwrap();
    assert_eq!(passport.requested, ResourceVector::new(u64::MAX, u64::MAX - 2, u64::MAX));
}

#[test]
fn asking_twice_gives_the_same_passport() {
    let first = completion_requirements(
        &profile(),
        &settings(),
        DeviceId::Cpu,
        "tell me a story",
        &args(false, Some(512)),
    );
    let second = completion_requirements(
        &profile(),
        &settings(),
        DeviceId::Cpu,
        "tell me a story",
        &args(false, Some(512)),
    );
    assert_eq!(first, second);
    assert!(first.is_ok());
    let inputs = vec!["one".to_string(), "two".to_string()];
    assert_eq!(
        embedding_requirements(&profile(), &settings(), DeviceId::Cpu, &inputs),
        embedding_requirements(&profile(), &settings(), DeviceId::Cpu, &inputs)
    );
}

#[test]
fn a_model_without_completions_is_unsuitable() {
    let embeddings_only = ModelProfile { completions: false, ..profile() };
    assert_eq!(
        completion_requirements(
            &embeddings_only,
            &settings(),
            DeviceId::Cpu,
            "hello",
            &args(false, None)
        ),
        Err(LLMEndpointError::UnsuitableEndpoint(
            "the model does not offer completions".to_string()
        ))
    );
    // whether or not it can be inspected
    let opaque = ModelProfile { costs: None, ..embeddings_only };
    assert!(matches!(
        completion_requirements(&opaque, &settings(), DeviceId::Cpu, "hello", &args(false, None)),
        Err(LLMEndpointError::UnsuitableEndpoint(_))
    ));
}

#[test]
fn a_model_that_cannot_be_inspected_fails_a_completion_estimate() {
    let opaque = ModelProfile { costs: None, ..profile() };
    assert_eq!(
        completion_requirements(&opaque, &settings(), DeviceId::Cpu, "hello", &args(false, None)),
        Err(LLMEndpointError::Advance("the model could not be inspected".to_string()))
    );
}

#[test]
fn embeddings_are_priced_by_the_batch() {
    let inputs = vec!["alpha".to_string(), String::new(), "beta".to_string()];
    let passport =
        embedding_requirements(&profile(), &settings(), DeviceId::Cpu, &inputs).unwrap();
    // load (0, 0, 4000) + sized (4, 9, 2 * 9), and no session
    assert_eq!(
        passport,
        Passport {
            device: DeviceId::Cpu,
            kind: RequestKind::Embeddings,
            requested: ResourceVector::new(4, 9, 4_018),
            model: ModelId(3),
        }
    );
}

#[test]
fn an_empty_batch_costs_the_load_and_the_threads() {
    let passport = embedding_requirements(&profile(), &settings(), DeviceId::Cpu, &[]).unwrap();
    assert_eq!(passport.requested, ResourceVector::new(4, 0, 4_000));
    let loaded = ModelProfile { loaded: true, ..profile() };
    let passport = embedding_requirements(&loaded, &settings(), DeviceId::Cpu, &[]).unwrap();
    assert_eq!(passport.requested, ResourceVector::new(4, 0, 0));
}

#[test]
fn a_model_without_embeddings_is_unsuitable() {
    let chat_only = ModelProfile { embeddings: false, ..profile() };
    assert_eq!(
        embedding_requirements(&chat_only, &settings(), DeviceId::Cpu, &["x".to_string()]),
        Err(LLMEndpointError::UnsuitableEndpoint(
            "the model does not offer embeddings".to_string()
        ))
    );
}

#[test]
fn a_model_that_cannot_be_inspected_fails_an_embedding_estimate() {
    let opaque = ModelProfile { costs: None, ..profile() };
    assert_eq!(
        embedding_requirements(&opaque, &settings(), DeviceId::Cpu, &["x".to_string()]),
        Err(LLMEndpointError::Embeddings("the model could not be inspected".to_string()))
    );
}
