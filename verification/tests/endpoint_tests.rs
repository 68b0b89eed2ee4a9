use edgen_core::endpoint::{authorize, conclude, poll_admission, request_admission};
use edgen_core::llm::{
    duration_millis, inactive_llm_session_ttl, CompletionArgs, ContextSettings, LLMEndpointError,
};
use edgen_core::queue::{Admission, AdmissionQueue, QueueConfig, WaitToken};
use edgen_core::reaper::{LifecycleReaper, ReaperConfig};
use edgen_core::request::{
    ArtifactKind, DeviceId, ModelId, Passport, QueueError, RequestKind, ResourceUser, Ticket,
};
use edgen_core::requirements::{completion_requirements, ModelCosts, ModelProfile};
use edgen_core::resource::ResourceVector;

fn units(n: u64) -> ResourceVector {
    ResourceVector::new(n, n, n)
}

fn passport(n: u64) -> Passport {
    Passport {
        device: DeviceId::Cpu,
        kind: RequestKind::CompletionSession,
        requested: units(n),
        model: ModelId(1),
    }
}

fn queue_of(total: u64, max_waiting: usize) -> AdmissionQueue {
    let mut queue = AdmissionQueue::new(QueueConfig { max_waiting, admission_timeout: 100 });
    assert!(queue.add_device(DeviceId::Cpu, units(total)));
    queue
}

fn granted(outcome: Result<Admission, LLMEndpointError>) -> Ticket {
    match outcome {
        Ok(Admission::Granted(ticket)) => ticket,
        other => panic!("expected a ticket, got {:?}", other),
    }
}

fn waiting(outcome: Result<Admission, LLMEndpointError>) -> WaitToken {
    match outcome {
        Ok(Admission::Waiting(token)) => token,
        other => panic!("expected to wait, got {:?}", other),
    }
}

#[test]
fn admission_errors_are_wrapped() {
    let mut queue = queue_of(10, 1);
    let held = granted(request_admission(&mut queue, passport(10), 0));
    let token = waiting(request_admission(&mut queue, passport(1), 0));
    assert_eq!(
        request_admission(&mut queue, passport(1), 0).err(),
        Some(LLMEndpointError::Queue(QueueError::Full))
    );
    assert!(matches!(poll_admission(&mut queue, &token, 50), Ok(None)));
    assert_eq!(
        poll_admission(&mut queue, &token, 100).err(),
        Some(LLMEndpointError::Queue(QueueError::Timeout))
    );
    assert_eq!(
        poll_admission(&mut queue, &token, 101).err(),
        Some(LLMEndpointError::Queue(QueueError::Cancelled))
    );
    let next = waiting(request_admission(&mut queue, passport(3), 200));
    assert!(queue.release(held));
    let ticket = poll_admission(&mut queue, &next, 201).unwrap().unwrap();
    assert_eq!(ticket.grant(), units(3));
}

#[test]
fn a_valid_ticket_is_authorized() {
    let mut queue = queue_of(10, 1);
    let ticket = granted(request_admission(&mut queue, passport(6), 0));
    assert_eq!(authorize(&queue, &ticket), Ok(()));
    assert!(queue.release(ticket.clone()));
    assert_eq!(authorize(&queue, &ticket), Err(LLMEndpointError::Retry(passport(6))));
}

#[test]
fn an_operation_gives_its_ticket_back_however_it_ends() {
    let mut queue = queue_of(10, 1);
    let ticket = granted(request_admission(&mut queue, passport(6), 0));
    let done: Result<String, LLMEndpointError> =
        conclude(&mut queue, ticket, Ok("the answer".to_string()));
    assert_eq!(done, Ok("the answer".to_string()));
    assert_eq!(queue.available(DeviceId::Cpu), units(10));

    let ticket = granted(request_admission(&mut queue, passport(6), 0));
    let copy = ticket.clone();
    let failed: Result<String, LLMEndpointError> =
        conclude(&mut queue, ticket, Err(LLMEndpointError::Advance("eof".to_string())));
    assert_eq!(failed, Err(LLMEndpointError::Advance("eof".to_string())));
    assert!(!queue.is_valid(&copy));
    assert_eq!(queue.available(DeviceId::Cpu), units(10));
}

#[test]
fn an_operation_under_a_revoked_ticket_must_be_retried() {
    let mut queue = queue_of(10, 1);
    let ticket = granted(request_admission(&mut queue, passport(6), 0));
    queue.reset();
    let spoiled: Result<u32, LLMEndpointError> = conclude(&mut queue, ticket.clone(), Ok(7));
    assert_eq!(spoiled, Err(LLMEndpointError::Retry(passport(6))));
    let spoiled: Result<u32, LLMEndpointError> =
        conclude(&mut queue, ticket, Err(LLMEndpointError::Load("gone".to_string())));
    assert_eq!(spoiled, Err(LLMEndpointError::Retry(passport(6))));
    assert_eq!(queue.available(DeviceId::Cpu), units(10));
}

#[test]
fn a_flush_in_mid_flight_and_the_way_back() {
    let mut queue = queue_of(10, 4);
    let mut reaper = LifecycleReaper::new(ReaperConfig::with_default_timeouts(1_000));
    let weights = ResourceUser {
        id: 1,
        model: ModelId(1),
        kind: ArtifactKind::Model,
        footprint: units(3),
    };
    assert!(queue.register_user(DeviceId::Cpu, weights));
    reaper.track(&weights, 0);
    let first = granted(request_admission(&mut queue, passport(4), 0));
    let second = granted(request_admission(&mut queue, passport(3), 0));
    assert_eq!(queue.available(DeviceId::Cpu), ResourceVector::zero());

    assert_eq!(reaper.reset(&mut queue), vec![weights]);

    let mut returned: Vec<Passport> = Vec::new();
    for ticket in [first, second] {
        match authorize(&queue, &ticket) {
            Err(LLMEndpointError::Retry(passport)) => returned.push(passport),
            other => panic!("expected a retry, got {:?}", other),
        }
        let ended: Result<(), LLMEndpointError> = conclude(&mut queue, ticket, Ok(()));
        assert!(matches!(ended, Err(LLMEndpointError::Retry(_))));
    }
    assert_eq!(returned, vec![passport(4), passport(3)]);
    assert_eq!(queue.available(DeviceId::Cpu), units(10));

    // the very passports go back in, with no new estimate
    let mut again: Vec<Ticket> = Vec::new();
    for passport in returned {
        again.push(granted(request_admission(&mut queue, passport, 10)));
    }
    assert_eq!(again[0].passport(), passport(4));
    assert_eq!(again[1].passport(), passport(3));
    assert_eq!(queue.available(DeviceId::Cpu), units(3));
    for ticket in again.iter() {
        assert_eq!(authorize(&queue, ticket), Ok(()));
    }
}

#[test]
fn from_estimate_to_release() {
    let mut queue = queue_of(10_000, 4);
    let profile = ModelProfile {
        model: ModelId(1),
        completions: true,
        embeddings: false,
        loaded: true,
        costs: Some(ModelCosts {
            load: units(5_000),
            session: ResourceVector::new(0, 0, 100),
            memory_per_token: 1,
        }),
    };
    let settings = ContextSettings::new(2, 512);
    let args = CompletionArgs { one_shot: false, ..CompletionArgs::default() };
    let passport =
        completion_requirements(&profile, &settings, DeviceId::Cpu, "hi", &args).unwrap();
    assert_eq!(passport.requested, ResourceVector::new(2, 512, 612));
    let ticket = granted(request_admission(&mut queue, passport, 0));
    assert_eq!(queue.available(DeviceId::Cpu), ResourceVector::new(9_998, 9_488, 9_388));
    assert_eq!(authorize(&queue, &ticket), Ok(()));
    let text: Result<&str, LLMEndpointError> = conclude(&mut queue, ticket, Ok("hello"));
    assert_eq!(text, Ok("hello"));
    assert_eq!(queue.available(DeviceId::Cpu), units(10_000));
}

fn chat_model() -> ModelProfile {
    ModelProfile {
        model: ModelId(1),
        completions: true,
        embeddings: false,
        loaded: true,
        costs: Some(ModelCosts {
            load: units(4_000),
            session: ResourceVector::new(0, 0, 300),
            memory_per_token: 2,
        }),
    }
}

#[test]
fn an_idle_session_is_reaped_after_its_stream_and_returns_its_share_once() {
    let session_ttl = duration_millis(&inactive_llm_session_ttl());
    let mut queue = queue_of(10_000, 4);
    let mut reaper = LifecycleReaper::new(ReaperConfig::with_default_timeouts(1_000));
    let weights = ResourceUser {
        id: 1,
        model: ModelId(1),
        kind: ArtifactKind::Model,
        footprint: units(4_000),
    };
    let context = ResourceUser {
        id: 2,
        model: ModelId(1),
        kind: ArtifactKind::Session,
        footprint: ResourceVector::new(0, 0, 300),
    };
    assert!(queue.register_user(DeviceId::Cpu, weights));
    assert!(queue.register_user(DeviceId::Cpu, context));
    reaper.track(&weights, 0);
    reaper.track(&context, 0);

    let args = CompletionArgs::default();
    assert!(!args.one_shot);
    let passport = completion_requirements(
        &chat_model(),
        &ContextSettings::new(2, 100),
        DeviceId::Cpu,
        "hi",
        &args,
    )
    .unwrap();
    assert_eq!(passport.kind, RequestKind::CompletionSession);
    assert_eq!(passport.requested, ResourceVector::new(2, 100, 500));
    reaper.touch_used_by(&passport, 10);
    let stream = granted(request_admission(&mut queue, passport, 10));
    let done: Result<(), LLMEndpointError> = conclude(&mut queue, stream, Ok(()));
    assert_eq!(done, Ok(()));

    let before = queue.available(DeviceId::Cpu);
    assert_eq!(before, ResourceVector::new(6_000, 6_000, 5_700));
    assert!(reaper.sweep(&mut queue, 10 + session_ttl - 1).is_empty());
    assert_eq!(queue.available(DeviceId::Cpu), before);
    assert_eq!(reaper.sweep(&mut queue, 10 + session_ttl), vec![context]);
    assert_eq!(queue.available(DeviceId::Cpu), ResourceVector::new(6_000, 6_000, 6_000));
    assert_eq!(
        queue.available(DeviceId::Cpu),
        before.checked_add(&context.footprint).unwrap()
    );
    // once only, and the model keeps what it holds
    assert!(reaper.sweep(&mut queue, 10 + session_ttl + 1).is_empty());
    assert_eq!(queue.available(DeviceId::Cpu), ResourceVector::new(6_000, 6_000, 6_000));
    assert!(queue.ledger().is_registered(1));
    assert!(!queue.ledger().is_registered(2));
    assert_eq!(queue.ledger().committed(DeviceId::Cpu), weights.footprint);
}

#[test]
fn a_returned_passport_is_granted_again_without_a_new_estimate() {
    let mut queue = queue_of(10_000, 4);
    let mut reaper = LifecycleReaper::new(ReaperConfig::with_default_timeouts(1_000));
    let passport = completion_requirements(
        &chat_model(),
        &ContextSettings::new(2, 100),
        DeviceId::Cpu,
        "hi",
        &CompletionArgs::default(),
    )
    .unwrap();
    let ticket = granted(request_admission(&mut queue, passport, 0));
    assert!(reaper.reset(&mut queue).is_empty());
    let spoiled: Result<String, LLMEndpointError> =
        conclude(&mut queue, ticket, Ok("half a reply".to_string()));
    let returned = match spoiled {
        Err(LLMEndpointError::Retry(returned)) => returned,
        other => panic!("expected a retry, got {:?}", other),
    };
    assert_eq!(returned, passport);

    let before = queue.available(DeviceId::Cpu);
    assert_eq!(before, units(10_000));
    assert!(returned.requested.fits_within(&before));
    assert_eq!(queue.waiting_on(DeviceId::Cpu), 0);
    let again = granted(request_admission(&mut queue, returned, 5));
    assert_eq!(again.passport(), passport);
    assert_eq!(again.grant(), passport.requested);
    assert!(queue.is_valid(&again));
    assert_eq!(
        queue.available(DeviceId::Cpu),
        before.checked_sub(&passport.requested).unwrap()
    );
    assert_eq!(queue.available(DeviceId::Cpu), ResourceVector::new(9_998, 9_900, 9_500));
}
