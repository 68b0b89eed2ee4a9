use std::time::Duration;

use edgen_core::queue::{Admission, AdmissionQueue, QueueConfig};
use edgen_core::reaper::{LifecycleReaper, ReaperConfig, Timer};
use edgen_core::request::{
    ArtifactKind, DeviceId, ModelId, Passport, RequestKind, ResourceUser, Ticket,
};
use edgen_core::resource::ResourceVector;

const MODEL_TTL: u64 = 300_000;
const SESSION_TTL: u64 = 120_000;
const REARM: u64 = 1_000;

fn units(n: u64) -> ResourceVector {
    ResourceVector::new(n, n, n)
}

fn config() -> ReaperConfig {
    ReaperConfig { model_ttl: MODEL_TTL, session_ttl: SESSION_TTL, rearm_delay: REARM }
}

fn queue_of(total: u64) -> AdmissionQueue {
    let mut queue = AdmissionQueue::new(QueueConfig { max_waiting: 4, admission_timeout: 1_000 });
    assert!(queue.add_device(DeviceId::Cpu, units(total)));
    queue
}

fn model(id: u64, footprint: u64) -> ResourceUser {
    ResourceUser { id, model: ModelId(1), kind: ArtifactKind::Model, footprint: units(footprint) }
}

fn session(id: u64, footprint: u64) -> ResourceUser {
    ResourceUser { id, model: ModelId(1), kind: ArtifactKind::Session, footprint: units(footprint) }
}

fn ticket_for(queue: &mut AdmissionQueue, kind: RequestKind, n: u64, now: u64) -> Ticket {
    let passport =
        Passport { device: DeviceId::Cpu, kind, requested: units(n), model: ModelId(1) };
    match queue.submit(passport, now) {
        Ok(Admission::Granted(ticket)) => ticket,
        other => panic!("expected a ticket, got {:?}", other),
    }
}

#[test]
fn default_timeouts_are_five_and_two_minutes() {
    let config = ReaperConfig::with_default_timeouts(250);
    assert_eq!(config.model_ttl, 300_000);
    assert_eq!(config.session_ttl, 120_000);
    assert_eq!(config.rearm_delay, 250);
    assert_eq!(config.ttl_of(ArtifactKind::Model), 300_000);
    assert_eq!(config.ttl_of(ArtifactKind::Session), 120_000);
}

#[test]
fn times_are_taken_from_durations_in_milliseconds() {
    let config = ReaperConfig::from_durations(
        &Duration::from_secs(7),
        &Duration::from_millis(2_345),
        &Duration::from_micros(1_999),
    );
    assert_eq!(config.model_ttl, 7_000);
    assert_eq!(config.session_ttl, 2_345);
    assert_eq!(config.rearm_delay, 1);
    let long = ReaperConfig::from_durations(
        &Duration::from_secs(u64::MAX),
        &Duration::from_secs(u64::MAX / 1000),
        &Duration::new(u64::MAX / 1000, 999_000_000),
    );
    assert_eq!(long.model_ttl, u64::MAX);
    assert_eq!(long.session_ttl, (u64::MAX / 1000) * 1000);
    assert_eq!(long.rearm_delay, u64::MAX);
    let last = ReaperConfig::from_durations(
        &Duration::new(u64::MAX / 1000, 614_999_999),
        &Duration::new(u64::MAX / 1000, 615_000_000),
        &Duration::new(u64::MAX / 1000, 616_000_000),
    );
    assert_eq!(last.model_ttl, u64::MAX - 1);
    assert_eq!(last.session_ttl, u64::MAX);
    assert_eq!(last.rearm_delay, u64::MAX);
}

#[test]
fn a_new_reaper_tracks_nothing() {
    let reaper = LifecycleReaper::new(config());
    assert_eq!(reaper.config(), config());
    assert_eq!(reaper.next_due(), None);
    assert_eq!(reaper.timer(1), None);
}

#[test]
fn tracking_arms_the_timer_of_the_kind() {
    let mut reaper = LifecycleReaper::new(config());
    reaper.track(&model(1, 0), 10);
    reaper.track(&session(2, 0), 20);
    assert_eq!(
        reaper.timer(1),
        Some(Timer { user_id: 1, model: ModelId(1), kind: ArtifactKind::Model, due: 10 + MODEL_TTL })
    );
    assert_eq!(
        reaper.timer(2),
        Some(Timer { user_id: 2, model: ModelId(1), kind: ArtifactKind::Session, due: 20 + SESSION_TTL })
    );
    assert_eq!(reaper.next_due(), Some(20 + SESSION_TTL));
    // tracking again starts the timer anew and adds none
    reaper.track(&model(1, 0), 1_000);
    assert_eq!(reaper.timer(1).unwrap().due, 1_000 + MODEL_TTL);
    assert!(reaper.forget(1));
    assert_eq!(reaper.timer(1), None);
    assert!(!reaper.forget(1));
}

#[test]
fn touching_starts_the_timer_anew() {
    let mut reaper = LifecycleReaper::new(config());
    reaper.track(&session(2, 0), 0);
    assert!(reaper.touch(2, 500));
    assert_eq!(
        reaper.timer(2),
        Some(Timer { user_id: 2, model: ModelId(1), kind: ArtifactKind::Session, due: 500 + SESSION_TTL })
    );
    assert!(!reaper.touch(3, 500));
    assert_eq!(reaper.timer(3), None);
    assert!(reaper.touch(2, u64::MAX - 5));
    assert_eq!(reaper.timer(2).unwrap().due, u64::MAX);
}

#[test]
fn the_next_due_time_is_the_earliest() {
    let mut reaper = LifecycleReaper::new(config());
    reaper.track(&model(1, 0), 100);
    reaper.track(&model(2, 0), 50);
    reaper.track(&model(3, 0), 70);
    assert_eq!(reaper.next_due(), Some(50 + MODEL_TTL));
    assert!(reaper.forget(2));
    assert_eq!(reaper.next_due(), Some(70 + MODEL_TTL));
}

#[test]
fn an_idle_model_is_unloaded_when_its_time_is_up() {
    let mut queue = queue_of(10);
    let mut reaper = LifecycleReaper::new(config());
    let user = model(1, 4);
    assert!(queue.register_user(DeviceId::Cpu, user));
    reaper.track(&user, 0);
    assert_eq!(queue.available(DeviceId::Cpu), units(6));
    assert!(reaper.sweep(&mut queue, MODEL_TTL - 1).is_empty());
    assert!(queue.ledger().is_registered(1));
    assert_eq!(reaper.sweep(&mut queue, MODEL_TTL), vec![user]);
    assert!(!queue.ledger().is_registered(1));
    assert_eq!(queue.available(DeviceId::Cpu), units(10));
    assert_eq!(reaper.timer(1), None);
    assert!(reaper.sweep(&mut queue, MODEL_TTL + 1).is_empty());
}

#[test]
fn a_model_with_an_outstanding_ticket_is_not_unloaded() {
    let mut queue = queue_of(10);
    let mut reaper = LifecycleReaper::new(config());
    let user = model(1, 4);
    assert!(queue.register_user(DeviceId::Cpu, user));
    reaper.track(&user, 0);
    // a long stream holds its ticket past the lifetime of the idle model
    let streaming = ticket_for(&mut queue, RequestKind::CompletionOneShot, 2, 10);
    let mut now = MODEL_TTL;
    for _ in 0..5 {
        assert!(reaper.sweep(&mut queue, now).is_empty());
        assert!(queue.ledger().is_registered(1));
        assert!(queue.is_valid(&streaming));
        assert_eq!(
            reaper.timer(1),
            Some(Timer { user_id: 1, model: ModelId(1), kind: ArtifactKind::Model, due: now + REARM })
        );
        assert_eq!(queue.available(DeviceId::Cpu), units(4));
        now += REARM;
    }
    assert!(queue.release(streaming));
    assert_eq!(reaper.sweep(&mut queue, now), vec![user]);
    assert!(!queue.ledger().is_registered(1));
    assert_eq!(queue.available(DeviceId::Cpu), units(10));
}

#[test]
fn a_session_is_not_reaped_under_a_stalled_stream() {
    let mut queue = queue_of(10);
    let mut reaper = LifecycleReaper::new(config());
    let weights = model(1, 3);
    let context = session(2, 2);
    assert!(queue.register_user(DeviceId::Cpu, weights));
    assert!(queue.register_user(DeviceId::Cpu, context));
    reaper.track(&weights, 0);
    reaper.track(&context, 0);
    let stream = ticket_for(&mut queue, RequestKind::CompletionSession, 1, 0);
    assert_eq!(queue.available(DeviceId::Cpu), units(4));
    // the consumer stalls for longer than the lifetime of an idle session
    assert!(reaper.sweep(&mut queue, SESSION_TTL + 5).is_empty());
    assert!(queue.ledger().is_registered(2));
    assert!(queue.is_valid(&stream));
    assert_eq!(reaper.timer(2).unwrap().due, SESSION_TTL + 5 + REARM);
    // the stream completes; once the time is up the session goes
    assert!(queue.release(stream));
    assert!(reaper.sweep(&mut queue, SESSION_TTL + 5 + REARM - 1).is_empty());
    assert_eq!(reaper.sweep(&mut queue, SESSION_TTL + 5 + REARM), vec![context]);
    assert!(!queue.ledger().is_registered(2));
    assert!(queue.ledger().is_registered(1));
    assert_eq!(queue.available(DeviceId::Cpu), units(7));
}

#[test]
fn a_one_shot_ticket_keeps_the_model_and_not_the_session() {
    let mut queue = queue_of(10);
    let mut reaper = LifecycleReaper::new(config());
    let weights = model(1, 3);
    let context = session(2, 2);
    assert!(queue.register_user(DeviceId::Cpu, weights));
    assert!(queue.register_user(DeviceId::Cpu, context));
    reaper.track(&weights, 0);
    reaper.track(&context, 0);
    let _one_shot = ticket_for(&mut queue, RequestKind::CompletionOneShot, 1, 0);
    assert_eq!(reaper.sweep(&mut queue, MODEL_TTL), vec![context]);
    assert!(queue.ledger().is_registered(1));
    assert_eq!(reaper.timer(1).unwrap().due, MODEL_TTL + REARM);
}

#[test]
fn a_ticket_for_another_model_keeps_nothing() {
    let mut queue = queue_of(10);
    let mut reaper = LifecycleReaper::new(config());
    let other = ResourceUser { model: ModelId(2), ..model(5, 1) };
    assert!(queue.register_user(DeviceId::Cpu, other));
    reaper.track(&other, 0);
    let _busy = ticket_for(&mut queue, RequestKind::CompletionSession, 1, 0);
    assert_eq!(reaper.sweep(&mut queue, MODEL_TTL), vec![other]);
}

#[test]
fn a_sweep_unloads_in_the_order_of_the_timers() {
    let mut queue = queue_of(10);
    let mut reaper = LifecycleReaper::new(config());
    let a = ResourceUser { model: ModelId(10), ..model(1, 1) };
    let b = ResourceUser { model: ModelId(11), ..session(2, 1) };
    let c = ResourceUser { model: ModelId(12), ..model(3, 1) };
    for user in [c, a, b] {
        assert!(queue.register_user(DeviceId::Cpu, user));
    }
    for user in [a, b, c] {
        reaper.track(&user, 0);
    }
    assert_eq!(reaper.sweep(&mut queue, SESSION_TTL), vec![b]);
    assert_eq!(reaper.sweep(&mut queue, MODEL_TTL), vec![a, c]);
    assert!(queue.ledger().registrations().is_empty());
    assert_eq!(reaper.next_due(), None);
}

#[test]
fn the_timer_of_an_artifact_that_is_gone_is_dropped() {
    let mut queue = queue_of(10);
    let mut reaper = LifecycleReaper::new(config());
    let user = model(1, 4);
    assert!(queue.register_user(DeviceId::Cpu, user));
    reaper.track(&user, 0);
    assert_eq!(queue.unregister_user(1), Some(user));
    assert!(reaper.sweep(&mut queue, MODEL_TTL - 1).is_empty());
    assert!(reaper.timer(1).is_some());
    assert!(reaper.sweep(&mut queue, MODEL_TTL).is_empty());
    assert_eq!(reaper.timer(1), None);
}

#[test]
fn a_flush_unloads_everything_whatever_is_in_use() {
    let mut queue = queue_of(10);
    let mut reaper = LifecycleReaper::new(config());
    let weights = model(1, 3);
    let context = session(2, 2);
    assert!(queue.register_user(DeviceId::Cpu, weights));
    assert!(queue.register_user(DeviceId::Cpu, context));
    reaper.track(&weights, 0);
    let in_flight = ticket_for(&mut queue, RequestKind::CompletionSession, 5, 0);
    assert_eq!(reaper.reset(&mut queue), vec![weights, context]);
    assert!(!queue.is_valid(&in_flight));
    assert!(queue.ledger().registrations().is_empty());
    assert_eq!(queue.available(DeviceId::Cpu), units(10));
    assert_eq!(reaper.next_due(), None);
    assert_eq!(reaper.config(), config());
    assert!(reaper.reset(&mut queue).is_empty());
}

#[test]
fn a_request_starts_the_timers_of_what_it_uses() {
    let mut reaper = LifecycleReaper::new(config());
    let weights = model(1, 0);
    let context = session(2, 0);
    let stranger = ResourceUser { model: ModelId(2), ..model(3, 0) };
    for user in [weights, context, stranger] {
        reaper.track(&user, 0);
    }
    let one_shot = Passport {
        device: DeviceId::Cpu,
        kind: RequestKind::CompletionOneShot,
        requested: units(1),
        model: ModelId(1),
    };
    reaper.touch_used_by(&one_shot, 1_000);
    assert_eq!(reaper.timer(1).unwrap().due, 1_000 + MODEL_TTL);
    assert_eq!(reaper.timer(2).unwrap().due, SESSION_TTL);
    assert_eq!(reaper.timer(3).unwrap().due, MODEL_TTL);
    let in_session = Passport { kind: RequestKind::CompletionSession, ..one_shot };
    reaper.touch_used_by(&in_session, 2_000);
    assert_eq!(reaper.timer(1).unwrap().due, 2_000 + MODEL_TTL);
    assert_eq!(reaper.timer(2).unwrap().due, 2_000 + SESSION_TTL);
    assert_eq!(reaper.timer(3).unwrap().due, MODEL_TTL);
    let embeddings = Passport { kind: RequestKind::Embeddings, model: ModelId(2), ..one_shot };
    reaper.touch_used_by(&embeddings, 3_000);
    assert_eq!(reaper.timer(1).unwrap().due, 2_000 + MODEL_TTL);
    assert_eq!(reaper.timer(3).unwrap().due, 3_000 + MODEL_TTL);
    assert_eq!(reaper.timer(3).unwrap().model, ModelId(2));
}
