//! The lifecycle reaper: unloading what has been idle for too long.
//!
//! Every loaded artifact that the reaper tracks has a timer, which is armed
//! anew whenever the artifact is used. A sweep looks at the timers that have
//! run out. It unloads an artifact only when no outstanding ticket uses it;
//! an artifact in use gets a short second term instead. The reaper decides
//! and does the bookkeeping; whoever drives it unloads from memory what the
//! sweep returns.

use core::time::Duration;
use vstd::prelude::*;
use crate::claims::{claimed_on, lemma_claimed_bounds_each, lemma_claimed_push, Claim};
use crate::ledger::Registration;
use crate::llm::{duration_millis, inactive_llm_session_ttl, inactive_llm_ttl, millis_of};
use crate::queue::{deadline_after, AdmissionQueue, QueueView};
use crate::request::{ArtifactKind, DeviceId, ModelId, Passport, RequestKind, ResourceUser};
use crate::resource::clamp_u64;

verus! {

/// The times of the reaper, in milliseconds of the caller's clock.
#[derive(Clone, Copy, Debug, PartialEq, Eq, Structural)]
pub struct ReaperConfig {
    /// How long a model may stay unused.
    pub model_ttl: u64,
    /// How long a session may stay unused.
    pub session_ttl: u64,
    /// How much longer an artifact gets that was in use when its timer ran
    /// out.
    pub rearm_delay: u64,
}

impl ReaperConfig {
    /// How long an artifact of this kind may stay unused.
    pub open spec fn ttl(self, kind: ArtifactKind) -> u64 {
        match kind {
            ArtifactKind::Model => self.model_ttl,
            ArtifactKind::Session => self.session_ttl,
        }
    }

    /// How long an artifact of this kind may stay unused.
    pub fn ttl_of(&self, kind: ArtifactKind) -> (ttl: u64)
        ensures
            ttl == self.ttl(kind),
    {
        match kind {
            ArtifactKind::Model => self.model_ttl,
            ArtifactKind::Session => self.session_ttl,
        }
    }

    /// The times given as durations, each in whole milliseconds and stopping
    /// at `u64::MAX`.
    pub fn from_durations(
        model_ttl: &Duration,
        session_ttl: &Duration,
        rearm_delay: &Duration,
    ) -> (config: ReaperConfig)
        ensures
            config.model_ttl == clamp_u64(millis_of(*model_ttl)),
            config.session_ttl == clamp_u64(millis_of(*session_ttl)),
            config.rearm_delay == clamp_u64(millis_of(*rearm_delay)),
    {
        ReaperConfig {
            model_ttl: duration_millis(model_ttl),
            session_ttl: duration_millis(session_ttl),
            rearm_delay: duration_millis(rearm_delay),
        }
    }

    /// The times with the usual lifetimes: five minutes for an unused model,
    /// two minutes for an unused session.
    pub fn with_default_timeouts(rearm_delay: u64) -> (config: ReaperConfig)
        ensures
            config.model_ttl == 300_000,
            config.session_ttl == 120_000,
            config.rearm_delay == rearm_delay,
    {
        let model_ttl: Duration = inactive_llm_ttl();
        let session_ttl: Duration = inactive_llm_session_ttl();
        ReaperConfig {
            model_ttl: duration_millis(&model_ttl),
            session_ttl: duration_millis(&session_ttl),
            rearm_delay,
        }
    }
}

/// The timer of one tracked artifact.
#[derive(Clone, Copy, Debug, PartialEq, Eq, Structural)]
pub struct Timer {
    /// The identifier of the artifact's resource user.
    pub user_id: u64,
    /// The model that the artifact belongs to.
    pub model: ModelId,
    pub kind: ArtifactKind,
    /// The time at which the artifact has been idle for too long.
    pub due: u64,
}

impl Timer {
    /// The timer of the artifact of `user` that runs out at `due`.
    pub open spec fn of(user: ResourceUser, due: u64) -> Timer {
        Timer { user_id: user.id, model: user.model, kind: user.kind, due }
    }

    /// Whether a request priced by `passport` uses the artifact of this
    /// timer: a model is used by every request for it, a session by the
    /// session completions of its model.
    pub open spec fn serves(self, passport: Passport) -> bool {
        &&& passport.model == self.model
        &&& (self.kind == ArtifactKind::Model || passport.kind == RequestKind::CompletionSession)
    }

    /// Whether a request priced by `passport` uses the artifact of this
    /// timer.
    pub fn is_used_by(&self, passport: &Passport) -> (used: bool)
        ensures
            used == self.serves(*passport),
    {
        passport.model == self.model && (self.kind == ArtifactKind::Model || passport.kind
            == RequestKind::CompletionSession)
    }
}

/// What a sweep does about one timer.
pub enum Verdict {
    /// The timer has not run out: the artifact stays.
    Keep,
    /// The timer has run out, but an outstanding ticket uses the artifact:
    /// the artifact stays and its timer is armed for a short second term.
    Defer,
    /// The timer has run out and nothing uses the artifact: it is unloaded.
    Unload(ResourceUser),
    /// The timer has run out and the artifact is not registered any more:
    /// the timer goes.
    Forget,
}

/// What a sweep at `now` does about `timer`, given the queue.
pub open spec fn verdict(timer: Timer, queue: QueueView, now: u64) -> Verdict {
    if now < timer.due {
        Verdict::Keep
    } else {
        match queue.ledger.registration_of(timer.user_id) {
            None => Verdict::Forget,
            Some(registration) => if queue.has_outstanding(registration.user) {
                Verdict::Defer
            } else {
                Verdict::Unload(registration.user)
            },
        }
    }
}

/// The timers that a sweep at `now` leaves, in their order.
pub open spec fn swept_timers(timers: Seq<Timer>, queue: QueueView, rearm_delay: u64, now: u64) -> Seq<
    Timer,
>
    decreases timers.len(),
{
    if timers.len() == 0 {
        Seq::empty()
    } else {
        let before = swept_timers(timers.drop_last(), queue, rearm_delay, now);
        let timer = timers.last();
        match verdict(timer, queue, now) {
            Verdict::Keep => before.push(timer),
            Verdict::Defer => before.push(
                Timer { due: deadline_after(now, rearm_delay), ..timer },
            ),
            Verdict::Unload(_) => before,
            Verdict::Forget => before,
        }
    }
}

/// The resource users that a sweep at `now` unloads, in the order of their
/// timers.
pub open spec fn swept_users(timers: Seq<Timer>, queue: QueueView, now: u64) -> Seq<ResourceUser>
    decreases timers.len(),
{
    if timers.len() == 0 {
        Seq::empty()
    } else {
        let before = swept_users(timers.drop_last(), queue, now);
        match verdict(timers.last(), queue, now) {
            Verdict::Unload(user) => before.push(user),
            _ => before,
        }
    }
}

/// The queue that a sweep at `now` leaves: every user that the sweep unloads
/// is unregistered, and nothing else has changed.
pub open spec fn swept_queue(timers: Seq<Timer>, queue: QueueView, now: u64) -> QueueView
    decreases timers.len(),
{
    if timers.len() == 0 {
        queue
    } else {
        let before = swept_queue(timers.drop_last(), queue, now);
        match verdict(timers.last(), queue, now) {
            Verdict::Unload(_) => before.unregister_user(timers.last().user_id),
            _ => before,
        }
    }
}

/// Whether none of the first `n` timers belongs to the user `user_id`.
pub open spec fn not_among(timers: Seq<Timer>, n: int, user_id: u64) -> bool {
    forall|j: int| 0 <= j < n ==> (#[trigger] timers[j]).user_id != user_id
}

/// The reaper as a mathematical value: its timers, in the order in which the
/// artifacts came to be tracked, and its times.
pub struct ReaperView {
    pub timers: Seq<Timer>,
    pub config: ReaperConfig,
}

impl ReaperView {
    /// The validity of a reaper: no artifact has two timers.
    pub open spec fn wf(self) -> bool {
        forall|i: int, j: int|
            #![trigger self.timers[i], self.timers[j]]
            0 <= i < j < self.timers.len() ==> self.timers[i].user_id != self.timers[j].user_id
    }

    /// Whether the artifact of the user `user_id` is tracked.
    pub open spec fn is_tracked(self, user_id: u64) -> bool {
        exists|i: int| 0 <= i < self.timers.len() && (#[trigger] self.timers[i]).user_id == user_id
    }

    /// The place of the timer of the user `user_id`.
    pub open spec fn timer_index(self, user_id: u64) -> int {
        choose|i: int| 0 <= i < self.timers.len() && (#[trigger] self.timers[i]).user_id == user_id
    }

    /// The timer of the user `user_id`, if its artifact is tracked.
    pub open spec fn timer_of(self, user_id: u64) -> Option<Timer> {
        if self.is_tracked(user_id) {
            Some(self.timers[self.timer_index(user_id)])
        } else {
            None
        }
    }

    /// `timer` started anew at `now`, for as long as an artifact of its kind
    /// may stay unused.
    pub open spec fn rearmed(self, timer: Timer, now: u64) -> Timer {
        Timer { due: deadline_after(now, self.config.ttl(timer.kind)), ..timer }
    }

    /// The reaper after the artifact of `user` was loaded at `now`: its timer
    /// runs from `now`, and is a new one if the artifact was not tracked.
    pub open spec fn track(self, user: ResourceUser, now: u64) -> ReaperView {
        let timer = Timer::of(user, deadline_after(now, self.config.ttl(user.kind)));
        if self.is_tracked(user.id) {
            ReaperView { timers: self.timers.update(self.timer_index(user.id), timer), ..self }
        } else {
            ReaperView { timers: self.timers.push(timer), ..self }
        }
    }

    /// The reaper after the artifact of `user_id` was used at `now`: its
    /// timer runs from `now` if the artifact is tracked, and nothing changes
    /// if it is not.
    pub open spec fn touch(self, user_id: u64, now: u64) -> ReaperView {
        if self.is_tracked(user_id) {
            let k = self.timer_index(user_id);
            ReaperView { timers: self.timers.update(k, self.rearmed(self.timers[k], now)), ..self }
        } else {
            self
        }
    }

    /// The reaper after a request priced by `passport` came in at `now`: the
    /// timer of every artifact that the request uses runs from `now`.
    pub open spec fn touch_used_by(self, passport: Passport, now: u64) -> ReaperView {
        ReaperView {
            timers: Seq::new(
                self.timers.len(),
                |i: int|
                    if self.timers[i].serves(passport) {
                        self.rearmed(self.timers[i], now)
                    } else {
                        self.timers[i]
                    },
            ),
            ..self
        }
    }

    /// The reaper after it stopped tracking the artifact of `user_id`.
    pub open spec fn forget(self, user_id: u64) -> ReaperView {
        if self.is_tracked(user_id) {
            ReaperView { timers: self.timers.remove(self.timer_index(user_id)), ..self }
        } else {
            self
        }
    }

    /// Whether `due` is when the next timer runs out: the earliest time of
    /// any timer, and `None` where there is no timer.
    pub open spec fn is_next_due(self, due: Option<u64>) -> bool {
        match due {
            None => self.timers.len() == 0,
            Some(time) => {
                &&& exists|i: int|
                    0 <= i < self.timers.len() && (#[trigger] self.timers[i]).due == time
                &&& forall|i: int|
                    0 <= i < self.timers.len() ==> time <= (#[trigger] self.timers[i]).due
            },
        }
    }

    /// In a valid reaper an artifact's timer is found at one place only.
    pub proof fn lemma_timer_index(self, user_id: u64, i: int)
        requires
            self.wf(),
            0 <= i < self.timers.len(),
            self.timers[i].user_id == user_id,
        ensures
            self.is_tracked(user_id),
            self.timer_index(user_id) == i,
    {
        let j = self.timer_index(user_id);
        if i < j {
            assert(self.timers[i].user_id != self.timers[j].user_id);
        }
        if j < i {
            assert(self.timers[j].user_id != self.timers[i].user_id);
        }
    }

    /// Timers that keep their artifacts keep the reaper valid: where every
    /// timer belongs to the same artifact as before, the same artifacts are
    /// tracked, each at the same place.
    pub proof fn lemma_same_artifacts(self, other: ReaperView)
        requires
            self.wf(),
            other.timers.len() == self.timers.len(),
            forall|i: int|
                0 <= i < self.timers.len() ==> (#[trigger] other.timers[i]).user_id
                    == self.timers[i].user_id,
        ensures
            other.wf(),
            forall|user_id: u64| #[trigger] other.is_tracked(user_id) == self.is_tracked(user_id),
            forall|user_id: u64|
                self.is_tracked(user_id) ==> #[trigger] other.timer_index(user_id)
                    == self.timer_index(user_id),
    {
        assert forall|i: int, j: int|
            #![trigger other.timers[i], other.timers[j]]
            0 <= i < j < other.timers.len() implies other.timers[i].user_id
            != other.timers[j].user_id by {
            assert(self.timers[i].user_id != self.timers[j].user_id);
        }
        assert forall|user_id: u64| #[trigger]
            other.is_tracked(user_id) == self.is_tracked(user_id) by {
            if self.is_tracked(user_id) {
                let k = self.timer_index(user_id);
                assert(other.timers[k].user_id == user_id);
            }
            if other.is_tracked(user_id) {
                let k = other.timer_index(user_id);
                assert(self.timers[k].user_id == user_id);
            }
        }
        assert forall|user_id: u64| self.is_tracked(user_id) implies #[trigger] other.timer_index(
            user_id,
        ) == self.timer_index(user_id) by {
            let k = self.timer_index(user_id);
            assert(other.timers[k].user_id == user_id);
            other.lemma_timer_index(user_id, k);
        }
    }

    /// Tracking keeps the reaper valid, sets the timer of the artifact and
    /// leaves every other timer alone.
    pub proof fn lemma_track(self, user: ResourceUser, now: u64)
        requires
            self.wf(),
        ensures
            self.track(user, now).wf(),
            self.track(user, now).timer_of(user.id) == Some(
                Timer::of(user, deadline_after(now, self.config.ttl(user.kind))),
            ),
            forall|other: u64|
                other != user.id ==> #[trigger] self.track(user, now).timer_of(other)
                    == self.timer_of(other),
    {
        let next = self.track(user, now);
        if self.is_tracked(user.id) {
            self.lemma_same_artifacts(next);
        } else {
            let n = self.timers.len() as int;
            assert forall|i: int, j: int|
                #![trigger next.timers[i], next.timers[j]]
                0 <= i < j < next.timers.len() implies next.timers[i].user_id
                != next.timers[j].user_id by {
                if j < n {
                    assert(self.timers[i].user_id != self.timers[j].user_id);
                } else {
                    assert(self.timers[i].user_id != user.id);
                }
            }
            assert(next.timers[n].user_id == user.id);
            next.lemma_timer_index(user.id, n);
            assert forall|other: u64| other != user.id implies #[trigger] next.timer_of(other)
                == self.timer_of(other) by {
                if self.is_tracked(other) {
                    let a = self.timer_index(other);
                    assert(next.timers[a].user_id == other);
                    next.lemma_timer_index(other, a);
                }
                if next.is_tracked(other) {
                    let a = next.timer_index(other);
                    assert(self.timers[a].user_id == other);
                    self.lemma_timer_index(other, a);
                }
            }
        }
    }

    /// Touching keeps the reaper valid, starts the timer of the artifact
    /// anew and leaves every other timer alone.
    pub proof fn lemma_touch(self, user_id: u64, now: u64)
        requires
            self.wf(),
        ensures
            self.touch(user_id, now).wf(),
            self.touch(user_id, now).timer_of(user_id) == match self.timer_of(user_id) {
                Some(timer) => Some(self.rearmed(timer, now)),
                None => None,
            },
            forall|other: u64|
                other != user_id ==> #[trigger] self.touch(user_id, now).timer_of(other)
                    == self.timer_of(other),
    {
        if self.is_tracked(user_id) {
            self.lemma_same_artifacts(self.touch(user_id, now));
        }
    }

    /// A request keeps the reaper valid: the same artifacts are tracked, the
    /// timers of those that the request uses run from `now`, and every other
    /// timer is left alone.
    pub proof fn lemma_touch_used_by(self, passport: Passport, now: u64)
        requires
            self.wf(),
        ensures
            self.touch_used_by(passport, now).wf(),
            forall|user_id: u64| #[trigger]
                self.touch_used_by(passport, now).timer_of(user_id) == match self.timer_of(
                    user_id,
                ) {
                    Some(timer) => if timer.serves(passport) {
                        Some(self.rearmed(timer, now))
                    } else {
                        Some(timer)
                    },
                    None => None,
                },
    {
        self.lemma_same_artifacts(self.touch_used_by(passport, now));
    }

    /// Forgetting keeps the reaper valid, removes the timer of the artifact
    /// and leaves every other timer alone.
    pub proof fn lemma_forget(self, user_id: u64)
        requires
            self.wf(),
        ensures
            self.forget(user_id).wf(),
            !self.forget(user_id).is_tracked(user_id),
            forall|other: u64|
                other != user_id ==> #[trigger] self.forget(user_id).timer_of(other)
                    == self.timer_of(other),
    {
        let next = self.forget(user_id);
        if self.is_tracked(user_id) {
            let k = self.timer_index(user_id);
            assert forall|i: int| 0 <= i < next.timers.len() implies #[trigger] next.timers[i]
                == self.timers[if i < k {
                i
            } else {
                i + 1
            }] by {}
            assert forall|i: int, j: int|
                #![trigger next.timers[i], next.timers[j]]
                0 <= i < j < next.timers.len() implies next.timers[i].user_id
                != next.timers[j].user_id by {
                let a = if i < k { i } else { i + 1 };
                let b = if j < k { j } else { j + 1 };
                assert(self.timers[a].user_id != self.timers[b].user_id);
            }
            assert(next.wf());
            if next.is_tracked(user_id) {
                let i = next.timer_index(user_id);
                let a = if i < k { i } else { i + 1 };
                self.lemma_timer_index(user_id, a);
            }
            assert forall|other: u64| other != user_id implies #[trigger] next.timer_of(other)
                == self.timer_of(other) by {
                if self.is_tracked(other) {
                    let a = self.timer_index(other);
                    let i = if a < k { a } else { a - 1 };
                    assert(next.timers[i].user_id == other);
                    next.lemma_timer_index(other, i);
                }
                if next.is_tracked(other) {
                    let i = next.timer_index(other);
                    let a = if i < k { i } else { i + 1 };
                    assert(self.timers[a].user_id == other);
                    self.lemma_timer_index(other, a);
                }
            }
        }
    }
}

/// A sweep leaves timers of artifacts that had one before, each once and in
/// the old order.
pub proof fn lemma_swept_timers(timers: Seq<Timer>, queue: QueueView, rearm_delay: u64, now: u64)
    requires
        (ReaperView { timers, config: arbitrary() }).wf(),
    ensures
        (ReaperView { timers: swept_timers(timers, queue, rearm_delay, now), config: arbitrary() }).wf(),
        forall|a: int|
            0 <= a < swept_timers(timers, queue, rearm_delay, now).len() ==> exists|j: int|
                0 <= j < timers.len() && (#[trigger] timers[j]).user_id == (#[trigger] swept_timers(
                    timers,
                    queue,
                    rearm_delay,
                    now,
                )[a]).user_id,
    decreases timers.len(),
{
    if timers.len() > 0 {
        let rest = timers.drop_last();
        let last = timers.last();
        assert forall|i: int, j: int|
            #![trigger rest[i], rest[j]]
            0 <= i < j < rest.len() implies rest[i].user_id != rest[j].user_id by {
            assert(timers[i].user_id != timers[j].user_id);
        }
        lemma_swept_timers(rest, queue, rearm_delay, now);
        let before = swept_timers(rest, queue, rearm_delay, now);
        let after = swept_timers(timers, queue, rearm_delay, now);
        assert forall|a: int| 0 <= a < after.len() implies exists|j: int|
            0 <= j < timers.len() && (#[trigger] timers[j]).user_id == (#[trigger] after[a]).user_id by {
            if a < before.len() {
                assert(after[a] == before[a]);
                let j = choose|j: int|
                    0 <= j < rest.len() && (#[trigger] rest[j]).user_id == before[a].user_id;
                assert(timers[j].user_id == after[a].user_id);
            } else {
                assert(timers[timers.len() - 1].user_id == after[a].user_id);
            }
        }
        assert forall|a: int, b: int|
            #![trigger after[a], after[b]]
            0 <= a < b < after.len() implies after[a].user_id != after[b].user_id by {
            if b < before.len() {
                assert(before[a].user_id != before[b].user_id);
            } else {
                let j = choose|j: int|
                    0 <= j < rest.len() && (#[trigger] rest[j]).user_id == before[a].user_id;
                assert(timers[j].user_id != timers[timers.len() - 1].user_id);
            }
        }
    }
}

/// What a sweep leaves of the queue: it stays valid, its tickets and waiters
/// are untouched, and so is the registration of every user that has none of
/// the timers.
pub proof fn lemma_swept_queue(timers: Seq<Timer>, queue: QueueView, now: u64)
    requires
        queue.wf(),
    ensures
        swept_queue(timers, queue, now).wf(),
        swept_queue(timers, queue, now).issued == queue.issued,
        swept_queue(timers, queue, now).waiting == queue.waiting,
        swept_queue(timers, queue, now).ledger.reservations == queue.ledger.reservations,
        swept_queue(timers, queue, now).ledger.capacities == queue.ledger.capacities,
        forall|user_id: u64|
            not_among(timers, timers.len() as int, user_id) ==> #[trigger] swept_queue(
                timers,
                queue,
                now,
            ).ledger.registration_of(user_id) == queue.ledger.registration_of(user_id),
    decreases timers.len(),
{
    if timers.len() > 0 {
        let rest = timers.drop_last();
        lemma_swept_queue(rest, queue, now);
        let before = swept_queue(rest, queue, now);
        let after = swept_queue(timers, queue, now);
        before.lemma_unregister_user_wf(timers.last().user_id);
        before.ledger.lemma_unregister_wf(timers.last().user_id);
        assert forall|user_id: u64|
            not_among(timers, timers.len() as int, user_id)
                implies #[trigger] after.ledger.registration_of(user_id)
            == queue.ledger.registration_of(user_id) by {
            assert(timers[timers.len() - 1].user_id != user_id);
            assert(not_among(rest, rest.len() as int, user_id)) by {
                assert forall|j: int| 0 <= j < rest.len() implies (#[trigger] rest[j]).user_id
                    != user_id by {
                    assert(timers[j].user_id != user_id);
                }
            }
        }
    }
}

/// The reaper spares what is in use: a sweep unloads no artifact that an
/// outstanding ticket uses. Every user that it unloads was registered and
/// had no such ticket, and every registered user with such a ticket is
/// registered after the sweep as it was before, whatever the time.
pub proof fn law_sweep_spares_artifacts_in_use(reaper: ReaperView, queue: QueueView, now: u64)
    requires
        reaper.wf(),
        queue.wf(),
    ensures
        forall|a: int|
            0 <= a < swept_users(reaper.timers, queue, now).len() ==> {
                let user = #[trigger] swept_users(reaper.timers, queue, now)[a];
                &&& queue.ledger.is_registered(user.id)
                &&& !queue.has_outstanding(user)
            },
        forall|user_id: u64|
            queue.ledger.is_registered(user_id) && queue.has_outstanding(
                queue.ledger.users[queue.ledger.user_index(user_id)].user,
            ) ==> #[trigger] swept_queue(reaper.timers, queue, now).ledger.registration_of(user_id)
                == queue.ledger.registration_of(user_id),
    decreases reaper.timers.len(),
{
    let timers = reaper.timers;
    if timers.len() > 0 {
        let rest = timers.drop_last();
        let last = timers.last();
        let shorter = ReaperView { timers: rest, config: reaper.config };
        assert forall|i: int, j: int|
            #![trigger rest[i], rest[j]]
            0 <= i < j < rest.len() implies rest[i].user_id != rest[j].user_id by {
            assert(timers[i].user_id != timers[j].user_id);
        }
        law_sweep_spares_artifacts_in_use(shorter, queue, now);
        lemma_swept_queue(rest, queue, now);
        let before = swept_queue(rest, queue, now);
        before.ledger.lemma_unregister_wf(last.user_id);
        assert forall|a: int| 0 <= a < swept_users(timers, queue, now).len() implies {
            let user = #[trigger] swept_users(timers, queue, now)[a];
            &&& queue.ledger.is_registered(user.id)
            &&& !queue.has_outstanding(user)
        } by {
            if a < swept_users(rest, queue, now).len() {
                assert(swept_users(timers, queue, now)[a] == swept_users(rest, queue, now)[a]);
            } else {
                let k = queue.ledger.user_index(last.user_id);
                assert(queue.ledger.users[k].user.id == last.user_id);
            }
        }
        assert forall|user_id: u64|
            queue.ledger.is_registered(user_id) && queue.has_outstanding(
                queue.ledger.users[queue.ledger.user_index(user_id)].user,
            ) implies #[trigger] swept_queue(timers, queue, now).ledger.registration_of(user_id)
            == queue.ledger.registration_of(user_id) by {
            if verdict(last, queue, now) is Unload {
                assert(last.user_id != user_id);
            }
        }
    }
}

/// What a sweep at `now` returns to the devices: the footprint of every
/// user that it unloads, on the device that held it, in the order of the
/// timers.
pub open spec fn swept_claims(timers: Seq<Timer>, queue: QueueView, now: u64) -> Seq<Claim>
    decreases timers.len(),
{
    if timers.len() == 0 {
        Seq::empty()
    } else {
        let before = swept_claims(timers.drop_last(), queue, now);
        if verdict(timers.last(), queue, now) is Unload {
            before.push(queue.ledger.registration_of(timers.last().user_id)->0.claim())
        } else {
            before
        }
    }
}

/// Whether a sweep at `now` unloads the user `user_id`: one of the timers is
/// its timer, and the verdict on that timer is to unload.
pub open spec fn unloads(timers: Seq<Timer>, queue: QueueView, now: u64, user_id: u64) -> bool {
    exists|k: int|
        0 <= k < timers.len() && (#[trigger] timers[k]).user_id == user_id && verdict(
            timers[k],
            queue,
            now,
        ) is Unload
}

/// Where no timer gets the verdict to unload, a sweep returns nothing and
/// unloads nobody.
pub proof fn lemma_nothing_to_unload(timers: Seq<Timer>, queue: QueueView, now: u64)
    requires
        forall|j: int| 0 <= j < timers.len() ==> !(verdict(#[trigger] timers[j], queue, now) is Unload),
    ensures
        swept_claims(timers, queue, now) == Seq::<Claim>::empty(),
        swept_users(timers, queue, now) == Seq::<ResourceUser>::empty(),
        swept_queue(timers, queue, now) == queue,
    decreases timers.len(),
{
    if timers.len() > 0 {
        let rest = timers.drop_last();
        assert forall|j: int| 0 <= j < rest.len() implies !(verdict(
            #[trigger] rest[j],
            queue,
            now,
        ) is Unload) by {
            assert(rest[j] == timers[j]);
        }
        lemma_nothing_to_unload(rest, queue, now);
        assert(timers.last() == timers[timers.len() - 1]);
    }
}

/// A sweep returns what it unloads, and nothing else: on every device, what
/// is committed falls by exactly the footprints of the users that the sweep
/// unloads there, and what is available rises by as much. A user is
/// unregistered by the sweep exactly when the sweep unloads it; every other
/// user, be its timer not run out, its artifact in use, or no timer its own,
/// stays registered as it was and keeps its footprint.
pub proof fn law_sweep_returns_what_it_unloads(
    reaper: ReaperView,
    queue: QueueView,
    now: u64,
    device: DeviceId,
)
    requires
        reaper.wf(),
        queue.wf(),
    ensures
        swept_queue(reaper.timers, queue, now).ledger.committed(device)
            == queue.ledger.committed(device).minus(
            claimed_on(swept_claims(reaper.timers, queue, now), device),
        ),
        swept_queue(reaper.timers, queue, now).ledger.available(device)
            == queue.ledger.available(device).plus(
            claimed_on(swept_claims(reaper.timers, queue, now), device),
        ),
        forall|user_id: u64| #[trigger]
            swept_queue(reaper.timers, queue, now).ledger.registration_of(user_id) == if unloads(
                reaper.timers,
                queue,
                now,
                user_id,
            ) {
                None
            } else {
                queue.ledger.registration_of(user_id)
            },
    decreases reaper.timers.len(),
{
    let timers = reaper.timers;
    if timers.len() > 0 {
        let rest = timers.drop_last();
        let last = timers.last();
        let n = timers.len() - 1;
        let shorter = ReaperView { timers: rest, config: reaper.config };
        assert forall|i: int, j: int|
            #![trigger rest[i], rest[j]]
            0 <= i < j < rest.len() implies rest[i].user_id != rest[j].user_id by {
            assert(timers[i].user_id != timers[j].user_id);
        }
        law_sweep_returns_what_it_unloads(shorter, queue, now, device);
        lemma_swept_queue(rest, queue, now);
        let before = swept_queue(rest, queue, now);
        let after = swept_queue(timers, queue, now);
        assert(!unloads(rest, queue, now, last.user_id)) by {
            if unloads(rest, queue, now, last.user_id) {
                let k = choose|k: int|
                    0 <= k < rest.len() && (#[trigger] rest[k]).user_id == last.user_id && verdict(
                        rest[k],
                        queue,
                        now,
                    ) is Unload;
                assert(timers[k].user_id != timers[n].user_id);
            }
        }
        assert(before.ledger.registration_of(last.user_id) == queue.ledger.registration_of(
            last.user_id,
        ));
        if verdict(last, queue, now) is Unload {
            let held = queue.ledger.registration_of(last.user_id)->0;
            before.ledger.lemma_unregister_wf(last.user_id);
            before.ledger.lemma_unregister_committed(last.user_id, device);
            lemma_claimed_push(swept_claims(rest, queue, now), held.claim(), device);
        }
        assert(after.ledger.capacities == queue.ledger.capacities);
        assert forall|user_id: u64| #[trigger]
            after.ledger.registration_of(user_id) == if unloads(timers, queue, now, user_id) {
                None
            } else {
                queue.ledger.registration_of(user_id)
            } by {
            if unloads(rest, queue, now, user_id) {
                let k = choose|k: int|
                    0 <= k < rest.len() && (#[trigger] rest[k]).user_id == user_id && verdict(
                        rest[k],
                        queue,
                        now,
                    ) is Unload;
                assert(timers[k] == rest[k]);
                assert(timers[k].user_id != timers[n].user_id);
            }
            if unloads(timers, queue, now, user_id) {
                let k = choose|k: int|
                    0 <= k < timers.len() && (#[trigger] timers[k]).user_id == user_id && verdict(
                        timers[k],
                        queue,
                        now,
                    ) is Unload;
                if k < n {
                    assert(rest[k] == timers[k]);
                }
            }
            if user_id == last.user_id && verdict(last, queue, now) is Unload {
                assert(timers[n].user_id == user_id);
            }
        }
    } else {
        assert(!unloads(timers, queue, now, arbitrary()));
    }
}

/// An artifact that the sweep is to unload is among what the sweep returns:
/// its user is one of the users unloaded, and its footprint one of the
/// footprints returned.
pub proof fn lemma_unloaded_is_returned(timers: Seq<Timer>, queue: QueueView, now: u64, k: int)
    requires
        0 <= k < timers.len(),
        verdict(timers[k], queue, now) is Unload,
    ensures
        swept_users(timers, queue, now).len() == swept_claims(timers, queue, now).len(),
        exists|j: int|
            0 <= j < swept_users(timers, queue, now).len() && #[trigger] swept_users(
                timers,
                queue,
                now,
            )[j] == queue.ledger.registration_of(timers[k].user_id)->0.user && swept_claims(
                timers,
                queue,
                now,
            )[j] == queue.ledger.registration_of(timers[k].user_id)->0.claim(),
    decreases timers.len(),
{
    let rest = timers.drop_last();
    let users = swept_users(timers, queue, now);
    let held = queue.ledger.registration_of(timers[k].user_id)->0;
    lemma_swept_lengths(timers, queue, now);
    lemma_swept_lengths(rest, queue, now);
    if k == timers.len() - 1 {
        let j = swept_users(rest, queue, now).len() as int;
        assert(users[j] == held.user);
        assert(swept_claims(timers, queue, now)[j] == held.claim());
    } else {
        assert(rest[k] == timers[k]);
        lemma_unloaded_is_returned(rest, queue, now, k);
        let j = choose|j: int|
            0 <= j < swept_users(rest, queue, now).len() && #[trigger] swept_users(
                rest,
                queue,
                now,
            )[j] == held.user && swept_claims(rest, queue, now)[j] == held.claim();
        assert(users[j] == held.user);
        assert(swept_claims(timers, queue, now)[j] == held.claim());
    }
}

/// A sweep returns one footprint for every user that it unloads.
pub proof fn lemma_swept_lengths(timers: Seq<Timer>, queue: QueueView, now: u64)
    ensures
        swept_users(timers, queue, now).len() == swept_claims(timers, queue, now).len(),
    decreases timers.len(),
{
    if timers.len() > 0 {
        lemma_swept_lengths(timers.drop_last(), queue, now);
    }
}

/// Where one timer only gets the verdict to unload, a sweep returns the
/// footprint of that one artifact, once, and unloads its user alone.
pub proof fn lemma_one_to_unload(timers: Seq<Timer>, queue: QueueView, now: u64, k: int)
    requires
        0 <= k < timers.len(),
        verdict(timers[k], queue, now) is Unload,
        forall|j: int|
            0 <= j < timers.len() && j != k ==> !(verdict(#[trigger] timers[j], queue, now) is Unload),
    ensures
        swept_claims(timers, queue, now) == seq![
            queue.ledger.registration_of(timers[k].user_id)->0.claim(),
        ],
        swept_users(timers, queue, now) == seq![
            queue.ledger.registration_of(timers[k].user_id)->0.user,
        ],
    decreases timers.len(),
{
    let rest = timers.drop_last();
    let held = queue.ledger.registration_of(timers[k].user_id)->0;
    if k == timers.len() - 1 {
        assert forall|j: int| 0 <= j < rest.len() implies !(verdict(
            #[trigger] rest[j],
            queue,
            now,
        ) is Unload) by {
            assert(rest[j] == timers[j]);
        }
        lemma_nothing_to_unload(rest, queue, now);
        assert(swept_claims(timers, queue, now) =~= seq![held.claim()]);
        assert(swept_users(timers, queue, now) =~= seq![held.user]);
    } else {
        assert(rest[k] == timers[k]);
        assert forall|j: int| 0 <= j < rest.len() && j != k implies !(verdict(
            #[trigger] rest[j],
            queue,
            now,
        ) is Unload) by {
            assert(rest[j] == timers[j]);
        }
        lemma_one_to_unload(rest, queue, now, k);
        assert(timers.last() == timers[timers.len() - 1]);
    }
}

/// The reaper reclaims what is idle: an artifact whose timer has run out,
/// that is registered, and that no outstanding ticket uses, is unloaded by
/// the sweep. Its user is among the users returned and is registered no
/// more, and what is available on its device rises by at least its
/// footprint; where the sweep unloads nothing else, by exactly its
/// footprint, while nothing changes on any other device.
pub proof fn law_sweep_reclaims_what_is_idle(
    reaper: ReaperView,
    queue: QueueView,
    now: u64,
    k: int,
    device: DeviceId,
)
    requires
        reaper.wf(),
        queue.wf(),
        0 <= k < reaper.timers.len(),
        now >= reaper.timers[k].due,
        queue.ledger.is_registered(reaper.timers[k].user_id),
        !queue.has_outstanding(queue.ledger.registration_of(reaper.timers[k].user_id)->0.user),
    ensures
        !swept_queue(reaper.timers, queue, now).ledger.is_registered(reaper.timers[k].user_id),
        swept_users(reaper.timers, queue, now).contains(
            queue.ledger.registration_of(reaper.timers[k].user_id)->0.user,
        ),
        queue.ledger.available(device).plus(
            queue.ledger.registration_of(reaper.timers[k].user_id)->0.claim().on(device),
        ).fits_within(swept_queue(reaper.timers, queue, now).ledger.available(device)),
        (forall|j: int|
            0 <= j < reaper.timers.len() && j != k ==> !(verdict(
                #[trigger] reaper.timers[j],
                queue,
                now,
            ) is Unload)) ==> swept_queue(reaper.timers, queue, now).ledger.available(device)
            == queue.ledger.available(device).plus(
            queue.ledger.registration_of(reaper.timers[k].user_id)->0.claim().on(device),
        ),
{
    let timers = reaper.timers;
    let held = queue.ledger.registration_of(timers[k].user_id)->0;
    let claims = swept_claims(timers, queue, now);
    assert(verdict(timers[k], queue, now) is Unload);
    assert(unloads(timers, queue, now, timers[k].user_id));
    law_sweep_returns_what_it_unloads(reaper, queue, now, device);
    assert(swept_queue(timers, queue, now).ledger.registration_of(timers[k].user_id) is None);
    lemma_unloaded_is_returned(timers, queue, now, k);
    let j = choose|j: int|
        0 <= j < swept_users(timers, queue, now).len() && #[trigger] swept_users(
            timers,
            queue,
            now,
        )[j] == held.user && claims[j] == held.claim();
    lemma_claimed_bounds_each(claims, j, device);
    if forall|j: int|
        0 <= j < timers.len() && j != k ==> !(verdict(#[trigger] timers[j], queue, now) is Unload) {
        lemma_one_to_unload(timers, queue, now, k);
        lemma_claimed_push(Seq::<Claim>::empty(), held.claim(), device);
        assert(Seq::<Claim>::empty().push(held.claim()) =~= seq![held.claim()]);
    }
}

/// The lifecycle reaper: the timers of the loaded artifacts.
pub struct LifecycleReaper {
    timers: Vec<Timer>,
    config: ReaperConfig,
}

impl View for LifecycleReaper {
    type V = ReaperView;

    closed spec fn view(&self) -> ReaperView {
        ReaperView { timers: self.timers@, config: self.config }
    }
}

impl LifecycleReaper {
    /// The validity of the reaper. Every operation keeps it.
    pub open spec fn wf(&self) -> bool {
        self@.wf()
    }

    /// A reaper with the given times that tracks nothing.
    pub fn new(config: ReaperConfig) -> (reaper: LifecycleReaper)
        ensures
            reaper.wf(),
            reaper@ == (ReaperView { timers: Seq::empty(), config }),
    {
        LifecycleReaper { timers: Vec::new(), config }
    }

    /// The times of the reaper.
    pub fn config(&self) -> (config: ReaperConfig)
        ensures
            config == self@.config,
    {
        self.config
    }

    /// Where the timer of the user `user_id` stands, if there is one.
    fn find_timer(&self, user_id: u64) -> (place: Option<usize>)
        ensures
            match place {
                Some(k) => k < self.timers.len() && self.timers[k as int].user_id == user_id,
                None => !self@.is_tracked(user_id),
            },
    {
        let mut k: usize = 0;
        while k < self.timers.len()
            invariant
                k <= self.timers.len(),
                forall|j: int| 0 <= j < k ==> (#[trigger] self.timers[j]).user_id != user_id,
            decreases self.timers.len() - k,
        {
            if self.timers[k].user_id == user_id {
                return Some(k);
            }
            k = k + 1;
        }
        None
    }

    /// The timer of the user `user_id`, if its artifact is tracked.
    pub fn timer(&self, user_id: u64) -> (timer: Option<Timer>)
        requires
            self.wf(),
        ensures
            timer == self@.timer_of(user_id),
    {
        match self.find_timer(user_id) {
            Some(k) => {
                proof {
                    self@.lemma_timer_index(user_id, k as int);
                }
                Some(self.timers[k])
            },
            None => None,
        }
    }

    /// Starts the timer of the artifact of `user` at `now`: the artifact was
    /// loaded. An artifact that was not tracked is tracked from now on.
    pub fn track(&mut self, user: &ResourceUser, now: u64)
        requires
            old(self).wf(),
        ensures
            final(self).wf(),
            final(self)@ == old(self)@.track(*user, now),
    {
        proof {
            self@.lemma_track(*user, now);
        }
        let timer = Timer {
            user_id: user.id,
            model: user.model,
            kind: user.kind,
            due: now.saturating_add(self.config.ttl_of(user.kind)),
        };
        match self.find_timer(user.id) {
            Some(k) => {
                proof {
                    self@.lemma_timer_index(user.id, k as int);
                }
                self.timers.set(k, timer);
            },
            None => {
                self.timers.push(timer);
            },
        }
    }

    /// Starts the timer of the artifact of the user `user_id` anew at `now`:
    /// the artifact was used. Returns whether the artifact is tracked; where
    /// it is not, nothing changes.
    pub fn touch(&mut self, user_id: u64, now: u64) -> (found: bool)
        requires
            old(self).wf(),
        ensures
            final(self).wf(),
            found == old(self)@.is_tracked(user_id),
            final(self)@ == old(self)@.touch(user_id, now),
    {
        proof {
            self@.lemma_touch(user_id, now);
        }
        match self.find_timer(user_id) {
            Some(k) => {
                proof {
                    self@.lemma_timer_index(user_id, k as int);
                }
                let timer: Timer = self.timers[k];
                self.timers.set(k, self.rearmed(&timer, now));
                true
            },
            None => false,
        }
    }

    /// `timer` started anew at `now`.
    fn rearmed(&self, timer: &Timer, now: u64) -> (again: Timer)
        ensures
            again == self@.rearmed(*timer, now),
    {
        Timer {
            user_id: timer.user_id,
            model: timer.model,
            kind: timer.kind,
            due: now.saturating_add(self.config.ttl_of(timer.kind)),
        }
    }

    /// Starts anew, at `now`, the timer of every artifact that a request
    /// priced by `passport` uses: the request has come in, and what it needs
    /// is not idle.
    pub fn touch_used_by(&mut self, passport: &Passport, now: u64)
        requires
            old(self).wf(),
        ensures
            final(self).wf(),
            final(self)@ == old(self)@.touch_used_by(*passport, now),
    {
        proof {
            self@.lemma_touch_used_by(*passport, now);
        }
        let ghost before = self@;
        let mut i: usize = 0;
        while i < self.timers.len()
            invariant
                i <= self.timers.len(),
                self.timers.len() == before.timers.len(),
                self@.config == before.config,
                forall|j: int|
                    0 <= j < i ==> #[trigger] self.timers[j] == before.touch_used_by(
                        *passport,
                        now,
                    ).timers[j],
                forall|j: int|
                    i <= j < self.timers.len() ==> #[trigger] self.timers[j] == before.timers[j],
            decreases self.timers.len() - i,
        {
            let timer: Timer = self.timers[i];
            if timer.is_used_by(passport) {
                let again: Timer = self.rearmed(&timer, now);
                self.timers.set(i, again);
            }
            i = i + 1;
        }
        assert(self@.timers =~= before.touch_used_by(*passport, now).timers);
    }

    /// Stops tracking the artifact of the user `user_id`. Returns whether it
    /// was tracked.
    pub fn forget(&mut self, user_id: u64) -> (found: bool)
        requires
            old(self).wf(),
        ensures
            final(self).wf(),
            found == old(self)@.is_tracked(user_id),
            final(self)@ == old(self)@.forget(user_id),
    {
        proof {
            self@.lemma_forget(user_id);
        }
        match self.find_timer(user_id) {
            Some(k) => {
                proof {
                    self@.lemma_timer_index(user_id, k as int);
                }
                self.timers.remove(k);
                true
            },
            None => false,
        }
    }

    /// When the next timer runs out: the time to sweep again. `None` where
    /// nothing is tracked.
    pub fn next_due(&self) -> (due: Option<u64>)
        ensures
            self@.is_next_due(due),
    {
        if self.timers.len() == 0 {
            return None;
        }
        let mut earliest: u64 = self.timers[0].due;
        let mut i: usize = 1;
        while i < self.timers.len()
            invariant
                1 <= i <= self.timers.len(),
                exists|j: int| 0 <= j < i && (#[trigger] self.timers[j]).due == earliest,
                forall|j: int| 0 <= j < i ==> earliest <= (#[trigger] self.timers[j]).due,
            decreases self.timers.len() - i,
        {
            if self.timers[i].due < earliest {
                earliest = self.timers[i].due;
            }
            i = i + 1;
        }
        Some(earliest)
    }

    /// Sweeps at time `now`.
    ///
    /// A timer that has not run out stays. Of the others, the timer of an
    /// artifact that is not registered any more goes; an artifact that an
    /// outstanding ticket uses stays registered, and its timer is armed for
    /// the short second term; every other artifact is unregistered, which
    /// returns its footprint to the ledger, and its timer goes. Returns the
    /// users that were unregistered, in the order of their timers: they are
    /// what is to be unloaded from memory.
    pub fn sweep(&mut self, queue: &mut AdmissionQueue, now: u64) -> (unloaded: Vec<ResourceUser>)
        requires
            old(self).wf(),
            old(queue).wf(),
        ensures
            final(self).wf(),
            final(queue).wf(),
            final(self)@.config == old(self)@.config,
            final(self)@.timers == swept_timers(
                old(self)@.timers,
                old(queue)@,
                old(self)@.config.rearm_delay,
                now,
            ),
            unloaded@ == swept_users(old(self)@.timers, old(queue)@, now),
            final(queue)@ == swept_queue(old(self)@.timers, old(queue)@, now),
    {
        let ghost timers = self@.timers;
        let ghost start = queue@;
        let rearm_delay: u64 = self.config.rearm_delay;
        let mut kept: Vec<Timer> = Vec::new();
        let mut unloaded: Vec<ResourceUser> = Vec::new();
        let mut i: usize = 0;
        while i < self.timers.len()
            invariant
                i <= self.timers.len(),
                self.timers@ == timers,
                (ReaperView { timers, config: self.config }).wf(),
                start.wf(),
                queue.wf(),
                kept@ == swept_timers(timers.take(i as int), start, rearm_delay, now),
                unloaded@ == swept_users(timers.take(i as int), start, now),
                queue@ == swept_queue(timers.take(i as int), start, now),
                queue@.issued == start.issued,
                forall|user_id: u64|
                    not_among(timers, i as int, user_id)
                        ==> #[trigger] queue@.ledger.registration_of(user_id)
                        == start.ledger.registration_of(user_id),
            decreases self.timers.len() - i,
        {
            let timer: Timer = self.timers[i];
            let ghost before = queue@;
            proof {
                assert(timers.take(i + 1).drop_last() =~= timers.take(i as int));
                assert(timers.take(i + 1).last() == timer);
                assert(not_among(timers, i as int, timer.user_id)) by {
                    assert forall|j: int| 0 <= j < i implies (#[trigger] timers[j]).user_id
                        != timer.user_id by {
                        assert(timers[j].user_id != timers[i as int].user_id);
                    }
                }
                assert(before.ledger.registration_of(timer.user_id)
                    == start.ledger.registration_of(timer.user_id));
            }
            if now < timer.due {
                kept.push(timer);
            } else {
                match queue.ledger().registration(timer.user_id) {
                    None => {},
                    Some(registration) => {
                        if queue.has_outstanding(&registration.user) {
                            kept.push(
                                Timer {
                                    user_id: timer.user_id,
                                    model: timer.model,
                                    kind: timer.kind,
                                    due: now.saturating_add(rearm_delay),
                                },
                            );
                        } else {
                            queue.unregister_user(timer.user_id);
                            unloaded.push(registration.user);
                            proof {
                                before.ledger.lemma_unregister_wf(timer.user_id);
                            }
                        }
                    },
                }
            }
            proof {
                assert forall|user_id: u64|
                    not_among(timers, i + 1, user_id)
                        implies #[trigger] queue@.ledger.registration_of(user_id)
                    == start.ledger.registration_of(user_id) by {
                    assert(timers[i as int].user_id != user_id);
                    assert(not_among(timers, i as int, user_id));
                }
            }
            i = i + 1;
        }
        proof {
            assert(timers.take(i as int) =~= timers);
            lemma_swept_timers(timers, start, rearm_delay, now);
        }
        self.timers = kept;
        unloaded
    }

    /// Flushes everything, whether it is in use or not: every registered
    /// user is unregistered, every outstanding ticket is revoked, and
    /// nothing is tracked any more. Returns the users that were registered,
    /// in the order of their registration: they are what is to be unloaded
    /// from memory.
    pub fn reset(&mut self, queue: &mut AdmissionQueue) -> (unloaded: Vec<ResourceUser>)
        requires
            old(self).wf(),
            old(queue).wf(),
        ensures
            final(self).wf(),
            final(queue).wf(),
            final(self)@ == (ReaperView { timers: Seq::empty(), config: old(self)@.config }),
            final(queue)@ == old(queue)@.reset(),
            unloaded@ == old(queue)@.ledger.users.map_values(|r: Registration| r.user),
    {
        let registrations: Vec<Registration> = queue.ledger().registrations();
        let mut unloaded: Vec<ResourceUser> = Vec::new();
        let mut i: usize = 0;
        while i < registrations.len()
            invariant
                i <= registrations.len(),
                unloaded@ == registrations@.take(i as int).map_values(|r: Registration| r.user),
            decreases registrations.len() - i,
        {
            unloaded.push(registrations[i].user);
            assert(registrations@.take(i + 1).map_values(|r: Registration| r.user)
                =~= registrations@.take(i as int).map_values(|r: Registration| r.user).push(
                registrations@[i as int].user,
            ));
            i = i + 1;
        }
        assert(registrations@.take(i as int) =~= registrations@);
        queue.reset();
        self.timers.clear();
        unloaded
    }
}

} // verus!
