//! The admission queue: passports in, tickets out.
//!
//! A passport is admitted at once when nobody waits for its device and its
//! amount can be reserved. Otherwise it joins the wait list of its device,
//! unless that list is as deep as it may get. Waiters are admitted in the
//! order they came: a waiter is admitted only when no earlier waiter for the
//! same device is left, and only before its deadline.
//!
//! Waiting itself is the caller's business. [`AdmissionQueue::submit`] and
//! [`AdmissionQueue::poll`] decide, from the state of the queue and the time
//! that the caller reads off its clock, what happens to a request; whoever
//! drives the queue sleeps between polls and polls again when capacity
//! changes.

use vstd::prelude::*;
use crate::ledger::{LedgerView, ResourceLedger};
use crate::request::{DeviceId, Passport, QueueError, ResourceUser, Ticket, TicketView};
use crate::resource::ResourceVector;

verus! {

/// The limits of an admission queue.
#[derive(Clone, Copy, Debug, PartialEq, Eq, Structural)]
pub struct QueueConfig {
    /// How many requests may wait for one device.
    pub max_waiting: usize,
    /// How long a request may wait, in the unit of the caller's clock.
    pub admission_timeout: u64,
}

/// The record of one outstanding ticket.
#[derive(Clone, Copy, Debug, PartialEq, Eq, Structural)]
pub struct Issued {
    pub handle: u64,
    pub passport: Passport,
}

/// One waiting request.
#[derive(Clone, Copy, Debug, PartialEq, Eq, Structural)]
pub struct Waiter {
    pub seq: u64,
    pub passport: Passport,
    pub deadline: u64,
}

/// The time at which a request that starts to wait at `now` gives up.
pub open spec fn deadline_after(now: u64, timeout: u64) -> u64 {
    if now + timeout > u64::MAX {
        u64::MAX
    } else {
        (now + timeout) as u64
    }
}

/// How many of `waiting` wait for `device`.
pub open spec fn count_on(waiting: Seq<Waiter>, device: DeviceId) -> nat
    decreases waiting.len(),
{
    if waiting.len() == 0 {
        0
    } else {
        count_on(waiting.drop_last(), device) + if waiting.last().passport.device == device {
            1nat
        } else {
            0nat
        }
    }
}

/// Nobody waits for a device exactly when the count of its waiters is zero,
/// and no more wait for it than wait at all.
pub proof fn lemma_count_on(waiting: Seq<Waiter>, device: DeviceId)
    ensures
        count_on(waiting, device) <= waiting.len(),
        count_on(waiting, device) == 0 <==> forall|i: int|
            0 <= i < waiting.len() ==> (#[trigger] waiting[i]).passport.device != device,
    decreases waiting.len(),
{
    if waiting.len() > 0 {
        let rest = waiting.drop_last();
        lemma_count_on(rest, device);
        if count_on(waiting, device) == 0 {
            assert forall|i: int| 0 <= i < waiting.len() implies (
            #[trigger] waiting[i]).passport.device != device by {
                if i < rest.len() {
                    assert(rest[i] == waiting[i]);
                }
            }
        } else if count_on(rest, device) != 0 {
            let i = choose|i: int|
                0 <= i < rest.len() && (#[trigger] rest[i]).passport.device == device;
            assert(waiting[i] == rest[i]);
        } else {
            assert(waiting[waiting.len() - 1].passport.device == device);
        }
    }
}

/// The queue as a mathematical value: its ledger, the outstanding tickets in
/// the order they were granted, the waiting requests in the order they came,
/// the number that the next waiter gets, and the limits.
pub struct QueueView {
    pub ledger: LedgerView,
    pub issued: Seq<Issued>,
    pub waiting: Seq<Waiter>,
    pub next_seq: u64,
    pub config: QueueConfig,
}

impl QueueView {
    /// The queue over `ledger` with no ticket out and nobody waiting.
    pub open spec fn over(ledger: LedgerView, config: QueueConfig) -> QueueView {
        QueueView { ledger, issued: Seq::empty(), waiting: Seq::empty(), next_seq: 0, config }
    }

    /// The validity of a queue: its ledger is valid, the outstanding tickets
    /// are exactly the reservations of the ledger, one for one, and the
    /// waiters carry growing numbers below the next one.
    pub open spec fn wf(self) -> bool {
        &&& self.ledger.wf()
        &&& self.issued.len() == self.ledger.reservations.len()
        &&& forall|i: int|
            0 <= i < self.issued.len() ==> {
                &&& (#[trigger] self.issued[i]).handle == self.ledger.reservations[i].id
                &&& self.issued[i].passport.device == self.ledger.reservations[i].device
                &&& self.issued[i].passport.requested == self.ledger.reservations[i].amount
            }
        &&& forall|i: int, j: int|
            #![trigger self.waiting[i], self.waiting[j]]
            0 <= i < j < self.waiting.len() ==> self.waiting[i].seq < self.waiting[j].seq
        &&& forall|i: int|
            0 <= i < self.waiting.len() ==> (#[trigger] self.waiting[i]).seq < self.next_seq
    }

    /// How many requests wait for `device`.
    pub open spec fn waiting_on(self, device: DeviceId) -> nat {
        count_on(self.waiting, device)
    }

    /// Whether the request with number `seq` is waiting.
    pub open spec fn is_waiting(self, seq: u64) -> bool {
        exists|k: int| 0 <= k < self.waiting.len() && (#[trigger] self.waiting[k]).seq == seq
    }

    /// The place of the waiter with number `seq`.
    pub open spec fn waiter_index(self, seq: u64) -> int {
        choose|k: int| 0 <= k < self.waiting.len() && (#[trigger] self.waiting[k]).seq == seq
    }

    /// Whether no earlier waiter than the one at place `k` waits for the same
    /// device.
    pub open spec fn is_first_for_device(self, k: int) -> bool {
        forall|j: int|
            0 <= j < k ==> (#[trigger] self.waiting[j]).passport.device
                != self.waiting[k].passport.device
    }

    /// Whether a ticket with this reservation is outstanding.
    pub open spec fn is_outstanding(self, handle: u64) -> bool {
        self.ledger.is_live(handle)
    }

    /// Whether an outstanding ticket uses the artifact of `user`.
    pub open spec fn has_outstanding(self, user: ResourceUser) -> bool {
        exists|i: int| 0 <= i < self.issued.len() && user.backs((#[trigger] self.issued[i]).passport)
    }

    /// Whether `passport` is admitted as soon as it is submitted: nobody
    /// waits for its device and its amount can be reserved.
    pub open spec fn admits_at_once(self, passport: Passport) -> bool {
        &&& self.waiting_on(passport.device) == 0
        &&& self.ledger.can_reserve(passport.device, passport.requested)
    }

    /// Whether nobody more may wait for `device`.
    pub open spec fn is_full(self, device: DeviceId) -> bool {
        self.waiting_on(device) >= self.config.max_waiting || self.next_seq == u64::MAX
    }

    /// The queue after a ticket was granted for `passport`.
    pub open spec fn grant(self, passport: Passport) -> QueueView {
        QueueView {
            ledger: self.ledger.reserve(passport.device, passport.requested),
            issued: self.issued.push(Issued { handle: self.ledger.next_id, passport }),
            ..self
        }
    }

    /// The ticket that `grant` hands out for `passport`.
    pub open spec fn ticket_for(self, passport: Passport) -> TicketView {
        TicketView { passport, grant: passport.requested, handle: self.ledger.next_id }
    }

    /// The queue after `passport` joined the wait list at `now`.
    pub open spec fn enqueue(self, passport: Passport, now: u64) -> QueueView {
        QueueView {
            waiting: self.waiting.push(
                Waiter {
                    seq: self.next_seq,
                    passport,
                    deadline: deadline_after(now, self.config.admission_timeout),
                },
            ),
            next_seq: (self.next_seq + 1) as u64,
            ..self
        }
    }

    /// The queue without the waiter at place `k`.
    pub open spec fn without_waiter(self, k: int) -> QueueView {
        QueueView { waiting: self.waiting.remove(k), ..self }
    }

    /// The queue after `passport` was submitted at `now`: the passport is
    /// admitted at once, or turned away because the wait list is full, or it
    /// joins the wait list.
    pub open spec fn submit(self, passport: Passport, now: u64) -> QueueView {
        if self.admits_at_once(passport) {
            self.grant(passport)
        } else if self.is_full(passport.device) {
            self
        } else {
            self.enqueue(passport, now)
        }
    }

    /// Whether the waiter at place `k` has waited out its time at `now`.
    pub open spec fn is_overdue(self, k: int, now: u64) -> bool {
        now >= self.waiting[k].deadline
    }

    /// Whether the waiter at place `k` is admitted at `now`: its time is not
    /// up, no earlier waiter is left for its device, and its amount can be
    /// reserved.
    pub open spec fn admits_waiter(self, k: int, now: u64) -> bool {
        &&& !self.is_overdue(k, now)
        &&& self.is_first_for_device(k)
        &&& self.ledger.can_reserve(
            self.waiting[k].passport.device,
            self.waiting[k].passport.requested,
        )
    }

    /// The queue after the waiter `seq` asked at `now` whether it is
    /// admitted: it leaves the wait list when its time is up or when it is
    /// admitted, and stays otherwise.
    pub open spec fn poll(self, seq: u64, now: u64) -> QueueView {
        if !self.is_waiting(seq) {
            self
        } else {
            let k = self.waiter_index(seq);
            if self.is_overdue(k, now) {
                self.without_waiter(k)
            } else if self.admits_waiter(k, now) {
                self.without_waiter(k).grant(self.waiting[k].passport)
            } else {
                self
            }
        }
    }

    /// The queue after the waiter `seq` gave up.
    pub open spec fn cancel(self, seq: u64) -> QueueView {
        if self.is_waiting(seq) {
            self.without_waiter(self.waiter_index(seq))
        } else {
            self
        }
    }

    /// The queue after the ticket with reservation `handle` was released:
    /// without the ticket and its reservation if it was outstanding,
    /// unchanged if it was not.
    pub open spec fn release(self, handle: u64) -> QueueView {
        if self.ledger.is_live(handle) {
            QueueView {
                ledger: self.ledger.release(handle),
                issued: self.issued.remove(self.ledger.reservation_index(handle)),
                ..self
            }
        } else {
            self
        }
    }

    /// The queue after `device` was made known with `total` to offer: a
    /// device that was known already keeps its total.
    pub open spec fn add_device(self, device: DeviceId, total: ResourceVector) -> QueueView {
        if self.ledger.has_device(device) {
            self
        } else {
            QueueView { ledger: self.ledger.with_device(device, total), ..self }
        }
    }

    /// The queue after `user` was registered on `device`, if it could be.
    pub open spec fn register_user(self, device: DeviceId, user: ResourceUser) -> QueueView {
        if self.ledger.can_register(device, user) {
            QueueView { ledger: self.ledger.register(device, user), ..self }
        } else {
            self
        }
    }

    /// The queue after the user `user_id` was unregistered.
    pub open spec fn unregister_user(self, user_id: u64) -> QueueView {
        QueueView { ledger: self.ledger.unregister(user_id), ..self }
    }

    /// The queue after a full flush: no ticket is outstanding and no user is
    /// registered. Whoever waits keeps its place.
    pub open spec fn reset(self) -> QueueView {
        QueueView { ledger: self.ledger.cleared(), issued: Seq::empty(), ..self }
    }

    /// In a valid queue a waiter's number is found at one place only.
    pub proof fn lemma_waiter_index(self, seq: u64, k: int)
        requires
            self.wf(),
            0 <= k < self.waiting.len(),
            self.waiting[k].seq == seq,
        ensures
            self.is_waiting(seq),
            self.waiter_index(seq) == k,
    {
        let j = self.waiter_index(seq);
        if k < j {
            assert(self.waiting[k].seq < self.waiting[j].seq);
        }
        if j < k {
            assert(self.waiting[j].seq < self.waiting[k].seq);
        }
    }

    /// In a valid queue the record of a ticket stands where its reservation
    /// stands in the ledger.
    pub proof fn lemma_issued_index(self, handle: u64, k: int)
        requires
            self.wf(),
            0 <= k < self.issued.len(),
            self.issued[k].handle == handle,
        ensures
            self.ledger.is_live(handle),
            self.ledger.reservation_index(handle) == k,
    {
        self.ledger.lemma_reservation_index(handle, k);
    }

    /// Granting a ticket for an amount that can be reserved keeps the queue
    /// valid.
    pub proof fn lemma_grant_wf(self, passport: Passport)
        requires
            self.wf(),
            self.ledger.can_reserve(passport.device, passport.requested),
        ensures
            self.grant(passport).wf(),
    {
        self.ledger.lemma_reserve_wf(passport.device, passport.requested);
    }

    /// A new waiter keeps the queue valid.
    pub proof fn lemma_enqueue_wf(self, passport: Passport, now: u64)
        requires
            self.wf(),
            self.next_seq < u64::MAX,
        ensures
            self.enqueue(passport, now).wf(),
    {
        let next = self.enqueue(passport, now);
        let n = self.waiting.len() as int;
        assert forall|i: int, j: int|
            #![trigger next.waiting[i], next.waiting[j]]
            0 <= i < j < next.waiting.len() implies next.waiting[i].seq
            < next.waiting[j].seq by {
            if j == n {
                assert(self.waiting[i].seq < self.next_seq);
            } else {
                assert(self.waiting[i].seq < self.waiting[j].seq);
            }
        }
        assert forall|i: int| 0 <= i < next.waiting.len() implies (#[trigger] next.waiting[i]).seq
            < next.next_seq by {
            if i < n {
                assert(self.waiting[i].seq < self.next_seq);
            }
        }
    }

    /// A waiter that leaves keeps the queue valid, and is not waiting
    /// afterwards; everybody else keeps waiting, in the same order.
    pub proof fn lemma_without_waiter_wf(self, k: int)
        requires
            self.wf(),
            0 <= k < self.waiting.len(),
        ensures
            self.without_waiter(k).wf(),
            !self.without_waiter(k).is_waiting(self.waiting[k].seq),
            forall|seq: u64|
                seq != self.waiting[k].seq ==> (#[trigger] self.without_waiter(k).is_waiting(seq)
                    == self.is_waiting(seq)),
    {
        let next = self.without_waiter(k);
        let gone = self.waiting[k].seq;
        assert forall|i: int| 0 <= i < next.waiting.len() implies #[trigger] next.waiting[i]
            == self.waiting[if i < k {
            i
        } else {
            i + 1
        }] by {}
        assert forall|i: int, j: int|
            #![trigger next.waiting[i], next.waiting[j]]
            0 <= i < j < next.waiting.len() implies next.waiting[i].seq
            < next.waiting[j].seq by {
            let a = if i < k { i } else { i + 1 };
            let b = if j < k { j } else { j + 1 };
            assert(self.waiting[a].seq < self.waiting[b].seq);
        }
        assert forall|i: int| 0 <= i < next.waiting.len() implies (#[trigger] next.waiting[i]).seq
            < next.next_seq by {
            let a = if i < k { i } else { i + 1 };
            assert(self.waiting[a].seq < self.next_seq);
        }
        if next.is_waiting(gone) {
            let i = next.waiter_index(gone);
            let a = if i < k { i } else { i + 1 };
            self.lemma_waiter_index(gone, a);
        }
        assert forall|seq: u64| seq != gone implies (#[trigger] next.is_waiting(seq)
            == self.is_waiting(seq)) by {
            if self.is_waiting(seq) {
                let a = self.waiter_index(seq);
                let i = if a < k { a } else { a - 1 };
                assert(next.waiting[i].seq == seq);
            }
            if next.is_waiting(seq) {
                let i = next.waiter_index(seq);
                let a = if i < k { i } else { i + 1 };
                assert(self.waiting[a].seq == seq);
            }
        }
    }

    /// Submitting keeps the queue valid.
    pub proof fn lemma_submit_wf(self, passport: Passport, now: u64)
        requires
            self.wf(),
        ensures
            self.submit(passport, now).wf(),
    {
        if self.admits_at_once(passport) {
            self.lemma_grant_wf(passport);
        } else if !self.is_full(passport.device) {
            self.lemma_enqueue_wf(passport, now);
        }
    }

    /// Polling keeps the queue valid.
    pub proof fn lemma_poll_wf(self, seq: u64, now: u64)
        requires
            self.wf(),
        ensures
            self.poll(seq, now).wf(),
    {
        if self.is_waiting(seq) {
            let k = self.waiter_index(seq);
            self.lemma_without_waiter_wf(k);
            if !self.is_overdue(k, now) && self.admits_waiter(k, now) {
                self.without_waiter(k).lemma_grant_wf(self.waiting[k].passport);
            }
        }
    }

    /// Cancelling keeps the queue valid.
    pub proof fn lemma_cancel_wf(self, seq: u64)
        requires
            self.wf(),
        ensures
            self.cancel(seq).wf(),
    {
        if self.is_waiting(seq) {
            self.lemma_without_waiter_wf(self.waiter_index(seq));
        }
    }

    /// Releasing keeps the queue valid.
    pub proof fn lemma_release_wf(self, handle: u64)
        requires
            self.wf(),
        ensures
            self.release(handle).wf(),
    {
        self.ledger.lemma_release_wf(handle);
        if self.ledger.is_live(handle) {
            let next = self.release(handle);
            let k = self.ledger.reservation_index(handle);
            assert forall|i: int| 0 <= i < next.issued.len() implies {
                &&& (#[trigger] next.issued[i]).handle == next.ledger.reservations[i].id
                &&& next.issued[i].passport.device == next.ledger.reservations[i].device
                &&& next.issued[i].passport.requested == next.ledger.reservations[i].amount
            } by {
                let a = if i < k { i } else { i + 1 };
                assert(self.issued[a].handle == self.ledger.reservations[a].id);
            }
        }
    }

    /// A new device keeps the queue valid.
    pub proof fn lemma_add_device_wf(self, device: DeviceId, total: ResourceVector)
        requires
            self.wf(),
        ensures
            self.add_device(device, total).wf(),
    {
        if !self.ledger.has_device(device) {
            self.ledger.lemma_with_device(device, total);
        }
    }

    /// Registering a user keeps the queue valid.
    pub proof fn lemma_register_user_wf(self, device: DeviceId, user: ResourceUser)
        requires
            self.wf(),
        ensures
            self.register_user(device, user).wf(),
    {
        if self.ledger.can_register(device, user) {
            self.ledger.lemma_register_wf(device, user);
        }
    }

    /// Unregistering a user keeps the queue valid.
    pub proof fn lemma_unregister_user_wf(self, user_id: u64)
        requires
            self.wf(),
        ensures
            self.unregister_user(user_id).wf(),
    {
        self.ledger.lemma_unregister_wf(user_id);
    }

    /// A flush keeps the queue valid.
    pub proof fn lemma_reset_wf(self)
        requires
            self.wf(),
        ensures
            self.reset().wf(),
    {
        self.ledger.lemma_cleared();
    }
}

/// The place of one request on the wait list. The queue hands it out when
/// the request starts to wait, and the request asks with it whether it has
/// been admitted.
#[derive(Clone, Debug)]
pub struct WaitToken {
    seq: u64,
}

impl WaitToken {
    /// The number under which the request waits.
    pub closed spec fn spec_seq(&self) -> u64 {
        self.seq
    }

    /// The number under which the request waits.
    #[verifier::when_used_as_spec(spec_seq)]
    pub fn seq(&self) -> (seq: u64)
        ensures
            seq == self.spec_seq(),
    {
        self.seq
    }
}

/// What became of a passport that was submitted and not turned away.
#[derive(Clone, Debug)]
pub enum Admission {
    /// The passport was admitted at once.
    Granted(Ticket),
    /// The passport waits for capacity.
    Waiting(WaitToken),
}

/// The admission queue with the ledger it admits against.
pub struct AdmissionQueue {
    ledger: ResourceLedger,
    issued: Vec<Issued>,
    waiting: Vec<Waiter>,
    next_seq: u64,
    config: QueueConfig,
}

impl View for AdmissionQueue {
    type V = QueueView;

    closed spec fn view(&self) -> QueueView {
        QueueView {
            ledger: self.ledger@,
            issued: self.issued@,
            waiting: self.waiting@,
            next_seq: self.next_seq,
            config: self.config,
        }
    }
}

impl AdmissionQueue {
    /// The ledger inside the queue is valid.
    pub closed spec fn ledger_kept(&self) -> bool {
        self.ledger.wf()
    }

    /// The validity of the queue: its model is valid and so is its ledger.
    /// Every operation keeps it.
    pub open spec fn wf(&self) -> bool {
        &&& self@.wf()
        &&& self.ledger_kept()
    }

    /// A queue with the given limits over a ledger that knows no device.
    pub fn new(config: QueueConfig) -> (queue: AdmissionQueue)
        ensures
            queue.wf(),
            queue@ == QueueView::over(LedgerView::empty(), config),
    {
        AdmissionQueue {
            ledger: ResourceLedger::new(),
            issued: Vec::new(),
            waiting: Vec::new(),
            next_seq: 0,
            config,
        }
    }

    /// The limits of the queue.
    pub fn config(&self) -> (config: QueueConfig)
        ensures
            config == self@.config,
    {
        self.config
    }

    /// The ledger that the queue admits against.
    pub fn ledger(&self) -> (ledger: &ResourceLedger)
        ensures
            ledger@ == self@.ledger,
            self.wf() ==> ledger.wf(),
    {
        &self.ledger
    }

    /// Makes `device` known to the ledger with `total` to offer. Returns
    /// whether it was added: a device that is known already keeps its total.
    pub fn add_device(&mut self, device: DeviceId, total: ResourceVector) -> (added: bool)
        requires
            old(self).wf(),
        ensures
            final(self).wf(),
            added == !old(self)@.ledger.has_device(device),
            final(self)@ == old(self)@.add_device(device, total),
    {
        proof {
            self@.lemma_add_device_wf(device, total);
        }
        self.ledger.add_device(device, total)
    }

    /// What is left of `device`.
    pub fn available(&self, device: DeviceId) -> (left: ResourceVector)
        requires
            self.wf(),
        ensures
            left@ == self@.ledger.available(device),
    {
        self.ledger.available(device)
    }

    /// How many requests wait for `device`.
    pub fn waiting_on(&self, device: DeviceId) -> (depth: usize)
        ensures
            depth == self@.waiting_on(device),
    {
        let mut depth: usize = 0;
        let mut i: usize = 0;
        while i < self.waiting.len()
            invariant
                i <= self.waiting.len(),
                depth == count_on(self.waiting@.take(i as int), device),
                depth <= i,
            decreases self.waiting.len() - i,
        {
            assert(self.waiting@.take(i + 1).drop_last() =~= self.waiting@.take(i as int));
            if self.waiting[i].passport.device == device {
                depth = depth + 1;
            }
            i = i + 1;
        }
        assert(self.waiting@.take(i as int) =~= self.waiting@);
        depth
    }

    /// Where the waiter with number `seq` stands, if it waits.
    fn find_waiter(&self, seq: u64) -> (place: Option<usize>)
        ensures
            match place {
                Some(k) => k < self.waiting.len() && self.waiting[k as int].seq == seq,
                None => !self@.is_waiting(seq),
            },
    {
        let mut k: usize = 0;
        while k < self.waiting.len()
            invariant
                k <= self.waiting.len(),
                forall|j: int| 0 <= j < k ==> (#[trigger] self.waiting[j]).seq != seq,
            decreases self.waiting.len() - k,
        {
            if self.waiting[k].seq == seq {
                return Some(k);
            }
            k = k + 1;
        }
        None
    }

    /// Where the record of the ticket with reservation `handle` stands, if
    /// the ticket is outstanding.
    fn find_issued(&self, handle: u64) -> (place: Option<usize>)
        requires
            self.wf(),
        ensures
            match place {
                Some(k) => k < self.issued.len() && self.issued[k as int].handle == handle
                    && self@.ledger.is_live(handle) && self@.ledger.reservation_index(handle)
                    == k,
                None => !self@.ledger.is_live(handle),
            },
    {
        let mut k: usize = 0;
        while k < self.issued.len()
            invariant
                self.wf(),
                k <= self.issued.len(),
                forall|j: int| 0 <= j < k ==> (#[trigger] self.issued[j]).handle != handle,
            decreases self.issued.len() - k,
        {
            if self.issued[k].handle == handle {
                proof {
                    self@.lemma_issued_index(handle, k as int);
                }
                return Some(k);
            }
            k = k + 1;
        }
        proof {
            if self@.ledger.is_live(handle) {
                let j = self@.ledger.reservation_index(handle);
                assert(self.issued[j].handle == self@.ledger.reservations[j].id);
            }
        }
        None
    }

    /// Whether no earlier waiter than the one at place `k` waits for the same
    /// device.
    fn is_first_for_device(&self, k: usize) -> (first: bool)
        requires
            k < self.waiting.len(),
        ensures
            first == self@.is_first_for_device(k as int),
    {
        let device: DeviceId = self.waiting[k].passport.device;
        let mut j: usize = 0;
        while j < k
            invariant
                j <= k,
                k < self.waiting.len(),
                device == self.waiting[k as int].passport.device,
                forall|i: int| 0 <= i < j ==> (#[trigger] self.waiting[i]).passport.device != device,
            decreases k - j,
        {
            if self.waiting[j].passport.device == device {
                return false;
            }
            j = j + 1;
        }
        true
    }

    /// Submits `passport` at time `now`.
    ///
    /// The passport is admitted at once, with a ticket for exactly the amount
    /// it asks for, when nobody waits for its device and the amount can be
    /// reserved. Otherwise it is turned away with [`QueueError::Full`] when
    /// the wait list of its device is as deep as it may get, and joins the
    /// wait list when it is not. A passport is judged by its value alone,
    /// whether it is fresh or has been submitted before.
    pub fn submit(&mut self, passport: Passport, now: u64) -> (outcome: Result<
        Admission,
        QueueError,
    >)
        requires
            old(self).wf(),
        ensures
            final(self).wf(),
            final(self)@ == old(self)@.submit(passport, now),
            match outcome {
                Ok(Admission::Granted(ticket)) => old(self)@.admits_at_once(passport) && ticket@
                    == old(self)@.ticket_for(passport),
                Ok(Admission::Waiting(token)) => !old(self)@.admits_at_once(passport) && !old(
                    self,
                )@.is_full(passport.device) && token.seq() == old(self)@.next_seq,
                Err(e) => e == QueueError::Full && !old(self)@.admits_at_once(passport) && old(
                    self,
                )@.is_full(passport.device),
            },
    {
        proof {
            self@.lemma_submit_wf(passport, now);
        }
        let depth: usize = self.waiting_on(passport.device);
        if depth == 0 {
            match self.ledger.try_reserve(passport.device, passport.requested) {
                Some(handle) => {
                    self.issued.push(Issued { handle: handle.id(), passport });
                    return Ok(
                        Admission::Granted(Ticket::issue(passport, passport.requested, handle)),
                    );
                },
                None => {},
            }
        }
        if depth >= self.config.max_waiting || self.next_seq == u64::MAX {
            return Err(QueueError::Full);
        }
        let seq: u64 = self.next_seq;
        self.waiting.push(
            Waiter { seq, passport, deadline: now.saturating_add(self.config.admission_timeout) },
        );
        self.next_seq = seq + 1;
        Ok(Admission::Waiting(WaitToken { seq }))
    }

    /// Asks at time `now` whether the waiter of `token` is admitted.
    ///
    /// A token that is not on the wait list gets [`QueueError::Cancelled`].
    /// A waiter whose time is up leaves the list with
    /// [`QueueError::Timeout`]. A waiter is admitted, and leaves the list
    /// with its ticket, when no earlier waiter is left for its device and its
    /// amount can be reserved. Otherwise it stays where it is and gets
    /// `None`.
    pub fn poll(&mut self, token: &WaitToken, now: u64) -> (outcome: Result<
        Option<Ticket>,
        QueueError,
    >)
        requires
            old(self).wf(),
        ensures
            final(self).wf(),
            final(self)@ == old(self)@.poll(token.seq(), now),
            match outcome {
                Ok(Some(ticket)) => old(self)@.is_waiting(token.seq()) && old(self)@.admits_waiter(
                    old(self)@.waiter_index(token.seq()),
                    now,
                ) && ticket@ == old(self)@.ticket_for(
                    old(self)@.waiting[old(self)@.waiter_index(token.seq())].passport,
                ),
                Ok(None) => old(self)@.is_waiting(token.seq()) && !old(self)@.is_overdue(
                    old(self)@.waiter_index(token.seq()),
                    now,
                ) && !old(self)@.admits_waiter(old(self)@.waiter_index(token.seq()), now),
                Err(QueueError::Timeout) => old(self)@.is_waiting(token.seq()) && old(
                    self,
                )@.is_overdue(old(self)@.waiter_index(token.seq()), now),
                Err(QueueError::Cancelled) => !old(self)@.is_waiting(token.seq()),
                Err(QueueError::Full) => false,
            },
    {
        proof {
            self@.lemma_poll_wf(token.seq(), now);
        }
        let place: usize = match self.find_waiter(token.seq) {
            Some(k) => k,
            None => {
                return Err(QueueError::Cancelled);
            },
        };
        proof {
            self@.lemma_waiter_index(token.seq(), place as int);
        }
        let waiter: Waiter = self.waiting[place];
        if now >= waiter.deadline {
            self.waiting.remove(place);
            return Err(QueueError::Timeout);
        }
        if !self.is_first_for_device(place) {
            return Ok(None);
        }
        match self.ledger.try_reserve(waiter.passport.device, waiter.passport.requested) {
            Some(handle) => {
                self.waiting.remove(place);
                self.issued.push(Issued { handle: handle.id(), passport: waiter.passport });
                Ok(Some(Ticket::issue(waiter.passport, waiter.passport.requested, handle)))
            },
            None => Ok(None),
        }
    }

    /// Takes the waiter of `token` off the wait list. Returns whether it was
    /// waiting.
    pub fn cancel(&mut self, token: WaitToken) -> (cancelled: bool)
        requires
            old(self).wf(),
        ensures
            final(self).wf(),
            cancelled == old(self)@.is_waiting(token.seq()),
            final(self)@ == old(self)@.cancel(token.seq()),
    {
        proof {
            self@.lemma_cancel_wf(token.seq());
        }
        match self.find_waiter(token.seq) {
            Some(k) => {
                proof {
                    self@.lemma_waiter_index(token.seq(), k as int);
                }
                self.waiting.remove(k);
                true
            },
            None => false,
        }
    }

    /// Whether `ticket` still holds its reservation. A ticket that was
    /// released, or revoked by a flush, does not.
    pub fn is_valid(&self, ticket: &Ticket) -> (valid: bool)
        requires
            self.wf(),
        ensures
            valid == self@.is_outstanding(ticket@.handle),
    {
        self.ledger.is_live(ticket.handle())
    }

    /// Releases `ticket` and returns its reservation to its device. Returns
    /// whether anything was released: a ticket that was released before, or
    /// revoked by a flush, changes nothing.
    pub fn release(&mut self, ticket: Ticket) -> (released: bool)
        requires
            old(self).wf(),
        ensures
            final(self).wf(),
            released == old(self)@.is_outstanding(ticket@.handle),
            final(self)@ == old(self)@.release(ticket@.handle),
    {
        proof {
            self@.lemma_release_wf(ticket@.handle);
        }
        match self.find_issued(ticket.handle().id()) {
            Some(k) => {
                self.ledger.release(ticket.into_handle());
                self.issued.remove(k);
                true
            },
            None => false,
        }
    }

    /// Whether an outstanding ticket uses the artifact of `user`.
    pub fn has_outstanding(&self, user: &ResourceUser) -> (used: bool)
        ensures
            used == self@.has_outstanding(*user),
    {
        let mut i: usize = 0;
        while i < self.issued.len()
            invariant
                i <= self.issued.len(),
                forall|j: int| 0 <= j < i ==> !user.backs((#[trigger] self.issued[j]).passport),
            decreases self.issued.len() - i,
        {
            if user.is_used_by(&self.issued[i].passport) {
                return true;
            }
            i = i + 1;
        }
        false
    }

    /// Registers `user` on `device` and holds its footprint there. Returns
    /// whether the user was registered; where it was not, nothing changed.
    pub fn register_user(&mut self, device: DeviceId, user: ResourceUser) -> (registered: bool)
        requires
            old(self).wf(),
        ensures
            final(self).wf(),
            registered == old(self)@.ledger.can_register(device, user),
            final(self)@ == old(self)@.register_user(device, user),
    {
        proof {
            self@.lemma_register_user_wf(device, user);
        }
        self.ledger.register_user(device, user)
    }

    /// Unregisters the user `user_id` and returns its footprint to its
    /// device. Returns the user, or `None` when no such user is registered.
    pub fn unregister_user(&mut self, user_id: u64) -> (removed: Option<ResourceUser>)
        requires
            old(self).wf(),
        ensures
            final(self).wf(),
            removed == match old(self)@.ledger.registration_of(user_id) {
                Some(registration) => Some(registration.user),
                None => None,
            },
            final(self)@ == old(self)@.unregister_user(user_id),
    {
        proof {
            self@.lemma_unregister_user_wf(user_id);
        }
        self.ledger.unregister_user(user_id)
    }

    /// Flushes the ledger: every outstanding ticket is revoked and every user
    /// is unregistered. Whoever waits keeps its place.
    pub fn reset(&mut self)
        requires
            old(self).wf(),
        ensures
            final(self).wf(),
            final(self)@ == old(self)@.reset(),
    {
        proof {
            self@.lemma_reset_wf();
        }
        self.ledger.reset();
        self.issued.clear();
    }
}

} // verus!
