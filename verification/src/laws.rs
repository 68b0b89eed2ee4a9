//! What holds of the ledger and the queue whatever is done with them.
//!
//! The laws are stated over the mathematical models, [`LedgerView`] and
//! [`QueueView`], of which every operation of the executable types is proved
//! to perform one transition.

use vstd::prelude::*;
use crate::claims::Claim;
use crate::ledger::LedgerView;
use crate::queue::{lemma_count_on, QueueView};
use crate::request::{DeviceId, Passport, ResourceUser};
use crate::resource::{Amount, ResourceVector};

verus! {

/// One operation on an admission queue, with its arguments.
pub enum QueueOp {
    AddDevice { device: DeviceId, total: ResourceVector },
    Submit { passport: Passport, now: u64 },
    Poll { seq: u64, now: u64 },
    Cancel { seq: u64 },
    Release { handle: u64 },
    RegisterUser { device: DeviceId, user: ResourceUser },
    UnregisterUser { user_id: u64 },
    Reset,
}

/// The queue after one operation.
pub open spec fn apply(queue: QueueView, op: QueueOp) -> QueueView {
    match op {
        QueueOp::AddDevice { device, total } => queue.add_device(device, total),
        QueueOp::Submit { passport, now } => queue.submit(passport, now),
        QueueOp::Poll { seq, now } => queue.poll(seq, now),
        QueueOp::Cancel { seq } => queue.cancel(seq),
        QueueOp::Release { handle } => queue.release(handle),
        QueueOp::RegisterUser { device, user } => queue.register_user(device, user),
        QueueOp::UnregisterUser { user_id } => queue.unregister_user(user_id),
        QueueOp::Reset => queue.reset(),
    }
}

/// The queue after a sequence of operations, in their order.
pub open spec fn run(queue: QueueView, ops: Seq<QueueOp>) -> QueueView
    decreases ops.len(),
{
    if ops.len() == 0 {
        queue
    } else {
        apply(run(queue, ops.drop_last()), ops.last())
    }
}

/// Every operation keeps a valid queue valid.
pub proof fn law_apply_keeps_valid(queue: QueueView, op: QueueOp)
    requires
        queue.wf(),
    ensures
        apply(queue, op).wf(),
{
    match op {
        QueueOp::AddDevice { device, total } => queue.lemma_add_device_wf(device, total),
        QueueOp::Submit { passport, now } => queue.lemma_submit_wf(passport, now),
        QueueOp::Poll { seq, now } => queue.lemma_poll_wf(seq, now),
        QueueOp::Cancel { seq } => queue.lemma_cancel_wf(seq),
        QueueOp::Release { handle } => queue.lemma_release_wf(handle),
        QueueOp::RegisterUser { device, user } => queue.lemma_register_user_wf(device, user),
        QueueOp::UnregisterUser { user_id } => queue.lemma_unregister_user_wf(user_id),
        QueueOp::Reset => queue.lemma_reset_wf(),
    }
}

/// No over-commitment, ever: whatever operations are applied to a valid
/// queue, in whatever order, after each of them the reservations granted on a
/// device, together with the footprints registered on it, sum to at most the
/// total of the device.
pub proof fn law_no_overcommitment(start: QueueView, ops: Seq<QueueOp>, device: DeviceId)
    requires
        start.wf(),
    ensures
        forall|n: int|
            0 <= n <= ops.len() ==> {
                let ledger = (#[trigger] run(start, ops.take(n))).ledger;
                &&& run(start, ops.take(n)).wf()
                &&& ledger.reserved_on(device).fits_within(ledger.total(device))
                &&& ledger.committed(device).fits_within(ledger.total(device))
            },
{
    assert forall|n: int| 0 <= n <= ops.len() implies {
        let ledger = (#[trigger] run(start, ops.take(n))).ledger;
        &&& run(start, ops.take(n)).wf()
        &&& ledger.reserved_on(device).fits_within(ledger.total(device))
        &&& ledger.committed(device).fits_within(ledger.total(device))
    } by {
        law_run_keeps_valid(start, ops.take(n));
        let ledger = run(start, ops.take(n)).ledger;
        ledger.lemma_no_overcommitment(device);
        crate::claims::lemma_claimed_non_negative(
            ledger.users.map_values(|u: crate::ledger::Registration| u.claim()),
            device,
        );
    }
}

/// Every sequence of operations keeps a valid queue valid.
pub proof fn law_run_keeps_valid(start: QueueView, ops: Seq<QueueOp>)
    requires
        start.wf(),
    ensures
        run(start, ops).wf(),
    decreases ops.len(),
{
    if ops.len() > 0 {
        law_run_keeps_valid(start, ops.drop_last());
        law_apply_keeps_valid(run(start, ops.drop_last()), ops.last());
    }
}

/// A released ticket returns its reservation in full: what is available on
/// the device of the reservation grows by exactly the amount reserved, and
/// every other device stays as it was.
pub proof fn law_release_returns_reservation(queue: QueueView, handle: u64, device: DeviceId)
    requires
        queue.wf(),
        queue.is_outstanding(handle),
    ensures
        queue.release(handle).ledger.available(device) == queue.ledger.available(device).plus(
            queue.ledger.reservations[queue.ledger.reservation_index(handle)].claim().on(device),
        ),
        !queue.release(handle).is_outstanding(handle),
{
    queue.ledger.lemma_release_committed(handle, device);
    queue.ledger.lemma_release_wf(handle);
}

/// Nothing leaks: a ticket that is granted and then released leaves every
/// device with exactly what was available before the ticket was granted, and
/// the tickets and reservations of everybody else as they were.
pub proof fn law_grant_then_release(queue: QueueView, passport: Passport, device: DeviceId)
    requires
        queue.wf(),
        queue.ledger.can_reserve(passport.device, passport.requested),
    ensures
        queue.grant(passport).is_outstanding(queue.ticket_for(passport).handle),
        queue.grant(passport).release(queue.ticket_for(passport).handle).issued == queue.issued,
        queue.grant(passport).release(queue.ticket_for(passport).handle).ledger.reservations
            == queue.ledger.reservations,
        queue.grant(passport).release(queue.ticket_for(passport).handle).ledger.available(device)
            == queue.ledger.available(device),
        queue.grant(passport).ledger.available(device) == queue.ledger.available(device).minus(
            (Claim { device: passport.device, amount: passport.requested }).on(device),
        ),
{
    let granted = queue.grant(passport);
    let handle = queue.ledger.next_id;
    let n = queue.issued.len() as int;
    queue.lemma_grant_wf(passport);
    queue.ledger.lemma_reserve_committed(passport.device, passport.requested, device);
    granted.lemma_issued_index(handle, n);
    assert(granted.issued.remove(n) =~= queue.issued);
    assert(granted.ledger.reservations.remove(n) =~= queue.ledger.reservations);
    granted.ledger.lemma_release_committed(handle, device);
}

/// A reservation is returned once only: releasing a ticket a second time
/// changes nothing, and neither does releasing a ticket that a flush has
/// revoked.
pub proof fn law_release_once(queue: QueueView, handle: u64, device: DeviceId)
    requires
        queue.wf(),
    ensures
        queue.release(handle).release(handle) == queue.release(handle),
        queue.release(handle).release(handle).ledger.available(device) == queue.release(
            handle,
        ).ledger.available(device),
        queue.reset().release(handle) == queue.reset(),
        !queue.is_outstanding(handle) ==> queue.release(handle) == queue,
{
    queue.ledger.lemma_release_wf(handle);
    queue.ledger.lemma_cleared();
}

/// A flush returns everything: afterwards nothing is committed on any
/// device, no ticket from before is valid, and each device is available in
/// full.
pub proof fn law_reset_reclaims_everything(queue: QueueView, handle: u64, device: DeviceId)
    requires
        queue.wf(),
    ensures
        !queue.reset().is_outstanding(handle),
        queue.reset().ledger.committed(device) == Amount::zero(),
        queue.reset().ledger.available(device) == queue.ledger.total(device),
        queue.reset().ledger.total(device) == queue.ledger.total(device),
{
    queue.ledger.lemma_cleared();
}

/// First come, first admitted: while a request waits for a device, no
/// request that came later for the same device is admitted, however little
/// it asks for. Polling the later waiter grants nothing and leaves the
/// earlier one waiting at its place.
pub proof fn law_fifo_among_waiters(queue: QueueView, earlier: int, later: int, now: u64)
    requires
        queue.wf(),
        0 <= earlier < later < queue.waiting.len(),
        queue.waiting[earlier].passport.device == queue.waiting[later].passport.device,
    ensures
        !queue.admits_waiter(later, now),
        queue.poll(queue.waiting[later].seq, now).ledger == queue.ledger,
        queue.poll(queue.waiting[later].seq, now).issued == queue.issued,
        queue.poll(queue.waiting[later].seq, now).waiting[earlier] == queue.waiting[earlier],
{
    queue.lemma_waiter_index(queue.waiting[later].seq, later);
    assert(queue.waiting[earlier].passport.device == queue.waiting[later].passport.device);
}

/// First come, first admitted, for a newcomer: while a request waits for a
/// device, a passport submitted for the same device is not admitted at once,
/// however little it asks for. It reserves nothing and joins the wait list
/// behind everybody, or is turned away.
pub proof fn law_fifo_on_submit(queue: QueueView, earlier: int, passport: Passport, now: u64)
    requires
        queue.wf(),
        0 <= earlier < queue.waiting.len(),
        queue.waiting[earlier].passport.device == passport.device,
    ensures
        !queue.admits_at_once(passport),
        queue.submit(passport, now).ledger == queue.ledger,
        queue.submit(passport, now).issued == queue.issued,
        queue.submit(passport, now).waiting.len() >= queue.waiting.len(),
        forall|k: int|
            0 <= k < queue.waiting.len() ==> #[trigger] queue.submit(passport, now).waiting[k]
                == queue.waiting[k],
{
    lemma_count_on(queue.waiting, passport.device);
}

/// Admission is owed to the first in line: a waiter whose time is not up,
/// with no earlier waiter for its device, and whose amount can be reserved,
/// is admitted when it polls, with a ticket for exactly its passport.
pub proof fn law_first_in_line_is_admitted(queue: QueueView, k: int, now: u64)
    requires
        queue.wf(),
        0 <= k < queue.waiting.len(),
        now < queue.waiting[k].deadline,
        queue.is_first_for_device(k),
        queue.ledger.can_reserve(
            queue.waiting[k].passport.device,
            queue.waiting[k].passport.requested,
        ),
    ensures
        queue.poll(queue.waiting[k].seq, now) == queue.without_waiter(k).grant(
            queue.waiting[k].passport,
        ),
        queue.poll(queue.waiting[k].seq, now).is_outstanding(queue.ledger.next_id),
        !queue.poll(queue.waiting[k].seq, now).is_waiting(queue.waiting[k].seq),
{
    queue.lemma_waiter_index(queue.waiting[k].seq, k);
    queue.lemma_without_waiter_wf(k);
    queue.ledger.lemma_reserve_wf(
        queue.waiting[k].passport.device,
        queue.waiting[k].passport.requested,
    );
}

/// A revoked ticket hands back the passport it was granted for, and that
/// passport needs no new estimate: submitted again, to whatever the queue has
/// become, it is judged by the same rule as the passport first submitted,
/// and changes the queue in the same way.
pub proof fn law_returned_passport_is_resubmittable(
    granting: QueueView,
    passport: Passport,
    later: QueueView,
    now: u64,
)
    ensures
        granting.ticket_for(passport).passport == passport,
        later.admits_at_once(granting.ticket_for(passport).passport) == later.admits_at_once(
            passport,
        ),
        later.is_full(granting.ticket_for(passport).passport.device) == later.is_full(
            passport.device,
        ),
        later.submit(granting.ticket_for(passport).passport, now) == later.submit(passport, now),
{
}

/// What fits is granted: a passport for a known device that asks for no more
/// than is available there is admitted at once when nobody waits for the
/// device, as long as an identifier is left for its reservation. The ticket
/// is for that very passport and for exactly the amount it asks for, it is
/// outstanding afterwards, and what is available falls by that amount on the
/// device of the passport and nowhere else.
pub proof fn law_submit_grants_what_fits(
    queue: QueueView,
    passport: Passport,
    now: u64,
    device: DeviceId,
)
    requires
        queue.wf(),
        queue.ledger.has_device(passport.device),
        passport.requested@.fits_within(queue.ledger.available(passport.device)),
        queue.waiting_on(passport.device) == 0,
        queue.ledger.next_id < u64::MAX,
    ensures
        queue.admits_at_once(passport),
        queue.submit(passport, now) == queue.grant(passport),
        queue.ticket_for(passport).passport == passport,
        queue.ticket_for(passport).grant == passport.requested,
        queue.submit(passport, now).is_outstanding(queue.ticket_for(passport).handle),
        queue.submit(passport, now).ledger.available(device) == queue.ledger.available(
            device,
        ).minus((Claim { device: passport.device, amount: passport.requested }).on(device)),
{
    queue.ledger.lemma_reserve_wf(passport.device, passport.requested);
    queue.ledger.lemma_reserve_committed(passport.device, passport.requested, device);
}

/// After a flush the way back is open: the passport that a revoked ticket
/// hands back, submitted again as it is, is granted at once when it fits into
/// what the fresh ledger has available and nobody waits for its device, as
/// long as an identifier is left for its reservation. The new ticket is for
/// that very passport and amount, and what is available falls by it. A
/// passport that asks for no more than its device offers in total always
/// fits after a flush.
pub proof fn law_admitted_after_reset(
    queue: QueueView,
    passport: Passport,
    now: u64,
    device: DeviceId,
)
    requires
        queue.wf(),
        queue.ledger.has_device(passport.device),
        passport.requested@.fits_within(queue.reset().ledger.available(passport.device)),
        queue.waiting_on(passport.device) == 0,
        queue.ledger.next_id < u64::MAX,
    ensures
        queue.reset().ledger.available(passport.device) == queue.ledger.total(passport.device),
        queue.reset().admits_at_once(passport),
        queue.reset().submit(passport, now) == queue.reset().grant(passport),
        queue.reset().ticket_for(passport).passport == passport,
        queue.reset().ticket_for(passport).grant == passport.requested,
        queue.reset().submit(passport, now).is_outstanding(
            queue.reset().ticket_for(passport).handle,
        ),
        queue.reset().submit(passport, now).ledger.available(device)
            == queue.reset().ledger.available(device).minus(
            (Claim { device: passport.device, amount: passport.requested }).on(device),
        ),
{
    queue.ledger.lemma_cleared();
    queue.lemma_reset_wf();
    assert(queue.reset().ledger.has_device(passport.device));
    law_submit_grants_what_fits(queue.reset(), passport, now, device);
}

} // verus!
