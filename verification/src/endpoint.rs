//! The rules that every operation of an endpoint follows, whatever model
//! runs behind it: a request enters through the admission queue, runs only
//! under a ticket that is still valid, and gives its ticket back however it
//! ends.

use vstd::prelude::*;
use crate::llm::LLMEndpointError;
use crate::queue::{Admission, AdmissionQueue, WaitToken};
use crate::request::{Passport, QueueError, Ticket};

verus! {

/// Submits `passport` for an operation of an endpoint, at time `now`. What
/// the queue decides is what [`AdmissionQueue::submit`] decides; a passport
/// that the queue turns away comes back as the endpoint's error for it.
pub fn request_admission(queue: &mut AdmissionQueue, passport: Passport, now: u64) -> (outcome: Result<
    Admission,
    LLMEndpointError,
>)
    requires
        old(queue).wf(),
    ensures
        final(queue).wf(),
        final(queue)@ == old(queue)@.submit(passport, now),
        match outcome {
            Ok(Admission::Granted(ticket)) => old(queue)@.admits_at_once(passport) && ticket@
                == old(queue)@.ticket_for(passport),
            Ok(Admission::Waiting(token)) => !old(queue)@.admits_at_once(passport) && !old(
                queue,
            )@.is_full(passport.device) && token.seq() == old(queue)@.next_seq,
            Err(error) => error == LLMEndpointError::Queue(QueueError::Full) && !old(
                queue,
            )@.admits_at_once(passport) && old(queue)@.is_full(passport.device),
        },
{
    match queue.submit(passport, now) {
        Ok(admission) => Ok(admission),
        Err(error) => Err(LLMEndpointError::from(error)),
    }
}

/// Asks at time `now` whether the waiter of `token` is admitted. What the
/// queue decides is what [`AdmissionQueue::poll`] decides; a waiter that the
/// queue gives up on gets the endpoint's error for it.
pub fn poll_admission(queue: &mut AdmissionQueue, token: &WaitToken, now: u64) -> (outcome: Result<
    Option<Ticket>,
    LLMEndpointError,
>)
    requires
        old(queue).wf(),
    ensures
        final(queue).wf(),
        final(queue)@ == old(queue)@.poll(token.seq(), now),
        match outcome {
            Ok(Some(ticket)) => old(queue)@.is_waiting(token.seq()) && old(queue)@.admits_waiter(
                old(queue)@.waiter_index(token.seq()),
                now,
            ) && ticket@ == old(queue)@.ticket_for(
                old(queue)@.waiting[old(queue)@.waiter_index(token.seq())].passport,
            ),
            Ok(None) => old(queue)@.is_waiting(token.seq()) && !old(queue)@.is_overdue(
                old(queue)@.waiter_index(token.seq()),
                now,
            ) && !old(queue)@.admits_waiter(old(queue)@.waiter_index(token.seq()), now),
            Err(error) => if old(queue)@.is_waiting(token.seq()) {
                error == LLMEndpointError::Queue(QueueError::Timeout) && old(queue)@.is_overdue(
                    old(queue)@.waiter_index(token.seq()),
                    now,
                )
            } else {
                error == LLMEndpointError::Queue(QueueError::Cancelled)
            },
        },
{
    match queue.poll(token, now) {
        Ok(ticket) => Ok(ticket),
        Err(error) => Err(LLMEndpointError::from(error)),
    }
}

/// Checks `ticket` before an operation runs, or goes on running, under it.
/// A ticket that still holds its reservation passes. A ticket that was
/// revoked fails with [`LLMEndpointError::Retry`], which returns the passport
/// of the ticket for the caller to submit again.
pub fn authorize(queue: &AdmissionQueue, ticket: &Ticket) -> (outcome: Result<(), LLMEndpointError>)
    requires
        queue.wf(),
    ensures
        outcome == if queue@.is_outstanding(ticket@.handle) {
            Ok::<(), LLMEndpointError>(())
        } else {
            Err(LLMEndpointError::Retry(ticket@.passport))
        },
{
    if queue.is_valid(ticket) {
        Ok(())
    } else {
        Err(LLMEndpointError::Retry(ticket.passport()))
    }
}

/// Ends an operation that ran under `ticket` with `outcome`, and releases
/// the ticket whatever the outcome is. Where the ticket held its reservation
/// to the end, the outcome stands, be it a result or an error of the model.
/// Where the ticket was revoked while the operation ran, the outcome is
/// not to be trusted: the operation fails with [`LLMEndpointError::Retry`],
/// which returns the passport of the ticket for the caller to submit again.
pub fn conclude<T>(queue: &mut AdmissionQueue, ticket: Ticket, outcome: Result<
    T,
    LLMEndpointError,
>) -> (result: Result<T, LLMEndpointError>)
    requires
        old(queue).wf(),
    ensures
        final(queue).wf(),
        final(queue)@ == old(queue)@.release(ticket@.handle),
        !final(queue)@.is_outstanding(ticket@.handle),
        result == if old(queue)@.is_outstanding(ticket@.handle) {
            outcome
        } else {
            Err(LLMEndpointError::Retry(ticket@.passport))
        },
{
    proof {
        queue@.ledger.lemma_release_wf(ticket@.handle);
    }
    let passport: Passport = ticket.passport();
    if queue.release(ticket) {
        outcome
    } else {
        Err(LLMEndpointError::Retry(passport))
    }
}

} // verus!
