//! The values that travel with a request: the device it runs on, the
//! passport that prices it, and the ticket that admits it.

use vstd::prelude::*;
use crate::ledger::ReservationHandle;
use crate::resource::ResourceVector;

verus! {

/// A compute device against which resources are reserved: the host
/// processor, or one accelerator by its index.
#[derive(Clone, Copy, Debug, PartialEq, Eq, Hash, Structural)]
pub enum DeviceId {
    Cpu,
    Accelerator(u32),
}

/// The identity of a model: every request for one model, and every artifact
/// loaded for it, carries the same value.
#[derive(Clone, Copy, Debug, PartialEq, Eq, Hash, Structural)]
pub struct ModelId(pub u64);

/// What a request asks a model to do.
#[derive(Clone, Copy, Debug, PartialEq, Eq, Hash, Structural)]
pub enum RequestKind {
    /// A completion that leaves no session behind.
    CompletionOneShot,
    /// A completion inside a conversation whose session is kept.
    CompletionSession,
    /// Embeddings of a batch of inputs.
    Embeddings,
}

/// An estimate of what one request needs on one device. A passport holds no
/// capacity; it is a plain value that may be submitted again unchanged.
#[derive(Clone, Copy, Debug, PartialEq, Eq, Hash, Structural)]
pub struct Passport {
    pub device: DeviceId,
    pub kind: RequestKind,
    pub requested: ResourceVector,
    pub model: ModelId,
}

/// Why the admission queue turned a request away.
#[derive(Clone, Copy, Debug, PartialEq, Eq, Hash, Structural)]
pub enum QueueError {
    /// The wait list of the device is as deep as it may get.
    Full,
    /// The request waited until its admission deadline without being admitted.
    Timeout,
    /// The request is not waiting any more: it was cancelled.
    Cancelled,
}

/// What a loaded artifact is.
#[derive(Clone, Copy, Debug, PartialEq, Eq, Hash, Structural)]
pub enum ArtifactKind {
    /// The weights of a model.
    Model,
    /// The context of one conversation with a model.
    Session,
}

/// The resource-accounting handle of one loaded artifact: who it is, which
/// model it belongs to, and the footprint that the ledger holds for it while
/// it is registered.
#[derive(Clone, Copy, Debug, PartialEq, Eq, Hash, Structural)]
pub struct ResourceUser {
    pub id: u64,
    pub model: ModelId,
    pub kind: ArtifactKind,
    pub footprint: ResourceVector,
}

impl ResourceUser {
    /// Whether a request priced by `passport` uses this artifact: a model is
    /// used by every request for it, a session by the session completions of
    /// its model.
    pub open spec fn backs(self, passport: Passport) -> bool {
        &&& passport.model == self.model
        &&& (self.kind == ArtifactKind::Model || passport.kind == RequestKind::CompletionSession)
    }

    /// Whether a request priced by `passport` uses this artifact.
    pub fn is_used_by(&self, passport: &Passport) -> (used: bool)
        ensures
            used == self.backs(*passport),
    {
        passport.model == self.model && (self.kind == ArtifactKind::Model || passport.kind
            == RequestKind::CompletionSession)
    }
}

/// A ticket as a mathematical value: the passport it was granted for, the
/// amount that was reserved, and the identifier of the reservation.
pub struct TicketView {
    pub passport: Passport,
    pub grant: ResourceVector,
    pub handle: u64,
}

/// A granted claim against the ledger. Only a successful admission makes
/// one; it holds its reservation until it is released, or until a flush of
/// the ledger revokes it.
#[derive(Clone, Debug)]
pub struct Ticket {
    passport: Passport,
    grant: ResourceVector,
    handle: ReservationHandle,
}

impl View for Ticket {
    type V = TicketView;

    closed spec fn view(&self) -> TicketView {
        TicketView { passport: self.passport, grant: self.grant, handle: self.handle.id() }
    }
}

impl Ticket {
    /// The ticket for a reservation that was made for `passport`.
    pub(crate) fn issue(passport: Passport, grant: ResourceVector, handle: ReservationHandle) -> (ticket:
        Ticket)
        ensures
            ticket@ == (TicketView { passport, grant, handle: handle.id() }),
    {
        Ticket { passport, grant, handle }
    }

    /// Gives up the ticket for the handle of its reservation.
    pub(crate) fn into_handle(self) -> (handle: ReservationHandle)
        ensures
            handle.id() == self@.handle,
    {
        self.handle
    }

    /// The passport that this ticket was granted for.
    pub fn passport(&self) -> (passport: Passport)
        ensures
            passport == self@.passport,
    {
        self.passport
    }

    /// The amount that was reserved for this ticket.
    pub fn grant(&self) -> (grant: ResourceVector)
        ensures
            grant == self@.grant,
    {
        self.grant
    }

    /// The handle of the reservation behind this ticket.
    pub fn handle(&self) -> (handle: &ReservationHandle)
        ensures
            handle.id() == self@.handle,
    {
        &self.handle
    }
}

} // verus!
