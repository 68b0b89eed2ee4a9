//! The resource ledger: what every device offers, and who holds how much of
//! it.
//!
//! [`LedgerView`] is the mathematical ledger with its transitions;
//! [`ResourceLedger`] is the executable one, each of whose operations is
//! proved to perform one transition. A device's committed amount is the sum
//! of the reservations and of the registered footprints on it, and a
//! well-formed ledger never commits more than a device's total.

use vstd::prelude::*;
use crate::claims::{
    claimed_on, lemma_claimed_bounds_each, lemma_claimed_elsewhere, lemma_claimed_push,
    lemma_claimed_remove, Claim,
};
use crate::request::{DeviceId, ResourceUser};
use crate::resource::{Amount, ResourceVector};

verus! {

/// What one device offers in total.
#[derive(Clone, Copy, Debug, PartialEq, Eq, Structural)]
pub struct Capacity {
    pub device: DeviceId,
    pub total: ResourceVector,
}

/// One outstanding reservation.
#[derive(Clone, Copy, Debug, PartialEq, Eq, Structural)]
pub struct Reservation {
    pub id: u64,
    pub device: DeviceId,
    pub amount: ResourceVector,
}

impl Reservation {
    /// What the reservation holds, and where.
    pub open spec fn claim(self) -> Claim {
        Claim { device: self.device, amount: self.amount }
    }
}

/// One registered resource user and the device that holds its footprint.
#[derive(Clone, Copy, Debug, PartialEq, Eq, Structural)]
pub struct Registration {
    pub device: DeviceId,
    pub user: ResourceUser,
}

impl Registration {
    /// What the registration holds, and where.
    pub open spec fn claim(self) -> Claim {
        Claim { device: self.device, amount: self.user.footprint }
    }
}

/// The ledger as a mathematical value: the devices in the order they were
/// added, the outstanding reservations in the order they were made, the
/// registered users in the order they were registered, and the identifier
/// that the next reservation gets.
pub struct LedgerView {
    pub capacities: Seq<Capacity>,
    pub reservations: Seq<Reservation>,
    pub users: Seq<Registration>,
    pub next_id: u64,
}

impl LedgerView {
    /// The ledger with no device, no reservation and no user.
    pub open spec fn empty() -> LedgerView {
        LedgerView {
            capacities: Seq::empty(),
            reservations: Seq::empty(),
            users: Seq::empty(),
            next_id: 0,
        }
    }

    /// Whether the ledger knows `device`.
    pub open spec fn has_device(self, device: DeviceId) -> bool {
        exists|i: int|
            0 <= i < self.capacities.len() && (#[trigger] self.capacities[i]).device == device
    }

    /// The place of `device` among the capacities.
    pub open spec fn device_index(self, device: DeviceId) -> int {
        choose|i: int|
            0 <= i < self.capacities.len() && (#[trigger] self.capacities[i]).device == device
    }

    /// What `device` offers in total; nothing if the ledger does not know it.
    pub open spec fn total(self, device: DeviceId) -> Amount {
        if self.has_device(device) {
            self.capacities[self.device_index(device)].total@
        } else {
            Amount::zero()
        }
    }

    /// The sum of the outstanding reservations on `device`.
    pub open spec fn reserved_on(self, device: DeviceId) -> Amount {
        claimed_on(self.reservations.map_values(|r: Reservation| r.claim()), device)
    }

    /// The sum of the registered footprints on `device`.
    pub open spec fn footprint_on(self, device: DeviceId) -> Amount {
        claimed_on(self.users.map_values(|u: Registration| u.claim()), device)
    }

    /// Everything that is held on `device`: reservations and footprints.
    pub open spec fn committed(self, device: DeviceId) -> Amount {
        self.reserved_on(device).plus(self.footprint_on(device))
    }

    /// What is left of `device`.
    pub open spec fn available(self, device: DeviceId) -> Amount {
        self.total(device).minus(self.committed(device))
    }

    /// Whether a reservation with this identifier is outstanding.
    pub open spec fn is_live(self, id: u64) -> bool {
        exists|i: int|
            0 <= i < self.reservations.len() && (#[trigger] self.reservations[i]).id == id
    }

    /// The place of the reservation with this identifier.
    pub open spec fn reservation_index(self, id: u64) -> int {
        choose|i: int|
            0 <= i < self.reservations.len() && (#[trigger] self.reservations[i]).id == id
    }

    /// Whether a user with this identifier is registered.
    pub open spec fn is_registered(self, user_id: u64) -> bool {
        exists|i: int| 0 <= i < self.users.len() && (#[trigger] self.users[i]).user.id == user_id
    }

    /// The place of the user with this identifier.
    pub open spec fn user_index(self, user_id: u64) -> int {
        choose|i: int| 0 <= i < self.users.len() && (#[trigger] self.users[i]).user.id == user_id
    }

    /// The registration of the user with this identifier, if it is
    /// registered.
    pub open spec fn registration_of(self, user_id: u64) -> Option<Registration> {
        if self.is_registered(user_id) {
            Some(self.users[self.user_index(user_id)])
        } else {
            None
        }
    }

    /// The validity of a ledger: devices and users are listed once,
    /// reservation identifiers grow and stay below the next one, every holder
    /// is on a known device, and no device has more committed than it offers.
    pub open spec fn wf(self) -> bool {
        &&& forall|i: int, j: int|
            #![trigger self.capacities[i], self.capacities[j]]
            0 <= i < j < self.capacities.len() ==> self.capacities[i].device
                != self.capacities[j].device
        &&& forall|i: int, j: int|
            #![trigger self.reservations[i], self.reservations[j]]
            0 <= i < j < self.reservations.len() ==> self.reservations[i].id
                < self.reservations[j].id
        &&& forall|i: int|
            0 <= i < self.reservations.len() ==> (#[trigger] self.reservations[i]).id
                < self.next_id && self.has_device(self.reservations[i].device)
        &&& forall|i: int, j: int|
            #![trigger self.users[i], self.users[j]]
            0 <= i < j < self.users.len() ==> self.users[i].user.id != self.users[j].user.id
        &&& forall|i: int|
            0 <= i < self.users.len() ==> self.has_device((#[trigger] self.users[i]).device)
        &&& forall|i: int|
            0 <= i < self.capacities.len() ==> self.committed(
                (#[trigger] self.capacities[i]).device,
            ).fits_within(self.capacities[i].total@)
    }

    /// The ledger with one more device.
    pub open spec fn with_device(self, device: DeviceId, total: ResourceVector) -> LedgerView {
        LedgerView { capacities: self.capacities.push(Capacity { device, total }), ..self }
    }

    /// Whether `amount` can be reserved on `device`: the device is known, the
    /// amount fits into what is left of it in every dimension, and an
    /// identifier is left for the reservation.
    pub open spec fn can_reserve(self, device: DeviceId, amount: ResourceVector) -> bool {
        &&& self.has_device(device)
        &&& self.committed(device).plus(amount@).fits_within(self.total(device))
        &&& self.next_id < u64::MAX
    }

    /// The ledger after `amount` was reserved on `device`.
    pub open spec fn reserve(self, device: DeviceId, amount: ResourceVector) -> LedgerView {
        LedgerView {
            reservations: self.reservations.push(Reservation { id: self.next_id, device, amount }),
            next_id: (self.next_id + 1) as u64,
            ..self
        }
    }

    /// The ledger after the reservation `id` was released: without it if it
    /// was outstanding, unchanged if it was not.
    pub open spec fn release(self, id: u64) -> LedgerView {
        if self.is_live(id) {
            LedgerView {
                reservations: self.reservations.remove(self.reservation_index(id)),
                ..self
            }
        } else {
            self
        }
    }

    /// Whether `user` can be registered on `device`: the device is known, no
    /// user of that identifier is registered, and the footprint fits into
    /// what is left of the device.
    pub open spec fn can_register(self, device: DeviceId, user: ResourceUser) -> bool {
        &&& self.has_device(device)
        &&& !self.is_registered(user.id)
        &&& self.committed(device).plus(user.footprint@).fits_within(self.total(device))
    }

    /// The ledger after `user` was registered on `device`.
    pub open spec fn register(self, device: DeviceId, user: ResourceUser) -> LedgerView {
        LedgerView { users: self.users.push(Registration { device, user }), ..self }
    }

    /// The ledger after the user `user_id` was unregistered: without it if it
    /// was registered, unchanged if it was not.
    pub open spec fn unregister(self, user_id: u64) -> LedgerView {
        if self.is_registered(user_id) {
            LedgerView { users: self.users.remove(self.user_index(user_id)), ..self }
        } else {
            self
        }
    }

    /// The ledger after a full flush: the devices stay, every reservation and
    /// every user is gone. Identifiers are not handed out again.
    pub open spec fn cleared(self) -> LedgerView {
        LedgerView { reservations: Seq::empty(), users: Seq::empty(), ..self }
    }

    /// In a valid ledger a device is listed at one place only.
    pub proof fn lemma_device_index(self, device: DeviceId, i: int)
        requires
            self.wf(),
            0 <= i < self.capacities.len(),
            self.capacities[i].device == device,
        ensures
            self.has_device(device),
            self.device_index(device) == i,
            self.total(device) == self.capacities[i].total@,
    {
        let j = self.device_index(device);
        if i < j {
            assert(self.capacities[i].device != self.capacities[j].device);
        }
        if j < i {
            assert(self.capacities[j].device != self.capacities[i].device);
        }
    }

    /// In a valid ledger a reservation identifier is outstanding at one place
    /// only.
    pub proof fn lemma_reservation_index(self, id: u64, i: int)
        requires
            self.wf(),
            0 <= i < self.reservations.len(),
            self.reservations[i].id == id,
        ensures
            self.is_live(id),
            self.reservation_index(id) == i,
    {
        let j = self.reservation_index(id);
        if i < j {
            assert(self.reservations[i].id < self.reservations[j].id);
        }
        if j < i {
            assert(self.reservations[j].id < self.reservations[i].id);
        }
    }

    /// In a valid ledger a user identifier is registered at one place only.
    pub proof fn lemma_user_index(self, user_id: u64, i: int)
        requires
            self.wf(),
            0 <= i < self.users.len(),
            self.users[i].user.id == user_id,
        ensures
            self.is_registered(user_id),
            self.user_index(user_id) == i,
    {
        let j = self.user_index(user_id);
        if i < j {
            assert(self.users[i].user.id != self.users[j].user.id);
        }
        if j < i {
            assert(self.users[j].user.id != self.users[i].user.id);
        }
    }

    /// No over-commitment: in a valid ledger the reservations and footprints
    /// on a device sum to at most the device's total, so what is available is
    /// never negative. On a device that the ledger does not know nothing is
    /// committed.
    pub proof fn lemma_no_overcommitment(self, device: DeviceId)
        requires
            self.wf(),
        ensures
            self.committed(device).fits_within(self.total(device)),
            self.available(device).non_negative(),
            self.committed(device).non_negative(),
            !self.has_device(device) ==> self.committed(device) == Amount::zero(),
    {
        let rc = self.reservations.map_values(|r: Reservation| r.claim());
        let uc = self.users.map_values(|u: Registration| u.claim());
        crate::claims::lemma_claimed_non_negative(rc, device);
        crate::claims::lemma_claimed_non_negative(uc, device);
        if self.has_device(device) {
            let i = self.device_index(device);
            assert(self.committed(self.capacities[i].device).fits_within(self.capacities[i].total@));
        } else {
            assert forall|i: int| 0 <= i < rc.len() implies (#[trigger] rc[i]).device != device by {
                assert(self.has_device(self.reservations[i].device));
            }
            assert forall|i: int| 0 <= i < uc.len() implies (#[trigger] uc[i]).device != device by {
                assert(self.has_device(self.users[i].device));
            }
            lemma_claimed_elsewhere(rc, device);
            lemma_claimed_elsewhere(uc, device);
        }
    }

    /// Adding a device keeps the ledger valid and changes nothing that is
    /// committed.
    pub proof fn lemma_with_device(self, device: DeviceId, total: ResourceVector)
        requires
            self.wf(),
            !self.has_device(device),
        ensures
            self.with_device(device, total).wf(),
            self.with_device(device, total).has_device(device),
            self.with_device(device, total).total(device) == total@,
            forall|d: DeviceId|
                self.has_device(d) ==> #[trigger] self.with_device(device, total).has_device(d)
                    && self.with_device(device, total).total(d) == self.total(d),
            forall|d: DeviceId| #[trigger]
                self.with_device(device, total).committed(d) == self.committed(d),
    {
        let next = self.with_device(device, total);
        let n = self.capacities.len() as int;
        assert(next.capacities[n].device == device);
        assert forall|i: int, j: int|
            #![trigger next.capacities[i], next.capacities[j]]
            0 <= i < j < next.capacities.len() implies next.capacities[i].device
            != next.capacities[j].device by {
            if j == n {
                assert(self.capacities[i].device != device);
            } else {
                assert(self.capacities[i].device != self.capacities[j].device);
            }
        }
        assert forall|d: DeviceId| self.has_device(d) implies #[trigger] next.has_device(d) by {
            let i = self.device_index(d);
            assert(next.capacities[i].device == d);
        }
        assert forall|i: int| 0 <= i < next.reservations.len() implies next.has_device(
            (#[trigger] next.reservations[i]).device,
        ) by {
            assert(self.has_device(self.reservations[i].device));
        }
        assert forall|i: int| 0 <= i < next.users.len() implies next.has_device(
            (#[trigger] next.users[i]).device,
        ) by {
            assert(self.has_device(self.users[i].device));
        }
        self.lemma_no_overcommitment(device);
        assert forall|i: int| 0 <= i < next.capacities.len() implies next.committed(
            (#[trigger] next.capacities[i]).device,
        ).fits_within(next.capacities[i].total@) by {
            if i < n {
                assert(self.committed(self.capacities[i].device).fits_within(
                    self.capacities[i].total@,
                ));
            }
        }
        assert(next.wf());
        next.lemma_device_index(device, n);
        assert forall|d: DeviceId| self.has_device(d) implies next.total(d) == self.total(d) by {
            let i = self.device_index(d);
            assert(next.capacities[i].device == d);
            next.lemma_device_index(d, i);
        }
    }

    /// A new reservation adds its amount to what is committed on its device
    /// and leaves every other device as it was.
    pub proof fn lemma_reserve_committed(
        self,
        device: DeviceId,
        amount: ResourceVector,
        other: DeviceId,
    )
        ensures
            self.reserve(device, amount).committed(other) == self.committed(other).plus(
                Claim { device, amount }.on(other),
            ),
    {
        let r = Reservation { id: self.next_id, device, amount };
        let f = |r: Reservation| r.claim();
        assert(self.reservations.push(r).map_values(f) =~= self.reservations.map_values(f).push(
            r.claim(),
        ));
        lemma_claimed_push(self.reservations.map_values(f), r.claim(), other);
    }

    /// A reservation that is admitted keeps the ledger valid.
    pub proof fn lemma_reserve_wf(self, device: DeviceId, amount: ResourceVector)
        requires
            self.wf(),
            self.can_reserve(device, amount),
        ensures
            self.reserve(device, amount).wf(),
            self.reserve(device, amount).is_live(self.next_id),
            !self.is_live(self.next_id),
    {
        let next = self.reserve(device, amount);
        let n = self.reservations.len() as int;
        assert(next.reservations[n].id == self.next_id);
        assert forall|i: int, j: int|
            #![trigger next.reservations[i], next.reservations[j]]
            0 <= i < j < next.reservations.len() implies next.reservations[i].id
            < next.reservations[j].id by {
            if j == n {
                assert(self.reservations[i].id < self.next_id);
            } else {
                assert(self.reservations[i].id < self.reservations[j].id);
            }
        }
        assert forall|i: int| 0 <= i < next.reservations.len() implies (
        #[trigger] next.reservations[i]).id < next.next_id && next.has_device(
            next.reservations[i].device,
        ) by {
            if i < n {
                assert(self.reservations[i].id < self.next_id);
                assert(self.has_device(self.reservations[i].device));
            }
        }
        assert forall|i: int| 0 <= i < next.capacities.len() implies next.committed(
            (#[trigger] next.capacities[i]).device,
        ).fits_within(next.capacities[i].total@) by {
            let d = self.capacities[i].device;
            self.lemma_reserve_committed(device, amount, d);
            self.lemma_device_index(d, i);
            assert(self.committed(self.capacities[i].device).fits_within(
                self.capacities[i].total@,
            ));
        }
        if self.is_live(self.next_id) {
            let k = self.reservation_index(self.next_id);
            assert(self.reservations[k].id < self.next_id);
        }
    }

    /// A released reservation gives back exactly its amount on its device
    /// and leaves every other device as it was.
    pub proof fn lemma_release_committed(self, id: u64, other: DeviceId)
        requires
            self.is_live(id),
        ensures
            self.release(id).committed(other) == self.committed(other).minus(
                self.reservations[self.reservation_index(id)].claim().on(other),
            ),
            self.reservations[self.reservation_index(id)].claim().on(other).fits_within(
                self.reserved_on(other),
            ),
    {
        let k = self.reservation_index(id);
        let f = |r: Reservation| r.claim();
        assert(self.reservations.remove(k).map_values(f) =~= self.reservations.map_values(
            f,
        ).remove(k));
        lemma_claimed_remove(self.reservations.map_values(f), k, other);
        lemma_claimed_bounds_each(self.reservations.map_values(f), k, other);
    }

    /// Releasing keeps the ledger valid, and the released reservation is not
    /// outstanding afterwards.
    pub proof fn lemma_release_wf(self, id: u64)
        requires
            self.wf(),
        ensures
            self.release(id).wf(),
            !self.release(id).is_live(id),
            forall|other: u64|
                other != id ==> (#[trigger] self.release(id).is_live(other) == self.is_live(
                    other,
                )),
    {
        let next = self.release(id);
        if self.is_live(id) {
            let k = self.reservation_index(id);
            assert forall|i: int| 0 <= i < next.reservations.len() implies #[trigger]
            next.reservations[i] == self.reservations[if i < k {
                i
            } else {
                i + 1
            }] by {}
            assert forall|i: int, j: int|
                #![trigger next.reservations[i], next.reservations[j]]
                0 <= i < j < next.reservations.len() implies next.reservations[i].id
                < next.reservations[j].id by {
                let a = if i < k { i } else { i + 1 };
                let b = if j < k { j } else { j + 1 };
                assert(self.reservations[a].id < self.reservations[b].id);
            }
            assert forall|i: int| 0 <= i < next.reservations.len() implies (
            #[trigger] next.reservations[i]).id < next.next_id && next.has_device(
                next.reservations[i].device,
            ) by {
                let a = if i < k { i } else { i + 1 };
                assert(self.reservations[a].id < self.next_id);
                assert(self.has_device(self.reservations[a].device));
            }
            assert forall|i: int| 0 <= i < next.capacities.len() implies next.committed(
                (#[trigger] next.capacities[i]).device,
            ).fits_within(next.capacities[i].total@) by {
                let d = self.capacities[i].device;
                self.lemma_release_committed(id, d);
                crate::claims::lemma_claimed_non_negative(
                    self.reservations.map_values(|r: Reservation| r.claim()),
                    d,
                );
                assert(self.committed(self.capacities[i].device).fits_within(
                    self.capacities[i].total@,
                ));
            }
            if next.is_live(id) {
                let i = next.reservation_index(id);
                let a = if i < k { i } else { i + 1 };
                self.lemma_reservation_index(id, a);
            }
            assert forall|other: u64| other != id implies (#[trigger] next.is_live(other)
                == self.is_live(other)) by {
                if self.is_live(other) {
                    let a = self.reservation_index(other);
                    let i = if a < k { a } else { a - 1 };
                    assert(next.reservations[i].id == other);
                }
                if next.is_live(other) {
                    let i = next.reservation_index(other);
                    let a = if i < k { i } else { i + 1 };
                    assert(self.reservations[a].id == other);
                }
            }
        }
    }

    /// A reservation is returned once: releasing it a second time changes
    /// nothing.
    pub proof fn lemma_release_once(self, id: u64)
        requires
            self.wf(),
        ensures
            self.release(id).release(id) == self.release(id),
            forall|device: DeviceId| #[trigger]
                self.release(id).release(id).available(device) == self.release(id).available(
                    device,
                ),
    {
        self.lemma_release_wf(id);
    }

    /// A registered user adds its footprint to what is committed on its
    /// device and leaves every other device as it was.
    pub proof fn lemma_register_committed(
        self,
        device: DeviceId,
        user: ResourceUser,
        other: DeviceId,
    )
        ensures
            self.register(device, user).committed(other) == self.committed(other).plus(
                Claim { device, amount: user.footprint }.on(other),
            ),
    {
        let u = Registration { device, user };
        let f = |u: Registration| u.claim();
        assert(self.users.push(u).map_values(f) =~= self.users.map_values(f).push(u.claim()));
        lemma_claimed_push(self.users.map_values(f), u.claim(), other);
    }

    /// A registration that is admitted keeps the ledger valid.
    pub proof fn lemma_register_wf(self, device: DeviceId, user: ResourceUser)
        requires
            self.wf(),
            self.can_register(device, user),
        ensures
            self.register(device, user).wf(),
            self.register(device, user).registration_of(user.id) == Some(
                Registration { device, user },
            ),
            forall|other: u64|
                other != user.id ==> (#[trigger] self.register(device, user).registration_of(
                    other,
                ) == self.registration_of(other)),
    {
        let next = self.register(device, user);
        let n = self.users.len() as int;
        assert(next.users[n].user.id == user.id);
        assert forall|i: int, j: int|
            #![trigger next.users[i], next.users[j]]
            0 <= i < j < next.users.len() implies next.users[i].user.id
            != next.users[j].user.id by {
            if j == n {
                assert(self.users[i].user.id != user.id);
            } else {
                assert(self.users[i].user.id != self.users[j].user.id);
            }
        }
        assert forall|i: int| 0 <= i < next.users.len() implies next.has_device(
            (#[trigger] next.users[i]).device,
        ) by {
            if i < n {
                assert(self.has_device(self.users[i].device));
            }
        }
        assert forall|i: int| 0 <= i < next.capacities.len() implies next.committed(
            (#[trigger] next.capacities[i]).device,
        ).fits_within(next.capacities[i].total@) by {
            let d = self.capacities[i].device;
            self.lemma_register_committed(device, user, d);
            self.lemma_device_index(d, i);
            assert(self.committed(self.capacities[i].device).fits_within(
                self.capacities[i].total@,
            ));
        }
        assert(next.wf());
        next.lemma_user_index(user.id, n);
        assert forall|other: u64| other != user.id implies (#[trigger] next.registration_of(other)
            == self.registration_of(other)) by {
            if self.is_registered(other) {
                let a = self.user_index(other);
                assert(next.users[a].user.id == other);
                next.lemma_user_index(other, a);
            }
            if next.is_registered(other) {
                let a = next.user_index(other);
                assert(self.users[a].user.id == other);
                self.lemma_user_index(other, a);
            }
        }
    }

    /// An unregistered user gives back exactly its footprint on its device
    /// and leaves every other device as it was.
    pub proof fn lemma_unregister_committed(self, user_id: u64, other: DeviceId)
        requires
            self.is_registered(user_id),
        ensures
            self.unregister(user_id).committed(other) == self.committed(other).minus(
                self.users[self.user_index(user_id)].claim().on(other),
            ),
            self.users[self.user_index(user_id)].claim().on(other).fits_within(
                self.footprint_on(other),
            ),
    {
        let k = self.user_index(user_id);
        let f = |u: Registration| u.claim();
        assert(self.users.remove(k).map_values(f) =~= self.users.map_values(f).remove(k));
        lemma_claimed_remove(self.users.map_values(f), k, other);
        lemma_claimed_bounds_each(self.users.map_values(f), k, other);
    }

    /// Unregistering keeps the ledger valid, and the user is not registered
    /// afterwards; every other user stays.
    pub proof fn lemma_unregister_wf(self, user_id: u64)
        requires
            self.wf(),
        ensures
            self.unregister(user_id).wf(),
            !self.unregister(user_id).is_registered(user_id),
            forall|other: u64|
                other != user_id ==> (#[trigger] self.unregister(user_id).registration_of(other)
                    == self.registration_of(other)),
    {
        let next = self.unregister(user_id);
        if self.is_registered(user_id) {
            let k = self.user_index(user_id);
            assert forall|i: int| 0 <= i < next.users.len() implies #[trigger] next.users[i]
                == self.users[if i < k {
                i
            } else {
                i + 1
            }] by {}
            assert forall|i: int, j: int|
                #![trigger next.users[i], next.users[j]]
                0 <= i < j < next.users.len() implies next.users[i].user.id
                != next.users[j].user.id by {
                let a = if i < k { i } else { i + 1 };
                let b = if j < k { j } else { j + 1 };
                assert(self.users[a].user.id != self.users[b].user.id);
            }
            assert forall|i: int| 0 <= i < next.users.len() implies next.has_device(
                (#[trigger] next.users[i]).device,
            ) by {
                let a = if i < k { i } else { i + 1 };
                assert(self.has_device(self.users[a].device));
            }
            assert forall|i: int| 0 <= i < next.capacities.len() implies next.committed(
                (#[trigger] next.capacities[i]).device,
            ).fits_within(next.capacities[i].total@) by {
                let d = self.capacities[i].device;
                self.lemma_unregister_committed(user_id, d);
                crate::claims::lemma_claimed_non_negative(
                    self.users.map_values(|u: Registration| u.claim()),
                    d,
                );
                assert(self.committed(self.capacities[i].device).fits_within(
                    self.capacities[i].total@,
                ));
            }
            if next.is_registered(user_id) {
                let i = next.user_index(user_id);
                let a = if i < k { i } else { i + 1 };
                self.lemma_user_index(user_id, a);
            }
            assert(next.wf());
            assert forall|other: u64| other != user_id implies (#[trigger] next.registration_of(
                other,
            ) == self.registration_of(other)) by {
                if self.is_registered(other) {
                    let a = self.user_index(other);
                    let i = if a < k { a } else { a - 1 };
                    assert(next.users[i].user.id == other);
                    next.lemma_user_index(other, i);
                }
                if next.is_registered(other) {
                    let i = next.user_index(other);
                    let a = if i < k { i } else { i + 1 };
                    assert(self.users[a].user.id == other);
                    self.lemma_user_index(other, a);
                }
            }
        }
    }

    /// A full flush keeps the ledger valid and leaves nothing committed, so
    /// every device is available in full again.
    pub proof fn lemma_cleared(self)
        requires
            self.wf(),
        ensures
            self.cleared().wf(),
            forall|device: DeviceId| #[trigger]
                self.cleared().committed(device) == Amount::zero(),
            forall|device: DeviceId| #[trigger]
                self.cleared().available(device) == self.total(device),
            forall|id: u64| !#[trigger] self.cleared().is_live(id),
            forall|user_id: u64| !#[trigger] self.cleared().is_registered(user_id),
    {
        let next = self.cleared();
        assert(next.reservations.map_values(|r: Reservation| r.claim()) =~= Seq::<Claim>::empty());
        assert(next.users.map_values(|u: Registration| u.claim()) =~= Seq::<Claim>::empty());
    }
}

/// The claim on one outstanding reservation. The ledger alone hands one out,
/// and takes it back when the reservation is released.
#[derive(Clone, Debug)]
pub struct ReservationHandle {
    id: u64,
}

impl ReservationHandle {
    /// The identifier of the reservation.
    pub closed spec fn spec_id(&self) -> u64 {
        self.id
    }

    /// The identifier of the reservation.
    #[verifier::when_used_as_spec(spec_id)]
    pub fn id(&self) -> (id: u64)
        ensures
            id == self.spec_id(),
    {
        self.id
    }
}

/// The per-device bookkeeping of committed and available capacity. It is
/// changed through its own operations only, each of which either takes
/// effect in full or leaves it as it was.
pub struct ResourceLedger {
    capacities: Vec<Capacity>,
    committed: Vec<ResourceVector>,
    reservations: Vec<Reservation>,
    users: Vec<Registration>,
    next_id: u64,
}

impl View for ResourceLedger {
    type V = LedgerView;

    closed spec fn view(&self) -> LedgerView {
        LedgerView {
            capacities: self.capacities@,
            reservations: self.reservations@,
            users: self.users@,
            next_id: self.next_id,
        }
    }
}

/// `held` less `by`, where `by` is part of `held`.
fn lowered(held: &ResourceVector, by: &ResourceVector) -> (rest: ResourceVector)
    requires
        by@.fits_within(held@),
    ensures
        rest@ == held@.minus(by@),
{
    ResourceVector {
        threads: held.threads - by.threads,
        context_tokens: held.context_tokens - by.context_tokens,
        device_memory: held.device_memory - by.device_memory,
    }
}

impl ResourceLedger {
    /// The running totals agree with the reservations and footprints: for
    /// every device the ledger keeps what is committed on it.
    pub closed spec fn totals_kept(&self) -> bool {
        &&& self.committed.len() == self.capacities.len()
        &&& forall|i: int|
            0 <= i < self.capacities.len() ==> (#[trigger] self.committed[i])@
                == self@.committed(self.capacities[i].device)
    }

    /// The validity of the ledger: its model is valid and its running totals
    /// agree with it. Every operation keeps it.
    pub open spec fn wf(&self) -> bool {
        &&& self@.wf()
        &&& self.totals_kept()
    }

    /// A ledger that knows no device.
    pub fn new() -> (ledger: ResourceLedger)
        ensures
            ledger.wf(),
            ledger@ == LedgerView::empty(),
    {
        let ledger = ResourceLedger {
            capacities: Vec::new(),
            committed: Vec::new(),
            reservations: Vec::new(),
            users: Vec::new(),
            next_id: 0,
        };
        assert(ledger@ =~= LedgerView::empty());
        ledger
    }

    /// Where `device` is listed, if it is.
    fn find_device(&self, device: DeviceId) -> (slot: Option<usize>)
        ensures
            match slot {
                Some(i) => i < self.capacities.len() && self.capacities[i as int].device
                    == device,
                None => !self@.has_device(device),
            },
    {
        let mut i: usize = 0;
        while i < self.capacities.len()
            invariant
                i <= self.capacities.len(),
                forall|j: int| 0 <= j < i ==> (#[trigger] self.capacities[j]).device != device,
            decreases self.capacities.len() - i,
        {
            if self.capacities[i].device == device {
                return Some(i);
            }
            i = i + 1;
        }
        None
    }

    /// Where a device that the ledger knows is listed.
    fn slot_of(&self, device: DeviceId) -> (slot: usize)
        requires
            self@.has_device(device),
        ensures
            slot < self.capacities.len(),
            self.capacities[slot as int].device == device,
    {
        let mut i: usize = 0;
        while self.capacities[i].device != device
            invariant
                exists|j: int|
                    i <= j < self.capacities.len() && (#[trigger] self.capacities[j]).device
                        == device,
            decreases self.capacities.len() - i,
        {
            i = i + 1;
        }
        i
    }

    /// Where the reservation `id` is listed, if it is outstanding.
    fn find_reservation(&self, id: u64) -> (place: Option<usize>)
        ensures
            match place {
                Some(k) => k < self.reservations.len() && self.reservations[k as int].id == id,
                None => !self@.is_live(id),
            },
    {
        let mut k: usize = 0;
        while k < self.reservations.len()
            invariant
                k <= self.reservations.len(),
                forall|j: int| 0 <= j < k ==> (#[trigger] self.reservations[j]).id != id,
            decreases self.reservations.len() - k,
        {
            if self.reservations[k].id == id {
                return Some(k);
            }
            k = k + 1;
        }
        None
    }

    /// Where the user `user_id` is listed, if it is registered.
    fn find_user(&self, user_id: u64) -> (place: Option<usize>)
        ensures
            match place {
                Some(k) => k < self.users.len() && self.users[k as int].user.id == user_id,
                None => !self@.is_registered(user_id),
            },
    {
        let mut k: usize = 0;
        while k < self.users.len()
            invariant
                k <= self.users.len(),
                forall|j: int| 0 <= j < k ==> (#[trigger] self.users[j]).user.id != user_id,
            decreases self.users.len() - k,
        {
            if self.users[k].user.id == user_id {
                return Some(k);
            }
            k = k + 1;
        }
        None
    }

    /// Makes `device` known with `total` to offer. Returns whether it was
    /// added: a device that is known already keeps its total.
    pub fn add_device(&mut self, device: DeviceId, total: ResourceVector) -> (added: bool)
        requires
            old(self).wf(),
        ensures
            final(self).wf(),
            added == !old(self)@.has_device(device),
            final(self)@ == if added {
                old(self)@.with_device(device, total)
            } else {
                old(self)@
            },
    {
        if self.find_device(device).is_some() {
            return false;
        }
        proof {
            self@.lemma_with_device(device, total);
            self@.lemma_no_overcommitment(device);
        }
        self.capacities.push(Capacity { device, total });
        self.committed.push(ResourceVector::zero());
        assert(self@ == old(self)@.with_device(device, total));
        true
    }

    /// Whether the ledger knows `device`.
    pub fn has_device(&self, device: DeviceId) -> (known: bool)
        ensures
            known == self@.has_device(device),
    {
        self.find_device(device).is_some()
    }

    /// What `device` offers in total, if the ledger knows it.
    pub fn capacity(&self, device: DeviceId) -> (total: Option<ResourceVector>)
        requires
            self.wf(),
        ensures
            total.is_some() == self@.has_device(device),
            total matches Some(t) ==> t@ == self@.total(device),
    {
        match self.find_device(device) {
            Some(i) => {
                proof {
                    self@.lemma_device_index(device, i as int);
                }
                Some(self.capacities[i].total)
            },
            None => None,
        }
    }

    /// What is committed on `device`: nothing if the ledger does not know it.
    pub fn committed(&self, device: DeviceId) -> (held: ResourceVector)
        requires
            self.wf(),
        ensures
            held@ == self@.committed(device),
    {
        proof {
            self@.lemma_no_overcommitment(device);
        }
        match self.find_device(device) {
            Some(i) => self.committed[i],
            None => ResourceVector::zero(),
        }
    }

    /// What is left of `device`: nothing if the ledger does not know it.
    pub fn available(&self, device: DeviceId) -> (left: ResourceVector)
        requires
            self.wf(),
        ensures
            left@ == self@.available(device),
    {
        proof {
            self@.lemma_no_overcommitment(device);
        }
        match self.find_device(device) {
            Some(i) => {
                proof {
                    self@.lemma_device_index(device, i as int);
                }
                lowered(&self.capacities[i].total, &self.committed[i])
            },
            None => ResourceVector::zero(),
        }
    }

    /// Whether `amount` could be reserved on `device` now.
    pub fn can_reserve(&self, device: DeviceId, amount: &ResourceVector) -> (fits: bool)
        requires
            self.wf(),
        ensures
            fits == self@.can_reserve(device, *amount),
    {
        match self.find_device(device) {
            Some(i) => {
                proof {
                    self@.lemma_device_index(device, i as int);
                    self@.lemma_no_overcommitment(device);
                }
                match self.committed[i].checked_add(amount) {
                    Some(raised) => raised.fits_within(&self.capacities[i].total) && self.next_id
                        < u64::MAX,
                    None => false,
                }
            },
            None => false,
        }
    }

    /// Reserves `amount` on `device`, in full or not at all. Returns the
    /// handle of the new reservation, or `None` with the ledger unchanged
    /// when the amount cannot be reserved.
    pub fn try_reserve(&mut self, device: DeviceId, amount: ResourceVector) -> (handle: Option<
        ReservationHandle,
    >)
        requires
            old(self).wf(),
        ensures
            final(self).wf(),
            handle.is_some() == old(self)@.can_reserve(device, amount),
            match handle {
                Some(h) => h.id() == old(self)@.next_id && final(self)@ == old(self)@.reserve(
                    device,
                    amount,
                ),
                None => final(self)@ == old(self)@,
            },
    {
        let slot: usize = match self.find_device(device) {
            Some(i) => i,
            None => {
                return None;
            },
        };
        proof {
            self@.lemma_device_index(device, slot as int);
            self@.lemma_no_overcommitment(device);
        }
        let raised: ResourceVector = match self.committed[slot].checked_add(&amount) {
            Some(r) => r,
            None => {
                return None;
            },
        };
        if !raised.fits_within(&self.capacities[slot].total) || self.next_id == u64::MAX {
            return None;
        }
        let id: u64 = self.next_id;
        proof {
            self@.lemma_reserve_wf(device, amount);
            assert forall|i: int| 0 <= i < self.capacities.len() implies (
            #[trigger] self.committed@.update(slot as int, raised)[i])@ == self@.reserve(
                device,
                amount,
            ).committed(self.capacities[i].device) by {
                self@.lemma_reserve_committed(device, amount, self.capacities[i].device);
                if i != slot {
                    assert(self.capacities[i].device != self.capacities[slot as int].device);
                    assert(self.committed[i]@ == self@.committed(self.capacities[i].device));
                }
            }
        }
        self.reservations.push(Reservation { id, device, amount });
        self.committed.set(slot, raised);
        self.next_id = id + 1;
        assert(self@ == old(self)@.reserve(device, amount));
        Some(ReservationHandle { id })
    }

    /// Whether the reservation of `handle` is outstanding.
    pub fn is_live(&self, handle: &ReservationHandle) -> (live: bool)
        ensures
            live == self@.is_live(handle.id()),
    {
        self.find_reservation(handle.id).is_some()
    }

    /// The amount that the reservation of `handle` holds, if it is
    /// outstanding.
    pub fn reserved(&self, handle: &ReservationHandle) -> (amount: Option<ResourceVector>)
        requires
            self.wf(),
        ensures
            amount == if self@.is_live(handle.id()) {
                Some(self@.reservations[self@.reservation_index(handle.id())].amount)
            } else {
                None
            },
    {
        match self.find_reservation(handle.id) {
            Some(k) => {
                proof {
                    self@.lemma_reservation_index(handle.id, k as int);
                }
                Some(self.reservations[k].amount)
            },
            None => None,
        }
    }

    /// Returns the reservation of `handle` to its device. Returns whether
    /// anything was released: a handle whose reservation is not outstanding,
    /// because it was released before or flushed, changes nothing.
    pub fn release(&mut self, handle: ReservationHandle) -> (released: bool)
        requires
            old(self).wf(),
        ensures
            final(self).wf(),
            released == old(self)@.is_live(handle.id()),
            final(self)@ == old(self)@.release(handle.id()),
    {
        let id: u64 = handle.id;
        let place: usize = match self.find_reservation(id) {
            Some(k) => k,
            None => {
                return false;
            },
        };
        let reservation: Reservation = self.reservations[place];
        proof {
            self@.lemma_reservation_index(id, place as int);
            assert(self@.has_device(self@.reservations[place as int].device));
        }
        let slot: usize = self.slot_of(reservation.device);
        proof {
            self@.lemma_release_wf(id);
            self@.lemma_release_committed(id, reservation.device);
            crate::claims::lemma_claimed_non_negative(
                self@.users.map_values(|u: Registration| u.claim()),
                reservation.device,
            );
        }
        let rest: ResourceVector = lowered(&self.committed[slot], &reservation.amount);
        proof {
            assert forall|i: int| 0 <= i < self.capacities.len() implies (
            #[trigger] self.committed@.update(slot as int, rest)[i])@ == self@.release(
                id,
            ).committed(self.capacities[i].device) by {
                self@.lemma_release_committed(id, self.capacities[i].device);
                if i != slot {
                    assert(self.capacities[i].device != self.capacities[slot as int].device);
                    assert(self.committed[i]@ == self@.committed(self.capacities[i].device));
                }
            }
        }
        self.committed.set(slot, rest);
        self.reservations.remove(place);
        assert(self@ == old(self)@.release(id));
        true
    }

    /// Whether a user with this identifier is registered.
    pub fn is_registered(&self, user_id: u64) -> (registered: bool)
        ensures
            registered == self@.is_registered(user_id),
    {
        self.find_user(user_id).is_some()
    }

    /// The registration of the user `user_id`, if it is registered.
    pub fn registration(&self, user_id: u64) -> (found: Option<Registration>)
        requires
            self.wf(),
        ensures
            found == self@.registration_of(user_id),
    {
        match self.find_user(user_id) {
            Some(k) => {
                proof {
                    self@.lemma_user_index(user_id, k as int);
                }
                Some(self.users[k])
            },
            None => None,
        }
    }

    /// Every registration, in the order in which the users were registered.
    pub fn registrations(&self) -> (all: Vec<Registration>)
        ensures
            all@ == self@.users,
    {
        let mut all: Vec<Registration> = Vec::new();
        let mut i: usize = 0;
        while i < self.users.len()
            invariant
                i <= self.users.len(),
                all@ == self.users@.take(i as int),
            decreases self.users.len() - i,
        {
            all.push(self.users[i]);
            assert(self.users@.take(i as int).push(self.users@[i as int]) =~= self.users@.take(
                i + 1,
            ));
            i = i + 1;
        }
        assert(self.users@.take(i as int) =~= self.users@);
        all
    }

    /// Registers `user` on `device` and holds its footprint there, in full or
    /// not at all. Returns whether the user was registered: on an unknown
    /// device, under an identifier that is registered already, or with a
    /// footprint that does not fit, the ledger stays unchanged.
    pub fn register_user(&mut self, device: DeviceId, user: ResourceUser) -> (registered: bool)
        requires
            old(self).wf(),
        ensures
            final(self).wf(),
            registered == old(self)@.can_register(device, user),
            final(self)@ == if registered {
                old(self)@.register(device, user)
            } else {
                old(self)@
            },
    {
        let slot: usize = match self.find_device(device) {
            Some(i) => i,
            None => {
                return false;
            },
        };
        if self.find_user(user.id).is_some() {
            return false;
        }
        proof {
            self@.lemma_device_index(device, slot as int);
            self@.lemma_no_overcommitment(device);
        }
        let raised: ResourceVector = match self.committed[slot].checked_add(&user.footprint) {
            Some(r) => r,
            None => {
                return false;
            },
        };
        if !raised.fits_within(&self.capacities[slot].total) {
            return false;
        }
        proof {
            self@.lemma_register_wf(device, user);
            assert forall|i: int| 0 <= i < self.capacities.len() implies (
            #[trigger] self.committed@.update(slot as int, raised)[i])@ == self@.register(
                device,
                user,
            ).committed(self.capacities[i].device) by {
                self@.lemma_register_committed(device, user, self.capacities[i].device);
                if i != slot {
                    assert(self.capacities[i].device != self.capacities[slot as int].device);
                    assert(self.committed[i]@ == self@.committed(self.capacities[i].device));
                }
            }
        }
        self.users.push(Registration { device, user });
        self.committed.set(slot, raised);
        assert(self@ == old(self)@.register(device, user));
        true
    }

    /// Unregisters the user `user_id` and returns its footprint to its
    /// device. Returns the user, or `None` with the ledger unchanged when no
    /// such user is registered.
    pub fn unregister_user(&mut self, user_id: u64) -> (removed: Option<ResourceUser>)
        requires
            old(self).wf(),
        ensures
            final(self).wf(),
            removed == match old(self)@.registration_of(user_id) {
                Some(registration) => Some(registration.user),
                None => None,
            },
            final(self)@ == old(self)@.unregister(user_id),
    {
        let place: usize = match self.find_user(user_id) {
            Some(k) => k,
            None => {
                return None;
            },
        };
        let registration: Registration = self.users[place];
        proof {
            self@.lemma_user_index(user_id, place as int);
            assert(self@.has_device(self@.users[place as int].device));
        }
        let slot: usize = self.slot_of(registration.device);
        proof {
            self@.lemma_unregister_wf(user_id);
            self@.lemma_unregister_committed(user_id, registration.device);
            crate::claims::lemma_claimed_non_negative(
                self@.reservations.map_values(|r: Reservation| r.claim()),
                registration.device,
            );
        }
        let rest: ResourceVector = lowered(&self.committed[slot], &registration.user.footprint);
        proof {
            assert forall|i: int| 0 <= i < self.capacities.len() implies (
            #[trigger] self.committed@.update(slot as int, rest)[i])@ == self@.unregister(
                user_id,
            ).committed(self.capacities[i].device) by {
                self@.lemma_unregister_committed(user_id, self.capacities[i].device);
                if i != slot {
                    assert(self.capacities[i].device != self.capacities[slot as int].device);
                    assert(self.committed[i]@ == self@.committed(self.capacities[i].device));
                }
            }
        }
        self.committed.set(slot, rest);
        self.users.remove(place);
        assert(self@ == old(self)@.unregister(user_id));
        Some(registration.user)
    }

    /// Flushes the ledger: every reservation and every user is gone and
    /// every device is available in full. Handles from before the flush stay
    /// dead, since no identifier is handed out twice.
    pub fn reset(&mut self)
        requires
            old(self).wf(),
        ensures
            final(self).wf(),
            final(self)@ == old(self)@.cleared(),
    {
        proof {
            self@.lemma_cleared();
        }
        self.reservations.clear();
        self.users.clear();
        let mut i: usize = 0;
        while i < self.committed.len()
            invariant
                i <= self.committed.len(),
                self.committed.len() == self.capacities.len(),
                self@ == old(self)@.cleared(),
                forall|j: int| 0 <= j < i ==> (#[trigger] self.committed[j])@ == Amount::zero(),
            decreases self.committed.len() - i,
        {
            self.committed.set(i, ResourceVector::zero());
            i = i + 1;
        }
    }
}

} // verus!
