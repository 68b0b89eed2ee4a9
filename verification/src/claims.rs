//! Sums of claims on devices: the arithmetic behind "committed".

use vstd::prelude::*;
use crate::request::DeviceId;
use crate::resource::{Amount, ResourceVector};

verus! {

/// An amount held on one device, whoever holds it.
pub struct Claim {
    pub device: DeviceId,
    pub amount: ResourceVector,
}

impl Claim {
    /// What this claim takes from `device`: its amount on its own device,
    /// nothing elsewhere.
    pub open spec fn on(self, device: DeviceId) -> Amount {
        if self.device == device {
            self.amount@
        } else {
            Amount::zero()
        }
    }
}

/// The sum of what `claims` take from `device`.
pub open spec fn claimed_on(claims: Seq<Claim>, device: DeviceId) -> Amount
    decreases claims.len(),
{
    if claims.len() == 0 {
        Amount::zero()
    } else {
        claimed_on(claims.drop_last(), device).plus(claims.last().on(device))
    }
}

/// One more claim adds what it takes.
pub proof fn lemma_claimed_push(claims: Seq<Claim>, claim: Claim, device: DeviceId)
    ensures
        claimed_on(claims.push(claim), device) == claimed_on(claims, device).plus(
            claim.on(device),
        ),
{
    assert(claims.push(claim).drop_last() =~= claims);
}

/// A claim that leaves gives back exactly what it took.
pub proof fn lemma_claimed_remove(claims: Seq<Claim>, i: int, device: DeviceId)
    requires
        0 <= i < claims.len(),
    ensures
        claimed_on(claims.remove(i), device) == claimed_on(claims, device).minus(
            claims[i].on(device),
        ),
    decreases claims.len(),
{
    if i == claims.len() - 1 {
        assert(claims.remove(i) =~= claims.drop_last());
    } else {
        lemma_claimed_remove(claims.drop_last(), i, device);
        assert(claims.remove(i).drop_last() =~= claims.drop_last().remove(i));
        assert(claims.remove(i).last() == claims.last());
    }
}

/// A sum of claims is never negative.
pub proof fn lemma_claimed_non_negative(claims: Seq<Claim>, device: DeviceId)
    ensures
        claimed_on(claims, device).non_negative(),
    decreases claims.len(),
{
    if claims.len() > 0 {
        lemma_claimed_non_negative(claims.drop_last(), device);
    }
}

/// Every claim on a device is at most the sum of the claims on it.
pub proof fn lemma_claimed_bounds_each(claims: Seq<Claim>, i: int, device: DeviceId)
    requires
        0 <= i < claims.len(),
    ensures
        claims[i].on(device).fits_within(claimed_on(claims, device)),
{
    lemma_claimed_remove(claims, i, device);
    lemma_claimed_non_negative(claims.remove(i), device);
}

/// Where no claim is on a device, nothing is taken from it.
pub proof fn lemma_claimed_elsewhere(claims: Seq<Claim>, device: DeviceId)
    requires
        forall|i: int| 0 <= i < claims.len() ==> (#[trigger] claims[i]).device != device,
    ensures
        claimed_on(claims, device) == Amount::zero(),
    decreases claims.len(),
{
    if claims.len() > 0 {
        assert forall|i: int| 0 <= i < claims.drop_last().len() implies (
        #[trigger] claims.drop_last()[i]).device != device by {
            assert(claims.drop_last()[i] == claims[i]);
        }
        lemma_claimed_elsewhere(claims.drop_last(), device);
    }
}

} // verus!
