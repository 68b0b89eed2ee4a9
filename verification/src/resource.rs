//! Resource vectors: how much of each resource dimension a request, a model
//! or a device has.

use vstd::prelude::*;

verus! {

/// A quantity of every resource dimension, over unbounded integers. This is
/// the mathematical value of a [`ResourceVector`], and the type in which sums
/// of reservations are stated.
pub struct Amount {
    pub threads: int,
    pub context_tokens: int,
    pub device_memory: int,
}

impl Amount {
    /// Nothing of any dimension.
    pub open spec fn zero() -> Amount {
        Amount { threads: 0, context_tokens: 0, device_memory: 0 }
    }

    /// The sum, dimension by dimension.
    pub open spec fn plus(self, other: Amount) -> Amount {
        Amount {
            threads: self.threads + other.threads,
            context_tokens: self.context_tokens + other.context_tokens,
            device_memory: self.device_memory + other.device_memory,
        }
    }

    /// The difference, dimension by dimension.
    pub open spec fn minus(self, other: Amount) -> Amount {
        Amount {
            threads: self.threads - other.threads,
            context_tokens: self.context_tokens - other.context_tokens,
            device_memory: self.device_memory - other.device_memory,
        }
    }

    /// No dimension of `self` exceeds that of `limit`.
    pub open spec fn fits_within(self, limit: Amount) -> bool {
        &&& self.threads <= limit.threads
        &&& self.context_tokens <= limit.context_tokens
        &&& self.device_memory <= limit.device_memory
    }

    /// No dimension is negative.
    pub open spec fn non_negative(self) -> bool {
        Amount::zero().fits_within(self)
    }

    /// Every dimension can be held in a `u64`.
    pub open spec fn representable(self) -> bool {
        &&& 0 <= self.threads <= u64::MAX
        &&& 0 <= self.context_tokens <= u64::MAX
        &&& 0 <= self.device_memory <= u64::MAX
    }

    /// Every dimension brought into the range of a `u64`.
    pub open spec fn clamped(self) -> Amount {
        Amount {
            threads: clamp_u64(self.threads),
            context_tokens: clamp_u64(self.context_tokens),
            device_memory: clamp_u64(self.device_memory),
        }
    }
}

/// `x` brought into the range of a `u64`.
pub open spec fn clamp_u64(x: int) -> int {
    if x < 0 {
        0
    } else if x > u64::MAX {
        u64::MAX as int
    } else {
        x
    }
}

/// An amount of each resource dimension that a device offers or a request
/// needs: worker threads, context tokens, and units of device memory.
#[derive(Clone, Copy, Debug, PartialEq, Eq, Hash, Structural)]
pub struct ResourceVector {
    pub threads: u64,
    pub context_tokens: u64,
    pub device_memory: u64,
}

impl View for ResourceVector {
    type V = Amount;

    open spec fn view(&self) -> Amount {
        Amount {
            threads: self.threads as int,
            context_tokens: self.context_tokens as int,
            device_memory: self.device_memory as int,
        }
    }
}

impl ResourceVector {
    /// The vector with the given amount of each dimension.
    pub fn new(threads: u64, context_tokens: u64, device_memory: u64) -> (v: ResourceVector)
        ensures
            v.threads == threads,
            v.context_tokens == context_tokens,
            v.device_memory == device_memory,
    {
        ResourceVector { threads, context_tokens, device_memory }
    }

    /// The vector that asks for nothing.
    pub fn zero() -> (v: ResourceVector)
        ensures
            v@ == Amount::zero(),
    {
        ResourceVector { threads: 0, context_tokens: 0, device_memory: 0 }
    }

    /// Whether every dimension is zero.
    pub fn is_zero(&self) -> (b: bool)
        ensures
            b == (self@ == Amount::zero()),
    {
        self.threads == 0 && self.context_tokens == 0 && self.device_memory == 0
    }

    /// Whether `self` is at most `limit` in every dimension.
    pub fn fits_within(&self, limit: &ResourceVector) -> (b: bool)
        ensures
            b == self@.fits_within(limit@),
    {
        self.threads <= limit.threads && self.context_tokens <= limit.context_tokens
            && self.device_memory <= limit.device_memory
    }

    /// The sum of two vectors, or `None` when a dimension of the sum cannot
    /// be held in a `u64`.
    pub fn checked_add(&self, other: &ResourceVector) -> (sum: Option<ResourceVector>)
        ensures
            match sum {
                Some(s) => s@ == self@.plus(other@),
                None => !self@.plus(other@).representable(),
            },
    {
        let threads: u64 = match self.threads.checked_add(other.threads) {
            Some(t) => t,
            None => { return None; },
        };
        let context_tokens: u64 = match self.context_tokens.checked_add(other.context_tokens) {
            Some(c) => c,
            None => { return None; },
        };
        let device_memory: u64 = match self.device_memory.checked_add(other.device_memory) {
            Some(m) => m,
            None => { return None; },
        };
        Some(ResourceVector { threads, context_tokens, device_memory })
    }

    /// `self` less `other`, or `None` when `other` exceeds `self` in some
    /// dimension.
    pub fn checked_sub(&self, other: &ResourceVector) -> (diff: Option<ResourceVector>)
        ensures
            match diff {
                Some(d) => other@.fits_within(self@) && d@ == self@.minus(other@),
                None => !other@.fits_within(self@),
            },
    {
        if other.fits_within(self) {
            Some(
                ResourceVector {
                    threads: self.threads - other.threads,
                    context_tokens: self.context_tokens - other.context_tokens,
                    device_memory: self.device_memory - other.device_memory,
                },
            )
        } else {
            None
        }
    }

    /// The sum of two vectors, each dimension stopping at `u64::MAX`.
    pub fn saturating_add(&self, other: &ResourceVector) -> (sum: ResourceVector)
        ensures
            sum@ == self@.plus(other@).clamped(),
    {
        ResourceVector {
            threads: self.threads.saturating_add(other.threads),
            context_tokens: self.context_tokens.saturating_add(other.context_tokens),
            device_memory: self.device_memory.saturating_add(other.device_memory),
        }
    }
}

/// The product of `x` and `y`, stopping at `u64::MAX`.
pub fn saturating_mul_u64(x: u64, y: u64) -> (product: u64)
    ensures
        product == clamp_u64(x * y),
{
    assert(0 <= x * y) by (nonlinear_arith)
        requires
            0 <= x,
            0 <= y,
    ;
    match x.checked_mul(y) {
        Some(p) => p,
        None => u64::MAX,
    }
}

} // verus!
