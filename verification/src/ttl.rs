use vstd::prelude::*;

verus! {

/// Number of ledgers that close in one day.
pub const DAY_IN_LEDGERS: u32 = 17280;

/// Lifetime, in ledgers, that a renewal gives the contract instance: seven days.
pub const INSTANCE_TARGET_TTL: u32 = 7 * DAY_IN_LEDGERS;

/// Remaining lifetime, in ledgers, below which the instance is renewed: six days.
pub const INSTANCE_RENEWAL_THRESHOLD: u32 = INSTANCE_TARGET_TTL - DAY_IN_LEDGERS;

/// A request to keep a storage instance alive: where fewer than `threshold`
/// ledgers of lifetime remain, the lifetime becomes `extend_to` ledgers.
#[derive(Clone, Copy, Debug, PartialEq, Eq, Structural)]
pub struct TtlExtension {
    pub threshold: u32,
    pub extend_to: u32,
}

/// The request that the contract makes for its own instance.
pub open spec fn instance_request() -> TtlExtension {
    TtlExtension { threshold: INSTANCE_RENEWAL_THRESHOLD, extend_to: INSTANCE_TARGET_TTL }
}

impl TtlExtension {
    /// The lifetime that is left once this request has been served on an
    /// instance with `remaining` ledgers to live.
    pub open spec fn horizon(self, remaining: int) -> int {
        if remaining < self.threshold {
            self.extend_to as int
        } else {
            remaining
        }
    }

    /// The request that the contract makes for its own instance.
    pub fn instance() -> (request: TtlExtension)
        ensures
            request == instance_request(),
    {
        TtlExtension { threshold: INSTANCE_RENEWAL_THRESHOLD, extend_to: INSTANCE_TARGET_TTL }
    }

    /// Serves this request on an instance with `remaining` ledgers to live,
    /// and returns the lifetime it has afterwards.
    ///
    /// A lifetime at or above the threshold is left as it is; one below the
    /// threshold becomes exactly `extend_to`.
    pub fn apply(&self, remaining: u32) -> (horizon: u32)
        ensures
            horizon == self.horizon(remaining as int),
            remaining >= self.threshold ==> horizon == remaining && horizon >= self.threshold,
            remaining < self.threshold ==> horizon == self.extend_to,
    {
        if remaining < self.threshold {
            self.extend_to
        } else {
            remaining
        }
    }
}

/// Serving a request a second time changes nothing.
pub proof fn lemma_extension_idempotent(request: TtlExtension, remaining: int)
    ensures
        request.horizon(request.horizon(remaining)) == request.horizon(remaining),
{
}

/// Once the contract's own request has been served, at least the renewal
/// threshold is left, and what was at or above the threshold is unchanged.
pub proof fn lemma_instance_horizon(remaining: int)
    ensures
        instance_request().horizon(remaining) >= INSTANCE_RENEWAL_THRESHOLD,
        remaining >= INSTANCE_RENEWAL_THRESHOLD ==> instance_request().horizon(remaining)
            == remaining,
        remaining < INSTANCE_RENEWAL_THRESHOLD ==> instance_request().horizon(remaining)
            == INSTANCE_TARGET_TTL,
{
}

} // verus!
