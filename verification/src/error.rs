use vstd::prelude::*;

verus! {

/// Why a call was rejected. A rejected call changes nothing.
#[derive(Clone, Copy, Debug, PartialEq, Eq, Structural)]
pub enum EscrowError {
    /// A deposit was made by someone other than the admin.
    NotAdmin,
    /// A deposit named more claimants than one deposit may.
    TooManyClaimants,
    /// Adding up amounts left the signed 128-bit range.
    Overflow,
    /// A claim was made on a token that has no record.
    NoBalance,
    /// A claim was made by someone the record does not name.
    NoMatchingClaimant,
}

impl EscrowError {
    /// The message that the rejection is reported with.
    pub fn message(&self) -> (text: &'static str)
        ensures
            text@ == match *self {
                EscrowError::NotAdmin => "only admin may deposit"@,
                EscrowError::TooManyClaimants => "too many claimants"@,
                EscrowError::Overflow => "arithmetic overflow"@,
                EscrowError::NoBalance => "no balance found"@,
                EscrowError::NoMatchingClaimant => "no matching claimant found"@,
            },
    {
        match self {
            EscrowError::NotAdmin => "only admin may deposit",
            EscrowError::TooManyClaimants => "too many claimants",
            EscrowError::Overflow => "arithmetic overflow",
            EscrowError::NoBalance => "no balance found",
            EscrowError::NoMatchingClaimant => "no matching claimant found",
        }
    }
}

} // verus!
