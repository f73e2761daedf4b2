use vstd::prelude::*;

verus! {

#[verifier::external_type_specification]
#[verifier::external_body]
pub struct ExDispatchError(sp_runtime::DispatchError);

/// Who sends a call.
#[derive(Clone, Copy, Debug, PartialEq, Eq)]
pub enum Origin {
    /// the root of the chain
    Root,
    /// an account that signed the call
    Signed(u64),
    /// nobody
    Unsigned,
}

/// The errors of the clubs pallet.
#[derive(Clone, Copy, Debug, PartialEq, Eq)]
pub enum Error {
    /// no club with the given owner and id
    ClubDoesNotExistORWrongOwner,
    /// no club with the given id
    ClubIdDoesNotExist,
    /// no membership expires at the given block
    NotAExpirationTime,
    /// no membership of the given member in the given club
    MemberShipDoesNotExist,
    /// the member already holds a membership of the club
    MemberAlreadyExist,
    /// the membership period is shorter than one year or longer than the maximum
    MemeberShipPeriodExceeds,
    /// a club with the given owner and id already exists
    ClubAlreadyExists,
    /// the caller does not own the club
    ClubDoesNotExists,
}

/// Why a call failed.
#[derive(Clone, Copy, Debug, PartialEq, Eq)]
pub enum CallError {
    /// the origin may not make the call
    BadOrigin,
    /// an error of this pallet
    Module(Error),
    /// the currency refused a transfer
    Currency(sp_runtime::DispatchError),
}

/// Result of a call.
pub type DispatchResult = Result<(), CallError>;

/// The events of the clubs pallet.
#[derive(Clone, Copy, Debug, PartialEq, Eq)]
pub enum Event {
    /// (owner, club id, annual expences)
    ClubCreated(u64, u64, u128),
    /// (club id, new annual expences)
    AnnualExpenceChanged(u64, u128),
    /// (member, club id, block at which the membership expires)
    MemberAdded(u64, u64, u64),
    /// (club id)
    OwnershipOfClubTransfered(u64),
    /// (member, club id): the membership was cancelled
    MemebrShipExpired(u64, u64),
    /// (member, club id)
    MemberShipRenewed(u64, u64),
    /// (member, club id)
    MembershipPeriodUpdated(u64, u64),
}

/// A transfer that a call needs before it can complete.
#[derive(Clone, Copy, Debug, PartialEq, Eq)]
pub struct Payment {
    /// the account that pays
    pub from: u64,
    /// the account that is paid
    pub to: u64,
    /// the amount
    pub amount: u128,
}

} // verus!
