use vstd::prelude::*;

verus! {

/// Identifier of a club.
pub type ClubId = u64;

/// A club: what members pay per year, when it was created and who its members are.
#[derive(Clone, Debug, Default, PartialEq, Eq)]
pub struct Club<Expences, ListOfMembers, BlockNumber> {
    /// annual expences, set by the owner
    pub annual_expences: Expences,
    /// block at which the club was created
    pub created: BlockNumber,
    /// the members of the club, in the order in which they joined
    pub members: ListOfMembers,
}

impl<Expences, ListOfMembers: View, BlockNumber> View for Club<Expences, ListOfMembers, BlockNumber> {
    type V = Club<Expences, ListOfMembers::V, BlockNumber>;

    open spec fn view(&self) -> Self::V {
        Club { annual_expences: self.annual_expences, created: self.created, members: self.members@ }
    }
}

/// What is known of one membership: when it expires next and for how many years it is
/// renewed each time.
#[derive(Clone, Copy, Debug, Default, PartialEq, Eq)]
pub struct MemberShipData<BlockNumber> {
    /// block at which the membership expires (and is renewed)
    pub expired_on: BlockNumber,
    /// length of one membership period, in years
    pub membership_period_in_years: u32,
}

} // verus!
