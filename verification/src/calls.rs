use vstd::prelude::*;

use crate::dispatch::{CallError, DispatchResult, Error, Event, Origin, Payment};
use crate::pallet::{fee_collector, new_club, schedule, signer, ClubsOf, Paid, Pallet, PalletState};
use crate::search::{entry_position, member_position, retag, retag_entries, Entry};
use crate::types::{Club, MemberShipData};

verus! {

/// The checks of `create_club`, and the payment it asks for when they pass.
pub open spec fn create_club_check(s: PalletState, origin: Origin, owner: u64) -> Result<Payment, CallError> {
    if origin != Origin::Root {
        Err(CallError::BadOrigin)
    } else if s.clubs.contains_key((owner, (s.next_club_id + 1) as u64)) {
        Err(CallError::Module(Error::ClubAlreadyExists))
    } else {
        Ok(Payment { from: owner, to: fee_collector(s), amount: s.config.fees_to_create_club })
    }
}

/// The state and the result of `create_club`, given what the currency answered.
pub open spec fn create_club_effect(
    s: PalletState,
    origin: Origin,
    owner: u64,
    annual_expences: u128,
    now: u64,
    paid: Paid,
) -> (PalletState, DispatchResult) {
    match create_club_check(s, origin, owner) {
        Err(e) => (s, Err(e)),
        Ok(_) => match paid {
            Err(e) => (s, Err(CallError::Currency(e))),
            Ok(_) => {
                let id = (s.next_club_id + 1) as u64;
                (
                    PalletState {
                        next_club_id: id,
                        clubs: s.clubs.insert((owner, id), new_club(annual_expences, now)),
                        events: s.events.push(Event::ClubCreated(owner, id, annual_expences)),
                        ..s
                    },
                    Ok(()),
                )
            },
        },
    }
}

impl Pallet {
    /// The checks of `create_club`: the payment it asks for, or why it fails.
    pub fn create_club_payment(&self, origin: Origin, owner: u64) -> (r: Result<Payment, CallError>)
        requires
            origin == Origin::Root ==> self@.next_club_id < u64::MAX,
        ensures
            r == create_club_check(self@, origin, owner),
    {
        match origin {
            Origin::Root => {},
            _ => return Err(CallError::BadOrigin),
        }
        let club_id = self.next_club_id().checked_add(1).unwrap();
        if self.has_club(owner, club_id) {
            return Err(CallError::Module(Error::ClubAlreadyExists));
        }
        Ok(Payment { from: owner, to: self.fee_collector_id(), amount: self.config().fees_to_create_club })
    }

    /// `create_club` once the currency has answered `paid` to the payment it asked for.
    pub fn create_club_with(
        &mut self,
        origin: Origin,
        owner: u64,
        initial_annual_expences: u128,
        now: u64,
        paid: Paid,
    ) -> (r: DispatchResult)
        requires
            origin == Origin::Root ==> old(self)@.next_club_id < u64::MAX,
        ensures
            (final(self)@, r) == create_club_effect(old(self)@, origin, owner, initial_annual_expences, now, paid),
    {
        match self.create_club_payment(origin, owner) {
            Err(e) => return Err(e),
            Ok(_) => {},
        }
        match paid {
            Err(e) => return Err(CallError::Currency(e)),
            Ok(_) => {},
        }
        let club_id = self.next_club_id() + 1;
        let club: ClubsOf = Club { annual_expences: initial_annual_expences, created: now, members: Vec::new() };
        assert(club@ == new_club(initial_annual_expences, now));
        self.set_next_club_id(club_id);
        self.put_club(owner, club_id, club);
        self.deposit_event(Event::ClubCreated(owner, club_id, initial_annual_expences));
        Ok(())
    }

    /// Root creates a club for `owner`, who pays the creation fee to the fee collector;
    /// `pay(from, to, amount)` makes that transfer in the runtime's currency.
    pub fn create_club<F: FnOnce(u64, u64, u128) -> Paid>(
        &mut self,
        pay: F,
        origin: Origin,
        owner: u64,
        initial_annual_expences: u128,
        now: u64,
    ) -> (r: DispatchResult)
        requires
            origin == Origin::Root ==> old(self)@.next_club_id < u64::MAX,
            forall|from: u64, to: u64, amount: u128| #[trigger] call_requires(pay, (from, to, amount)),
        ensures
            match create_club_check(old(self)@, origin, owner) {
                Err(e) => final(self)@ == old(self)@ && r == Err::<(), CallError>(e),
                Ok(p) => exists|paid: Paid|
                    call_ensures(pay, (p.from, p.to, p.amount), paid) && (final(self)@, r)
                        == #[trigger] create_club_effect(old(self)@, origin, owner, initial_annual_expences, now, paid),
            },
    {
        let ghost old_state = self@;
        let payment = match self.create_club_payment(origin, owner) {
            Err(e) => return Err(e),
            Ok(p) => p,
        };
        let paid = pay(payment.from, payment.to, payment.amount);
        let r = self.create_club_with(origin, owner, initial_annual_expences, now, paid);
        assert((self@, r) == create_club_effect(old_state, origin, owner, initial_annual_expences, now, paid));
        r
    }
}


/// The state and the result of `set_the_annual_expences`.
pub open spec fn set_the_annual_expences_effect(
    s: PalletState,
    origin: Origin,
    new_annual_expence: u128,
    club_id: u64,
) -> (PalletState, DispatchResult) {
    match signer(origin) {
        None => (s, Err(CallError::BadOrigin)),
        Some(owner) => if !s.clubs.contains_key((owner, club_id)) {
            (s, Err(CallError::Module(Error::ClubDoesNotExistORWrongOwner)))
        } else {
            (
                PalletState {
                    clubs: s.clubs.insert(
                        (owner, club_id),
                        Club { annual_expences: new_annual_expence, ..s.clubs[(owner, club_id)] },
                    ),
                    events: s.events.push(Event::AnnualExpenceChanged(club_id, new_annual_expence)),
                    ..s
                },
                Ok(()),
            )
        },
    }
}

/// The checks of `transfer_ownership`, and the payment it asks for when they pass.
pub open spec fn transfer_ownership_check(
    s: PalletState,
    origin: Origin,
    new_owner: u64,
    fees: u128,
    club_id: u64,
) -> Result<Payment, CallError> {
    match signer(origin) {
        None => Err(CallError::BadOrigin),
        Some(old_owner) => if !s.clubs.contains_key((old_owner, club_id)) {
            Err(CallError::Module(Error::ClubDoesNotExistORWrongOwner))
        } else {
            Ok(Payment { from: new_owner, to: old_owner, amount: fees })
        },
    }
}

/// The expiry schedule after the entry of the membership `(member, club_id)` was moved
/// from the old owner of the club to the new one.
pub open spec fn retag_member(
    expired_on: Map<u64, Seq<Entry>>,
    membership: Map<(u64, u64), MemberShipData<u64>>,
    member: u64,
    club_id: u64,
    old_owner: u64,
    new_owner: u64,
) -> Map<u64, Seq<Entry>> {
    if membership.contains_key((member, club_id)) && expired_on.contains_key(membership[(member, club_id)].expired_on) {
        let block = membership[(member, club_id)].expired_on;
        expired_on.insert(block, retag(expired_on[block], (member, club_id, old_owner), (member, club_id, new_owner)))
    } else {
        expired_on
    }
}

/// The expiry schedule after the entries of the first `upto` of `members` were moved
/// from the old owner of the club to the new one.
pub open spec fn retag_members(
    expired_on: Map<u64, Seq<Entry>>,
    membership: Map<(u64, u64), MemberShipData<u64>>,
    members: Seq<u64>,
    upto: int,
    club_id: u64,
    old_owner: u64,
    new_owner: u64,
) -> Map<u64, Seq<Entry>>
    decreases upto,
{
    if upto <= 0 {
        expired_on
    } else {
        retag_member(
            retag_members(expired_on, membership, members, upto - 1, club_id, old_owner, new_owner),
            membership,
            members[upto - 1],
            club_id,
            old_owner,
            new_owner,
        )
    }
}

/// The state and the result of `transfer_ownership`, given what the currency answered.
pub open spec fn transfer_ownership_effect(
    s: PalletState,
    origin: Origin,
    new_owner: u64,
    fees: u128,
    club_id: u64,
    paid: Paid,
) -> (PalletState, DispatchResult) {
    match transfer_ownership_check(s, origin, new_owner, fees, club_id) {
        Err(e) => (s, Err(e)),
        Ok(p) => match paid {
            Err(e) => (s, Err(CallError::Currency(e))),
            Ok(_) => {
                let old_owner = p.to;
                let members = s.clubs[(old_owner, club_id)].members;
                (
                    PalletState {
                        clubs: s.clubs.remove((old_owner, club_id)).insert(
                            (new_owner, club_id),
                            s.clubs[(old_owner, club_id)],
                        ),
                        expired_on: retag_members(
                            s.expired_on,
                            s.membership,
                            members,
                            members.len() as int,
                            club_id,
                            old_owner,
                            new_owner,
                        ),
                        events: s.events.push(Event::OwnershipOfClubTransfered(club_id)),
                        ..s
                    },
                    Ok(()),
                )
            },
        },
    }
}

/// A membership period in blocks.
pub open spec fn period_blocks(s: PalletState, years: u32) -> int {
    years * s.config.unit_membership_period
}

/// The block at which a membership of `years` years taken at `now` expires.
pub open spec fn expiration(s: PalletState, years: u32, now: u64) -> u64 {
    (now + period_blocks(s, years)) as u64
}

/// Whether a period of `years` years is accepted: at least one year, at most the maximum.
pub open spec fn period_allowed(s: PalletState, years: u32) -> bool {
    s.config.unit_membership_period <= period_blocks(s, years) <= s.config.max_membership_period
}

/// What a member pays for `years` years of a club with the given annual expences.
pub open spec fn membership_fee(annual_expences: u128, years: u32) -> int {
    annual_expences * years
}

/// The checks of `add_members`, and the payment it asks for when they pass.
pub open spec fn add_members_check(
    s: PalletState,
    origin: Origin,
    member: u64,
    club_id: u64,
    years: u32,
) -> Result<Payment, CallError> {
    match signer(origin) {
        None => Err(CallError::BadOrigin),
        Some(owner) => if !s.clubs.contains_key((owner, club_id)) {
            Err(CallError::Module(Error::ClubDoesNotExistORWrongOwner))
        } else if s.membership.contains_key((member, club_id)) {
            Err(CallError::Module(Error::MemberAlreadyExist))
        } else if !period_allowed(s, years) {
            Err(CallError::Module(Error::MemeberShipPeriodExceeds))
        } else {
            Ok(
                Payment {
                    from: member,
                    to: owner,
                    amount: membership_fee(s.clubs[(owner, club_id)].annual_expences, years) as u128,
                },
            )
        },
    }
}

/// The arithmetic of `add_members` stays within its integer types (where it does not,
/// the call panics). `paid_ok`: whether the currency accepted the payment.
pub open spec fn add_members_fits(
    s: PalletState,
    origin: Origin,
    member: u64,
    club_id: u64,
    years: u32,
    now: u64,
    paid_ok: bool,
) -> bool {
    match signer(origin) {
        None => true,
        Some(owner) => s.clubs.contains_key((owner, club_id)) && !s.membership.contains_key(
            (member, club_id),
        ) ==> {
            &&& period_blocks(s, years) <= u64::MAX
            &&& period_allowed(s, years) ==> membership_fee(
                s.clubs[(owner, club_id)].annual_expences,
                years,
            ) <= u128::MAX
            &&& period_allowed(s, years) && paid_ok ==> now + period_blocks(s, years) <= u64::MAX
        },
    }
}

/// The state and the result of `add_members`, given what the currency answered.
pub open spec fn add_members_effect(
    s: PalletState,
    origin: Origin,
    member: u64,
    club_id: u64,
    years: u32,
    now: u64,
    paid: Paid,
) -> (PalletState, DispatchResult) {
    match add_members_check(s, origin, member, club_id, years) {
        Err(e) => (s, Err(e)),
        Ok(p) => match paid {
            Err(e) => (s, Err(CallError::Currency(e))),
            Ok(_) => {
                let owner = p.to;
                let expires = expiration(s, years, now);
                let club = s.clubs[(owner, club_id)];
                (
                    PalletState {
                        membership: s.membership.insert(
                            (member, club_id),
                            MemberShipData { expired_on: expires, membership_period_in_years: years },
                        ),
                        expired_on: schedule(s.expired_on, expires, (member, club_id, owner)),
                        clubs: s.clubs.insert(
                            (owner, club_id),
                            Club { members: club.members.push(member), ..club },
                        ),
                        events: s.events.push(Event::MemberAdded(member, club_id, expires)),
                        ..s
                    },
                    Ok(()),
                )
            },
        },
    }
}

/// The state and the result of `update_membership_period`.
pub open spec fn update_membership_period_effect(
    s: PalletState,
    origin: Origin,
    club_id: u64,
    years: u32,
) -> (PalletState, DispatchResult) {
    match signer(origin) {
        None => (s, Err(CallError::BadOrigin)),
        Some(member) => if !s.membership.contains_key((member, club_id)) {
            (s, Err(CallError::Module(Error::MemberShipDoesNotExist)))
        } else if !period_allowed(s, years) {
            (s, Err(CallError::Module(Error::MemeberShipPeriodExceeds)))
        } else {
            (
                PalletState {
                    membership: s.membership.insert(
                        (member, club_id),
                        MemberShipData {
                            membership_period_in_years: years,
                            ..s.membership[(member, club_id)]
                        },
                    ),
                    events: s.events.push(Event::MembershipPeriodUpdated(member, club_id)),
                    ..s
                },
                Ok(()),
            )
        },
    }
}

/// The expiry schedule after `cancel_membership` took `entry` out of the list at `block`:
/// the list loses the first occurrence of the entry, if the entry is in it.
pub open spec fn unschedule(expired_on: Map<u64, Seq<Entry>>, block: u64, entry: Entry) -> Map<u64, Seq<Entry>> {
    if expired_on.contains_key(block) && expired_on[block].contains(entry) {
        expired_on.insert(block, expired_on[block].remove(expired_on[block].index_of_first(entry)->0))
    } else {
        expired_on
    }
}

/// The club after `cancel_membership` took `member` out of its members: the list loses
/// the first occurrence of the member, if the member is in it.
pub open spec fn unlist(club: Club<u128, Seq<u64>, u64>, member: u64) -> Club<u128, Seq<u64>, u64> {
    if club.members.contains(member) {
        Club { members: club.members.remove(club.members.index_of_first(member)->0), ..club }
    } else {
        club
    }
}

/// The state and the result of `cancel_membership`.
pub open spec fn cancel_membership_effect(
    s: PalletState,
    origin: Origin,
    member: u64,
    club_id: u64,
) -> (PalletState, DispatchResult) {
    match signer(origin) {
        None => (s, Err(CallError::BadOrigin)),
        Some(owner) => if !s.clubs.contains_key((owner, club_id)) {
            (s, Err(CallError::Module(Error::ClubDoesNotExistORWrongOwner)))
        } else if !s.membership.contains_key((member, club_id)) {
            (s, Err(CallError::Module(Error::MemberShipDoesNotExist)))
        } else {
            let block = s.membership[(member, club_id)].expired_on;
            (
                PalletState {
                    membership: s.membership.remove((member, club_id)),
                    expired_on: unschedule(s.expired_on, block, (member, club_id, owner)),
                    clubs: s.clubs.insert((owner, club_id), unlist(s.clubs[(owner, club_id)], member)),
                    events: s.events.push(Event::MemebrShipExpired(member, club_id)),
                    ..s
                },
                Ok(()),
            )
        },
    }
}

impl Pallet {
    /// The owner of a club sets the annual expences that members pay.
    pub fn set_the_annual_expences(&mut self, origin: Origin, new_annual_expence: u128, club_id: u64) -> (r: DispatchResult)
        ensures
            (final(self)@, r) == set_the_annual_expences_effect(old(self)@, origin, new_annual_expence, club_id),
    {
        let owner = match origin {
            Origin::Signed(who) => who,
            _ => return Err(CallError::BadOrigin),
        };
        let mut club = match self.get_club(owner, club_id) {
            Some(c) => c,
            None => return Err(CallError::Module(Error::ClubDoesNotExistORWrongOwner)),
        };
        club.annual_expences = new_annual_expence;
        self.put_club(owner, club_id, club);
        self.deposit_event(Event::AnnualExpenceChanged(club_id, new_annual_expence));
        Ok(())
    }

    /// The checks of `transfer_ownership`: the payment it asks for, or why it fails.
    pub fn transfer_ownership_payment(&self, origin: Origin, new_owner: u64, fees: u128, club_id: u64) -> (r: Result<Payment, CallError>)
        ensures
            r == transfer_ownership_check(self@, origin, new_owner, fees, club_id),
    {
        let old_owner = match origin {
            Origin::Signed(who) => who,
            _ => return Err(CallError::BadOrigin),
        };
        if !self.has_club(old_owner, club_id) {
            return Err(CallError::Module(Error::ClubDoesNotExistORWrongOwner));
        }
        Ok(Payment { from: new_owner, to: old_owner, amount: fees })
    }

    /// `transfer_ownership` once the currency has answered `paid` to the payment it asked for.
    pub fn transfer_ownership_with(
        &mut self,
        origin: Origin,
        new_owner: u64,
        fees: u128,
        club_id: u64,
        paid: Paid,
    ) -> (r: DispatchResult)
        ensures
            (final(self)@, r) == transfer_ownership_effect(old(self)@, origin, new_owner, fees, club_id, paid),
    {
        let payment = match self.transfer_ownership_payment(origin, new_owner, fees, club_id) {
            Err(e) => return Err(e),
            Ok(p) => p,
        };
        match paid {
            Err(e) => return Err(CallError::Currency(e)),
            Ok(_) => {},
        }
        let old_owner = payment.to;
        let club = match self.take_club(old_owner, club_id) {
            Some(c) => c,
            None => return Err(CallError::Module(Error::ClubDoesNotExistORWrongOwner)),
        };
        let members = Self::copy_members(&club.members);
        self.put_club(new_owner, club_id, club);
        let ghost s1 = self@;
        let mut i: usize = 0;
        while i < members.len()
            invariant
                i <= members.len(),
                self@ == (PalletState {
                    expired_on: retag_members(s1.expired_on, s1.membership, members@, i as int, club_id, old_owner, new_owner),
                    ..s1
                }),
            decreases members.len() - i,
        {
            let member = members[i];
            if let Some(data) = self.get_membership(member, club_id) {
                if let Some(scheduled) = self.get_expiring(data.expired_on) {
                    let moved = retag_entries(&scheduled, (member, club_id, old_owner), (member, club_id, new_owner));
                    self.put_expiring(data.expired_on, moved);
                }
            }
            i = i + 1;
        }
        self.deposit_event(Event::OwnershipOfClubTransfered(club_id));
        Ok(())
    }

    /// The owner of a club hands it to `new_owner`, who pays `fees` to the old owner; the
    /// memberships of the club are scheduled under the new owner from then on.
    /// `pay(from, to, amount)` makes the transfer in the runtime's currency.
    pub fn transfer_ownership<F: FnOnce(u64, u64, u128) -> Paid>(
        &mut self,
        pay: F,
        origin: Origin,
        new_owner: u64,
        fees: u128,
        club_id: u64,
    ) -> (r: DispatchResult)
        requires
            forall|from: u64, to: u64, amount: u128| #[trigger] call_requires(pay, (from, to, amount)),
        ensures
            match transfer_ownership_check(old(self)@, origin, new_owner, fees, club_id) {
                Err(e) => final(self)@ == old(self)@ && r == Err::<(), CallError>(e),
                Ok(p) => exists|paid: Paid|
                    call_ensures(pay, (p.from, p.to, p.amount), paid) && (final(self)@, r)
                        == #[trigger] transfer_ownership_effect(old(self)@, origin, new_owner, fees, club_id, paid),
            },
    {
        let ghost old_state = self@;
        let payment = match self.transfer_ownership_payment(origin, new_owner, fees, club_id) {
            Err(e) => return Err(e),
            Ok(p) => p,
        };
        let paid = pay(payment.from, payment.to, payment.amount);
        let r = self.transfer_ownership_with(origin, new_owner, fees, club_id, paid);
        assert((self@, r) == transfer_ownership_effect(old_state, origin, new_owner, fees, club_id, paid));
        r
    }
}


/// What `read_clubs` answers.
pub open spec fn club_of(s: PalletState, owner: u64, club_id: u64) -> Result<Club<u128, Seq<u64>, u64>, Error> {
    if s.clubs.contains_key((owner, club_id)) {
        Ok(s.clubs[(owner, club_id)])
    } else {
        Err(Error::ClubDoesNotExistORWrongOwner)
    }
}

/// What `read_membership` answers.
pub open spec fn membership_of(s: PalletState, key: (u64, u64)) -> Result<MemberShipData<u64>, Error> {
    if s.membership.contains_key(key) {
        Ok(s.membership[key])
    } else {
        Err(Error::MemberShipDoesNotExist)
    }
}

/// What `read_expired_on` answers.
pub open spec fn expiring_at(s: PalletState, block_number: u64) -> Result<Seq<Entry>, Error> {
    if s.expired_on.contains_key(block_number) {
        Ok(s.expired_on[block_number])
    } else {
        Err(Error::NotAExpirationTime)
    }
}

impl Pallet {
    /// The checks of `add_members`: the payment it asks for, or why it fails.
    pub fn add_members_payment(&self, origin: Origin, member: u64, club_id: u64, membership_period_in_years: u32) -> (r: Result<Payment, CallError>)
        requires
            add_members_fits(self@, origin, member, club_id, membership_period_in_years, 0, false),
        ensures
            r == add_members_check(self@, origin, member, club_id, membership_period_in_years),
    {
        let owner = match origin {
            Origin::Signed(who) => who,
            _ => return Err(CallError::BadOrigin),
        };
        let club = match self.get_club(owner, club_id) {
            Some(c) => c,
            None => return Err(CallError::Module(Error::ClubDoesNotExistORWrongOwner)),
        };
        if self.get_membership(member, club_id).is_some() {
            return Err(CallError::Module(Error::MemberAlreadyExist));
        }
        let config = self.config();
        let block_number_years: u64 = (membership_period_in_years as u64) * config.unit_membership_period;
        if !(block_number_years >= config.unit_membership_period
            && block_number_years <= config.max_membership_period) {
            return Err(CallError::Module(Error::MemeberShipPeriodExceeds));
        }
        let calculated_fees: u128 = club.annual_expences * (membership_period_in_years as u128);
        Ok(Payment { from: member, to: owner, amount: calculated_fees })
    }

    /// `add_members` once the currency has answered `paid` to the payment it asked for.
    pub fn add_members_with(
        &mut self,
        origin: Origin,
        member: u64,
        club_id: u64,
        membership_period_in_years: u32,
        now: u64,
        paid: Paid,
    ) -> (r: DispatchResult)
        requires
            add_members_fits(old(self)@, origin, member, club_id, membership_period_in_years, now, paid is Ok),
        ensures
            (final(self)@, r) == add_members_effect(old(self)@, origin, member, club_id, membership_period_in_years, now, paid),
    {
        let ghost s = self@;
        let payment = match self.add_members_payment(origin, member, club_id, membership_period_in_years) {
            Err(e) => return Err(e),
            Ok(p) => p,
        };
        match paid {
            Err(e) => return Err(CallError::Currency(e)),
            Ok(_) => {},
        }
        let owner = payment.to;
        let block_number_years: u64 = (membership_period_in_years as u64) * self.config().unit_membership_period;
        let expires: u64 = now + block_number_years;
        let mut club = self.get_club(owner, club_id).unwrap();
        self.put_membership(member, club_id, MemberShipData { expired_on: expires, membership_period_in_years });
        self.append_expiring(expires, (member, club_id, owner));
        club.members.push(member);
        self.put_club(owner, club_id, club);
        self.deposit_event(Event::MemberAdded(member, club_id, expires));
        assert(expires == expiration(s, membership_period_in_years, now));
        Ok(())
    }

    /// The owner of a club adds `member` for `membership_period_in_years` years; the member
    /// pays the annual expences of the club for each year to the owner.
    /// `pay(from, to, amount)` makes the transfer in the runtime's currency.
    pub fn add_members<F: FnOnce(u64, u64, u128) -> Paid>(
        &mut self,
        pay: F,
        origin: Origin,
        member: u64,
        club_id: u64,
        membership_period_in_years: u32,
        now: u64,
    ) -> (r: DispatchResult)
        requires
            add_members_fits(old(self)@, origin, member, club_id, membership_period_in_years, now, true),
            forall|from: u64, to: u64, amount: u128| #[trigger] call_requires(pay, (from, to, amount)),
        ensures
            match add_members_check(old(self)@, origin, member, club_id, membership_period_in_years) {
                Err(e) => final(self)@ == old(self)@ && r == Err::<(), CallError>(e),
                Ok(p) => exists|paid: Paid|
                    call_ensures(pay, (p.from, p.to, p.amount), paid) && (final(self)@, r)
                        == #[trigger] add_members_effect(
                            old(self)@,
                            origin,
                            member,
                            club_id,
                            membership_period_in_years,
                            now,
                            paid,
                        ),
            },
    {
        let ghost old_state = self@;
        let payment = match self.add_members_payment(origin, member, club_id, membership_period_in_years) {
            Err(e) => return Err(e),
            Ok(p) => p,
        };
        let paid = pay(payment.from, payment.to, payment.amount);
        let r = self.add_members_with(origin, member, club_id, membership_period_in_years, now, paid);
        assert((self@, r) == add_members_effect(old_state, origin, member, club_id, membership_period_in_years, now, paid));
        r
    }

    /// A member sets the number of years for which its membership is renewed; the period
    /// must be at least one year and at most the maximum, as for `add_members`.
    pub fn update_membership_period(&mut self, origin: Origin, club_id: u64, new_membership_period_in_years: u32) -> (r: DispatchResult)
        ensures
            (final(self)@, r) == update_membership_period_effect(old(self)@, origin, club_id, new_membership_period_in_years),
    {
        let member = match origin {
            Origin::Signed(who) => who,
            _ => return Err(CallError::BadOrigin),
        };
        let mut data = match self.get_membership(member, club_id) {
            Some(d) => d,
            None => return Err(CallError::Module(Error::MemberShipDoesNotExist)),
        };
        let config = self.config();
        let years_wide = new_membership_period_in_years as u128;
        let unit_wide = config.unit_membership_period as u128;
        assert(years_wide * unit_wide <= u128::MAX) by (nonlinear_arith)
            requires
                years_wide <= 0xffff_ffff,
                unit_wide <= 0xffff_ffff_ffff_ffff,
        ;
        let blocks: u128 = years_wide * unit_wide;
        if !(blocks >= config.unit_membership_period as u128 && blocks <= config.max_membership_period as u128) {
            return Err(CallError::Module(Error::MemeberShipPeriodExceeds));
        }
        data.membership_period_in_years = new_membership_period_in_years;
        self.put_membership(member, club_id, data);
        self.deposit_event(Event::MembershipPeriodUpdated(member, club_id));
        Ok(())
    }

    /// The owner of a club cancels the membership of `member`: the membership, its place in
    /// the expiry schedule and its place among the members go.
    pub fn cancel_membership(&mut self, origin: Origin, member: u64, club_id: u64) -> (r: DispatchResult)
        ensures
            (final(self)@, r) == cancel_membership_effect(old(self)@, origin, member, club_id),
    {
        let ghost s = self@;
        let owner = match origin {
            Origin::Signed(who) => who,
            _ => return Err(CallError::BadOrigin),
        };
        let mut club = match self.get_club(owner, club_id) {
            Some(c) => c,
            None => return Err(CallError::Module(Error::ClubDoesNotExistORWrongOwner)),
        };
        let data = match self.get_membership(member, club_id) {
            Some(d) => d,
            None => return Err(CallError::Module(Error::MemberShipDoesNotExist)),
        };
        let _ = self.take_membership(member, club_id);
        let block = data.expired_on;
        let entry: Entry = (member, club_id, owner);
        match self.get_expiring(block) {
            Some(mut scheduled) => {
                proof {
                    scheduled@.index_of_first_ensures(entry);
                }
                match entry_position(&scheduled, entry) {
                    Some(index) => {
                        scheduled.remove(index);
                        self.put_expiring(block, scheduled);
                    },
                    None => {},
                }
            },
            None => {},
        }
        proof {
            club.members@.index_of_first_ensures(member);
        }
        match member_position(&club.members, member) {
            Some(index) => {
                club.members.remove(index);
            },
            None => {},
        }
        self.put_club(owner, club_id, club);
        self.deposit_event(Event::MemebrShipExpired(member, club_id));
        proof {
            assert(self@.expired_on =~= unschedule(s.expired_on, block, entry));
        }
        Ok(())
    }

    /// The club `(owner, club_id)`, if it exists.
    pub fn read_clubs(&self, owner: u64, club_id: u64) -> (r: Result<ClubsOf, Error>)
        ensures
            match r {
                Ok(c) => club_of(self@, owner, club_id) == Ok::<Club<u128, Seq<u64>, u64>, Error>(c@),
                Err(e) => club_of(self@, owner, club_id) == Err::<Club<u128, Seq<u64>, u64>, Error>(e),
            },
    {
        match self.get_club(owner, club_id) {
            Some(c) => Ok(c),
            None => Err(Error::ClubDoesNotExistORWrongOwner),
        }
    }

    /// The membership `key` = (member, club id), if it exists.
    pub fn read_membership(&self, key: (u64, u64)) -> (r: Result<MemberShipData<u64>, Error>)
        ensures
            r == membership_of(self@, key),
    {
        match self.get_membership(key.0, key.1) {
            Some(d) => Ok(d),
            None => Err(Error::MemberShipDoesNotExist),
        }
    }

    /// The memberships scheduled to expire at `block_number`, if the block is in the
    /// schedule.
    pub fn read_expired_on(&self, block_number: u64) -> (r: Result<Vec<Entry>, Error>)
        ensures
            match r {
                Ok(v) => expiring_at(self@, block_number) == Ok::<Seq<Entry>, Error>(v@),
                Err(e) => expiring_at(self@, block_number) == Err::<Seq<Entry>, Error>(e),
            },
    {
        match self.get_expiring(block_number) {
            Some(v) => Ok(v),
            None => Err(Error::NotAExpirationTime),
        }
    }

    /// The events deposited so far, oldest first.
    pub fn events(&self) -> (r: Vec<Event>)
        ensures
            r@ == self@.events,
    {
        self.copy_events()
    }
}

} // verus!
