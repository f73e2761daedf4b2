//! What each call asks of the currency and what it leaves behind, stated in terms of the
//! call's own arguments.

use vstd::prelude::*;

use crate::calls::{
    add_members_check, add_members_effect, cancel_membership_effect, club_of, create_club_check, create_club_effect,
    expiring_at, membership_of, set_the_annual_expences_effect, transfer_ownership_check, transfer_ownership_effect,
    update_membership_period_effect,
};
use crate::dispatch::{CallError, Error, Origin, Payment};
use crate::expiry::{renewal_effect, renewal_payment};
use crate::pallet::{fee_collector, Paid, PalletState};
use crate::search::Entry;
use crate::types::{Club, MemberShipData};

verus! {

/// Law: a transfer of a club that its owner signs passes its checks, and asks the new
/// owner to pay the signer exactly the agreed fees.
pub proof fn law_transfer_asks_the_agreed_fees(s: PalletState, owner: u64, new_owner: u64, fees: u128, club_id: u64)
    requires
        s.clubs.contains_key((owner, club_id)),
    ensures
        transfer_ownership_check(s, Origin::Signed(owner), new_owner, fees, club_id)
            == Ok::<Payment, CallError>(Payment { from: new_owner, to: owner, amount: fees }),
{
}

/// Law: a renewal asks the member named by the entry to pay the owner it names the
/// club's annual expences for each year of the period: the same as adding the member for
/// that period would ask.
pub proof fn law_renewal_asks_the_fee(s: PalletState, entry: Entry, years: u32)
    requires
        s.clubs.contains_key((entry.2, entry.1)),
    ensures
        renewal_payment(s, entry, years).from == entry.0,
        renewal_payment(s, entry, years).to == entry.2,
        s.clubs[(entry.2, entry.1)].annual_expences * years <= u128::MAX ==> renewal_payment(s, entry, years).amount
            == s.clubs[(entry.2, entry.1)].annual_expences * years,
        add_members_check(s, Origin::Signed(entry.2), entry.0, entry.1, years) is Ok ==> add_members_check(
            s,
            Origin::Signed(entry.2),
            entry.0,
            entry.1,
            years,
        )->Ok_0 == renewal_payment(s, entry, years),
{
}

/// Law: a club that `create_club` made holds the annual expences it was given, the block
/// at which it was made and no members, under the next club id and its owner.
pub proof fn law_created_club(s: PalletState, owner: u64, annual_expences: u128, now: u64, paid: Paid)
    requires
        s.next_club_id < u64::MAX,
        create_club_effect(s, Origin::Root, owner, annual_expences, now, paid).1 is Ok,
    ensures
        ({
            let t = create_club_effect(s, Origin::Root, owner, annual_expences, now, paid).0;
            &&& t.next_club_id == s.next_club_id + 1
            &&& club_of(t, owner, t.next_club_id) == Ok::<Club<u128, Seq<u64>, u64>, Error>(
                Club { annual_expences, created: now, members: Seq::<u64>::empty() },
            )
        }),
{
}

/// Law: an owner's add passes its checks whenever the member holds no membership of that
/// club (memberships of other clubs do not count) and the period is at least one year and
/// at most the maximum; the member is then asked to pay the owner the annual expences for
/// each year.
pub proof fn law_add_members_accepts(s: PalletState, owner: u64, member: u64, club_id: u64, years: u32)
    requires
        s.clubs.contains_key((owner, club_id)),
        !s.membership.contains_key((member, club_id)),
        s.config.unit_membership_period <= years * s.config.unit_membership_period <= s.config.max_membership_period,
    ensures
        add_members_check(s, Origin::Signed(owner), member, club_id, years) is Ok,
        add_members_check(s, Origin::Signed(owner), member, club_id, years)->Ok_0.from == member,
        add_members_check(s, Origin::Signed(owner), member, club_id, years)->Ok_0.to == owner,
        s.clubs[(owner, club_id)].annual_expences * years <= u128::MAX ==> add_members_check(
            s,
            Origin::Signed(owner),
            member,
            club_id,
            years,
        )->Ok_0.amount == s.clubs[(owner, club_id)].annual_expences * years,
{
}

/// Law: a cancelled membership leaves the schedule at the block at which it expired one
/// occurrence of its entry fewer, the rest of that block's list in its order, and every
/// other block as it was; the club's list of members loses one occurrence of the member
/// in the same way.
pub proof fn law_cancel_unschedules(s: PalletState, owner: u64, member: u64, club_id: u64)
    requires
        cancel_membership_effect(s, Origin::Signed(owner), member, club_id).1 is Ok,
    ensures
        ({
            let t = cancel_membership_effect(s, Origin::Signed(owner), member, club_id).0;
            let block = s.membership[(member, club_id)].expired_on;
            let entry = (member, club_id, owner);
            let list = s.expired_on[block];
            let members = s.clubs[(owner, club_id)].members;
            &&& t.expired_on.dom() == s.expired_on.dom()
            &&& forall|b: u64| #[trigger] t.expired_on.contains_key(b) && b != block ==> t.expired_on[b] == s.expired_on[b]
            &&& s.expired_on.contains_key(block) && list.contains(entry) ==> exists|j: int|
                0 <= j < list.len() && list[j] == entry && t.expired_on[block] == list.subrange(0, j) + list.subrange(
                    j + 1,
                    list.len() as int,
                )
            &&& s.expired_on.contains_key(block) && !list.contains(entry) ==> t.expired_on[block] == list
            &&& members.contains(member) ==> exists|j: int|
                0 <= j < members.len() && members[j] == member && t.clubs[(owner, club_id)].members == members.subrange(
                    0,
                    j,
                ) + members.subrange(j + 1, members.len() as int)
            &&& !members.contains(member) ==> t.clubs[(owner, club_id)].members == members
        }),
{
    let t = cancel_membership_effect(s, Origin::Signed(owner), member, club_id).0;
    let block = s.membership[(member, club_id)].expired_on;
    let entry = (member, club_id, owner);
    let list = s.expired_on[block];
    let members = s.clubs[(owner, club_id)].members;
    assert(t.expired_on.dom() =~= s.expired_on.dom());
    if s.expired_on.contains_key(block) && list.contains(entry) {
        list.index_of_first_ensures(entry);
        let j = list.index_of_first(entry)->0;
        assert(t.expired_on[block] =~= list.subrange(0, j) + list.subrange(j + 1, list.len() as int));
    }
    if members.contains(member) {
        members.index_of_first_ensures(member);
        let j = members.index_of_first(member)->0;
        assert(t.clubs[(owner, club_id)].members =~= members.subrange(0, j) + members.subrange(j + 1, members.len() as int));
    }
}

/// Law: root's creation of a club for `owner` passes its checks unless `owner` already
/// has a club under the next id, and asks `owner` to pay the creation fee to the fee
/// collector.
pub proof fn law_create_asks_the_creation_fee(s: PalletState, owner: u64)
    requires
        s.next_club_id < u64::MAX,
    ensures
        create_club_check(s, Origin::Root, owner) is Ok <==> !s.clubs.contains_key((owner, (s.next_club_id + 1) as u64)),
        create_club_check(s, Origin::Root, owner) is Ok ==> create_club_check(s, Origin::Root, owner)->Ok_0 == (Payment {
            from: owner,
            to: fee_collector(s),
            amount: s.config.fees_to_create_club,
        }),
{
}

/// Law: the owner who sets the annual expences of a club finds them set, with the club's
/// creation block and members as they were, and every other club untouched.
pub proof fn law_set_expences_sets_them(s: PalletState, owner: u64, new_annual_expence: u128, club_id: u64)
    requires
        s.clubs.contains_key((owner, club_id)),
    ensures
        ({
            let (t, r) = set_the_annual_expences_effect(s, Origin::Signed(owner), new_annual_expence, club_id);
            let club = s.clubs[(owner, club_id)];
            &&& r is Ok
            &&& club_of(t, owner, club_id) == Ok::<Club<u128, Seq<u64>, u64>, Error>(
                Club { annual_expences: new_annual_expence, created: club.created, members: club.members },
            )
            &&& t.clubs.dom() == s.clubs.dom()
            &&& forall|k: (u64, u64)| #[trigger] t.clubs.contains_key(k) && k != (owner, club_id) ==> t.clubs[k] == s.clubs[k]
        }),
{
    let t = set_the_annual_expences_effect(s, Origin::Signed(owner), new_annual_expence, club_id).0;
    assert(t.clubs.dom() =~= s.clubs.dom());
}

/// Law: a member added for `years` years at block `now` holds a membership of that club
/// that expires `years` membership years after `now` and is renewed for `years` years,
/// is listed last among the club's members, and is scheduled last at the block at which
/// the membership expires.
pub proof fn law_add_members_adds(s: PalletState, owner: u64, member: u64, club_id: u64, years: u32, now: u64, paid: Paid)
    requires
        add_members_effect(s, Origin::Signed(owner), member, club_id, years, now, paid).1 is Ok,
        now + years * s.config.unit_membership_period <= u64::MAX,
    ensures
        ({
            let t = add_members_effect(s, Origin::Signed(owner), member, club_id, years, now, paid).0;
            let expires = (now + years * s.config.unit_membership_period) as u64;
            let before = if s.expired_on.contains_key(expires) { s.expired_on[expires] } else { Seq::<Entry>::empty() };
            &&& !s.membership.contains_key((member, club_id))
            &&& membership_of(t, (member, club_id)) == Ok::<MemberShipData<u64>, Error>(
                MemberShipData { expired_on: expires, membership_period_in_years: years },
            )
            &&& t.clubs[(owner, club_id)].members == s.clubs[(owner, club_id)].members.push(member)
            &&& t.clubs[(owner, club_id)].annual_expences == s.clubs[(owner, club_id)].annual_expences
            &&& expiring_at(t, expires) == Ok::<Seq<Entry>, Error>(before.push((member, club_id, owner)))
        }),
{
}

/// Law: a member who updates the period of its membership finds it set, and the
/// membership expires when it did before.
pub proof fn law_update_sets_the_period(s: PalletState, member: u64, club_id: u64, years: u32)
    requires
        update_membership_period_effect(s, Origin::Signed(member), club_id, years).1 is Ok,
    ensures
        ({
            let t = update_membership_period_effect(s, Origin::Signed(member), club_id, years).0;
            membership_of(t, (member, club_id)) == Ok::<MemberShipData<u64>, Error>(
                MemberShipData { expired_on: s.membership[(member, club_id)].expired_on, membership_period_in_years: years },
            )
        }),
{
}

/// Law: a club that changed hands is, as it was, the new owner's, and no longer the old
/// owner's (unless the owner handed it to itself).
pub proof fn law_transfer_moves_the_club(s: PalletState, owner: u64, new_owner: u64, fees: u128, club_id: u64, paid: Paid)
    requires
        transfer_ownership_effect(s, Origin::Signed(owner), new_owner, fees, club_id, paid).1 is Ok,
    ensures
        ({
            let t = transfer_ownership_effect(s, Origin::Signed(owner), new_owner, fees, club_id, paid).0;
            &&& club_of(t, new_owner, club_id) == Ok::<Club<u128, Seq<u64>, u64>, Error>(s.clubs[(owner, club_id)])
            &&& new_owner != owner ==> club_of(t, owner, club_id) == Err::<Club<u128, Seq<u64>, u64>, Error>(
                Error::ClubDoesNotExistORWrongOwner,
            )
        }),
{
}

/// Law: a paid renewal of an existing membership makes it expire `years` membership
/// years after `now`, keeps its period, and schedules its entry last at that block.
pub proof fn law_paid_renewal_extends(s: PalletState, entry: Entry, years: u32, now: u64, paid: Paid)
    requires
        paid is Ok,
        s.membership.contains_key((entry.0, entry.1)),
        now + years * s.config.unit_membership_period <= u64::MAX,
    ensures
        ({
            let t = renewal_effect(s, entry, years, now, paid);
            let expires = (now + years * s.config.unit_membership_period) as u64;
            let before = if s.expired_on.contains_key(expires) { s.expired_on[expires] } else { Seq::<Entry>::empty() };
            &&& membership_of(t, (entry.0, entry.1)) == Ok::<MemberShipData<u64>, Error>(
                MemberShipData {
                    expired_on: expires,
                    membership_period_in_years: s.membership[(entry.0, entry.1)].membership_period_in_years,
                },
            )
            &&& expiring_at(t, expires) == Ok::<Seq<Entry>, Error>(before.push(entry))
            &&& t.clubs == s.clubs
        }),
{
}

} // verus!
