//! What holds of the pallet across its calls, proved over the effects that the calls'
//! contracts state.

use vstd::prelude::*;

use crate::calls::{
    add_members_check, add_members_effect, cancel_membership_effect, retag_member, retag_members,
    club_of, create_club_check, create_club_effect, expiration, expiring_at, membership_of,
    period_allowed, period_blocks, set_the_annual_expences_effect, transfer_ownership_effect,
    unlist, update_membership_period_effect,
};
use crate::dispatch::{CallError, Error, Origin, Payment};
use crate::expiry::{expiry_from, membership_expired_effect, renewal_effect};
use crate::pallet::{fee_collector, new_club, schedule, Config, Paid, PalletState};
use crate::search::{retag, Entry};
use crate::types::MemberShipData;

verus! {

/// The state of the pallet at genesis.
pub open spec fn genesis(config: Config) -> PalletState {
    PalletState {
        config,
        next_club_id: 0,
        clubs: Map::empty(),
        expired_on: Map::empty(),
        membership: Map::empty(),
        events: Seq::empty(),
    }
}

/// What every reachable state of the pallet satisfies:
/// - club ids are handed out in order: every club and every membership has an id between
///   1 and the last id handed out;
/// - a club id has one owner;
/// - an account is listed among the members of a club exactly while it holds a
///   membership of that club, and is listed once.
pub open spec fn well_formed(s: PalletState) -> bool {
    &&& forall|k: (u64, u64)| #[trigger] s.clubs.contains_key(k) ==> 1 <= k.1 <= s.next_club_id
    &&& forall|k1: (u64, u64), k2: (u64, u64)|
        #![trigger s.clubs.contains_key(k1), s.clubs.contains_key(k2)]
        s.clubs.contains_key(k1) && s.clubs.contains_key(k2) && k1.1 == k2.1 ==> k1.0 == k2.0
    &&& forall|k: (u64, u64)| #[trigger] s.clubs.contains_key(k) ==> s.clubs[k].members.no_duplicates()
    &&& forall|k: (u64, u64), m: u64|
        #![trigger s.clubs[k].members.contains(m)]
        #![trigger s.clubs.contains_key(k), s.membership.contains_key((m, k.1))]
        s.clubs.contains_key(k) ==> (s.clubs[k].members.contains(m) <==> s.membership.contains_key((m, k.1)))
    &&& forall|k: (u64, u64)| #[trigger] s.membership.contains_key(k) ==> 1 <= k.1 <= s.next_club_id
}

/// Removing the one occurrence of `x` from a list without duplicates leaves a list without
/// duplicates that holds every other element and not `x`.
proof fn lemma_remove_unique(s: Seq<u64>, i: int, x: u64)
    requires
        s.no_duplicates(),
        0 <= i < s.len(),
        s[i] == x,
    ensures
        s.remove(i).no_duplicates(),
        !s.remove(i).contains(x),
        forall|y: u64| y != x ==> (#[trigger] s.remove(i).contains(y) <==> s.contains(y)),
{
    let r = s.remove(i);
    assert forall|a: int, b: int| 0 <= a < r.len() && 0 <= b < r.len() && a != b implies r[a] != r[b] by {
        let a2 = if a < i { a } else { a + 1 };
        let b2 = if b < i { b } else { b + 1 };
        assert(r[a] == s[a2] && r[b] == s[b2]);
    }
    if r.contains(x) {
        let a = choose|a: int| 0 <= a < r.len() && r[a] == x;
        let a2 = if a < i { a } else { a + 1 };
        assert(s[a2] == x);
    }
    assert forall|y: u64| y != x implies (#[trigger] r.contains(y) <==> s.contains(y)) by {
        if s.contains(y) {
            let a = choose|a: int| 0 <= a < s.len() && s[a] == y;
            assert(a != i);
            let a2 = if a < i { a } else { a - 1 };
            assert(r[a2] == y);
        }
        if r.contains(y) {
            let a = choose|a: int| 0 <= a < r.len() && r[a] == y;
            let a2 = if a < i { a } else { a + 1 };
            assert(s[a2] == y);
        }
    }
}

/// Adding an element that is not there keeps a list without duplicates.
proof fn lemma_push_new(s: Seq<u64>, x: u64)
    requires
        s.no_duplicates(),
        !s.contains(x),
    ensures
        s.push(x).no_duplicates(),
        forall|y: u64| #[trigger] s.push(x).contains(y) <==> (s.contains(y) || y == x),
{
    let r = s.push(x);
    assert forall|a: int, b: int| 0 <= a < r.len() && 0 <= b < r.len() && a != b implies r[a] != r[b] by {
        if a == s.len() {
            assert(!s.contains(r[b]) || r[b] != x);
        } else if b == s.len() {
            assert(s[a] == r[a]);
        }
    }
    assert forall|y: u64| #[trigger] r.contains(y) <==> (s.contains(y) || y == x) by {
        if r.contains(y) && y != x {
            let a = choose|a: int| 0 <= a < r.len() && r[a] == y;
            assert(s[a] == y);
        }
        if s.contains(y) {
            let a = choose|a: int| 0 <= a < s.len() && s[a] == y;
            assert(r[a] == y);
        }
        if y == x {
            assert(r[s.len() as int] == x);
        }
    }
}

/// Well-formedness depends only on the ids, the clubs' members and which memberships
/// exist.
proof fn lemma_wf_frame(s: PalletState, t: PalletState)
    requires
        well_formed(s),
        t.next_club_id == s.next_club_id,
        t.clubs.dom() == s.clubs.dom(),
        forall|k: (u64, u64)| #[trigger] t.clubs.contains_key(k) ==> t.clubs[k].members == s.clubs[k].members,
        t.membership.dom() == s.membership.dom(),
    ensures
        well_formed(t),
{
    assert forall|k: (u64, u64), m: u64|
        #![trigger t.clubs[k].members.contains(m)]
        t.clubs.contains_key(k) implies (t.clubs[k].members.contains(m) <==> t.membership.contains_key((m, k.1))) by {
        assert(s.clubs.contains_key(k));
        assert(t.membership.contains_key((m, k.1)) == s.membership.contains_key((m, k.1)));
    }
    assert forall|k1: (u64, u64), k2: (u64, u64)|
        t.clubs.contains_key(k1) && t.clubs.contains_key(k2) && k1.1 == k2.1 implies k1.0 == k2.0 by {
        assert(s.clubs.contains_key(k1) && s.clubs.contains_key(k2));
    }
    assert forall|k: (u64, u64)| #[trigger] t.clubs.contains_key(k) implies t.clubs[k].members.no_duplicates() by {
        assert(s.clubs.contains_key(k));
    }
    assert forall|k: (u64, u64)| #[trigger] t.clubs.contains_key(k) implies 1 <= k.1 <= t.next_club_id by {
        assert(s.clubs.contains_key(k));
    }
    assert forall|k: (u64, u64)| #[trigger] t.membership.contains_key(k) implies 1 <= k.1 <= t.next_club_id by {
        assert(s.membership.contains_key(k));
    }
}

/// Law: the pallet starts well formed.
pub proof fn law_genesis_well_formed(config: Config)
    ensures
        well_formed(genesis(config)),
{
}

/// Law: a new club never collides with an existing one: on a well-formed state, root's
/// `create_club` passes its checks (so `ClubAlreadyExists` is never returned) and asks the
/// owner for the creation fee, paid to the fee collector.
pub proof fn law_new_club_ids_are_fresh(s: PalletState, owner: u64)
    requires
        well_formed(s),
        s.next_club_id < u64::MAX,
    ensures
        create_club_check(s, Origin::Root, owner) == Ok::<Payment, CallError>(
            Payment { from: owner, to: fee_collector(s), amount: s.config.fees_to_create_club },
        ),
{
    if s.clubs.contains_key((owner, (s.next_club_id + 1) as u64)) {
        assert(1 <= (s.next_club_id + 1) as u64 <= s.next_club_id);
    }
}

/// Law: `create_club` keeps the state well formed, whatever the currency answers; when it
/// succeeds the new club has the next id, no members and the given expences.
pub proof fn law_create_club(s: PalletState, origin: Origin, owner: u64, annual_expences: u128, now: u64, paid: Paid)
    requires
        well_formed(s),
        origin == Origin::Root ==> s.next_club_id < u64::MAX,
    ensures
        well_formed(create_club_effect(s, origin, owner, annual_expences, now, paid).0),
        create_club_effect(s, origin, owner, annual_expences, now, paid).1 is Ok ==> {
            let t = create_club_effect(s, origin, owner, annual_expences, now, paid).0;
            &&& t.next_club_id == s.next_club_id + 1
            &&& club_of(t, owner, t.next_club_id) == Ok::<_, Error>(new_club(annual_expences, now))
        },
{
    let (t, r) = create_club_effect(s, origin, owner, annual_expences, now, paid);
    if r is Ok {
        let id = (s.next_club_id + 1) as u64;
        assert forall|k: (u64, u64), m: u64|
            #![trigger t.clubs[k].members.contains(m)]
            t.clubs.contains_key(k) implies (t.clubs[k].members.contains(m) <==> t.membership.contains_key((m, k.1))) by {
            if k == (owner, id) {
                if t.membership.contains_key((m, k.1)) {
                    assert(s.membership.contains_key((m, id)));
                }
            } else {
                assert(s.clubs.contains_key(k));
            }
        }
        assert forall|k1: (u64, u64), k2: (u64, u64)|
            t.clubs.contains_key(k1) && t.clubs.contains_key(k2) && k1.1 == k2.1 implies k1.0 == k2.0 by {
            if k1 != (owner, id) && k2 != (owner, id) {
                assert(s.clubs.contains_key(k1) && s.clubs.contains_key(k2));
            } else if k1 != (owner, id) {
                assert(s.clubs.contains_key(k1));
            } else if k2 != (owner, id) {
                assert(s.clubs.contains_key(k2));
            }
        }
        assert(new_club(annual_expences, now).members.no_duplicates());
    }
}

/// Law: `set_the_annual_expences` keeps the state well formed; when it succeeds, reading
/// the club gives back the new expences, and nothing else of the club changed.
pub proof fn law_set_the_annual_expences(s: PalletState, origin: Origin, new_annual_expence: u128, club_id: u64)
    requires
        well_formed(s),
    ensures
        well_formed(set_the_annual_expences_effect(s, origin, new_annual_expence, club_id).0),
        set_the_annual_expences_effect(s, origin, new_annual_expence, club_id).1 is Ok ==> {
            let t = set_the_annual_expences_effect(s, origin, new_annual_expence, club_id).0;
            let owner = origin->Signed_0;
            &&& club_of(t, owner, club_id) is Ok
            &&& club_of(t, owner, club_id)->Ok_0.annual_expences == new_annual_expence
            &&& club_of(t, owner, club_id)->Ok_0.members == s.clubs[(owner, club_id)].members
            &&& club_of(t, owner, club_id)->Ok_0.created == s.clubs[(owner, club_id)].created
        },
{
    let t = set_the_annual_expences_effect(s, origin, new_annual_expence, club_id).0;
    assert(t.clubs.dom() =~= s.clubs.dom());
    lemma_wf_frame(s, t);
}


/// Law: `transfer_ownership` keeps the state well formed, whatever the currency answers;
/// when it succeeds the club, unchanged, is read under the new owner and no longer under
/// the old one.
pub proof fn law_transfer_ownership(s: PalletState, origin: Origin, new_owner: u64, fees: u128, club_id: u64, paid: Paid)
    requires
        well_formed(s),
    ensures
        well_formed(transfer_ownership_effect(s, origin, new_owner, fees, club_id, paid).0),
        transfer_ownership_effect(s, origin, new_owner, fees, club_id, paid).1 is Ok ==> {
            let t = transfer_ownership_effect(s, origin, new_owner, fees, club_id, paid).0;
            let old_owner = origin->Signed_0;
            &&& club_of(t, new_owner, club_id) == club_of(s, old_owner, club_id)
            &&& club_of(s, old_owner, club_id) is Ok
            &&& new_owner != old_owner ==> club_of(t, old_owner, club_id) is Err
        },
{
    let (t, r) = transfer_ownership_effect(s, origin, new_owner, fees, club_id, paid);
    if r is Ok {
        let old_owner = origin->Signed_0;
        assert forall|k: (u64, u64)| #[trigger] t.clubs.contains_key(k) implies s.clubs.contains_key(
            if k == (new_owner, club_id) { (old_owner, club_id) } else { k },
        ) && t.clubs[k] == s.clubs[if k == (new_owner, club_id) { (old_owner, club_id) } else { k }] by {}
        assert forall|k: (u64, u64), m: u64|
            #![trigger t.clubs[k].members.contains(m)]
            t.clubs.contains_key(k) implies (t.clubs[k].members.contains(m) <==> t.membership.contains_key((m, k.1))) by {
            if k == (new_owner, club_id) {
                assert(s.clubs.contains_key((old_owner, club_id)));
            } else {
                assert(s.clubs.contains_key(k));
            }
        }
        assert forall|k1: (u64, u64), k2: (u64, u64)|
            t.clubs.contains_key(k1) && t.clubs.contains_key(k2) && k1.1 == k2.1 implies k1.0 == k2.0 by {
            let j1 = if k1 == (new_owner, club_id) { (old_owner, club_id) } else { k1 };
            let j2 = if k2 == (new_owner, club_id) { (old_owner, club_id) } else { k2 };
            assert(s.clubs.contains_key(j1) && s.clubs.contains_key(j2));
        }
        assert forall|k: (u64, u64)| #[trigger] t.clubs.contains_key(k) implies 1 <= k.1 <= t.next_club_id by {
            if k == (new_owner, club_id) {
                assert(s.clubs.contains_key((old_owner, club_id)));
            } else {
                assert(s.clubs.contains_key(k));
            }
        }
        assert forall|k: (u64, u64)| #[trigger] t.clubs.contains_key(k) implies t.clubs[k].members.no_duplicates() by {
            if k == (new_owner, club_id) {
                assert(s.clubs.contains_key((old_owner, club_id)));
            } else {
                assert(s.clubs.contains_key(k));
            }
        }
    }
}

/// Law (a membership lasts at least one year and at most the maximum): `add_members`
/// refuses a period outside these bounds, and asks the member, when it accepts, for the
/// annual expences of the club for each year, paid to the owner.
pub proof fn law_membership_period_bounded(s: PalletState, origin: Origin, member: u64, club_id: u64, years: u32)
    ensures
        add_members_check(s, origin, member, club_id, years) is Ok ==> {
            let owner = origin->Signed_0;
            &&& s.config.unit_membership_period <= period_blocks(s, years) <= s.config.max_membership_period
            &&& add_members_check(s, origin, member, club_id, years)->Ok_0 == (Payment {
                from: member,
                to: owner,
                amount: (s.clubs[(owner, club_id)].annual_expences * years) as u128,
            })
        },
        origin is Signed && s.clubs.contains_key((origin->Signed_0, club_id)) && !s.membership.contains_key((member, club_id))
            && !period_allowed(s, years) ==> add_members_check(s, origin, member, club_id, years)
            == Err::<Payment, CallError>(CallError::Module(Error::MemeberShipPeriodExceeds)),
{
}

/// Law (a membership lasts at least one year and at most the maximum): a changed period
/// is held to the same bounds as a new one.
pub proof fn law_updated_period_bounded(s: PalletState, origin: Origin, club_id: u64, years: u32)
    ensures
        update_membership_period_effect(s, origin, club_id, years).1 is Ok ==> period_allowed(s, years),
        origin is Signed && s.membership.contains_key((origin->Signed_0, club_id)) && !period_allowed(s, years)
            ==> update_membership_period_effect(s, origin, club_id, years) == (s, Err::<(), CallError>(
            CallError::Module(Error::MemeberShipPeriodExceeds),
        )),
{
}

/// Law: `add_members` keeps the state well formed, whatever the currency answers; when it
/// succeeds the membership reads back with its expiry `years` years after `now`, it is
/// scheduled at that block, and the member is listed last.
pub proof fn law_add_members(s: PalletState, origin: Origin, member: u64, club_id: u64, years: u32, now: u64, paid: Paid)
    requires
        well_formed(s),
    ensures
        well_formed(add_members_effect(s, origin, member, club_id, years, now, paid).0),
        add_members_effect(s, origin, member, club_id, years, now, paid).1 is Ok ==> {
            let t = add_members_effect(s, origin, member, club_id, years, now, paid).0;
            let owner = origin->Signed_0;
            let expires = expiration(s, years, now);
            &&& membership_of(t, (member, club_id)) == Ok::<_, Error>(
                MemberShipData { expired_on: expires, membership_period_in_years: years },
            )
            &&& expiring_at(t, expires) is Ok
            &&& expiring_at(t, expires)->Ok_0.contains((member, club_id, owner))
            &&& club_of(t, owner, club_id) is Ok
            &&& club_of(t, owner, club_id)->Ok_0.members == s.clubs[(owner, club_id)].members.push(member)
        },
{
    let (t, r) = add_members_effect(s, origin, member, club_id, years, now, paid);
    if r is Ok {
        let owner = origin->Signed_0;
        let members = s.clubs[(owner, club_id)].members;
        assert(!members.contains(member));
        lemma_push_new(members, member);
        lemma_schedule_adds(s.expired_on, expiration(s, years, now), (member, club_id, owner));
        assert forall|k: (u64, u64), m: u64|
            #![trigger t.clubs[k].members.contains(m)]
            t.clubs.contains_key(k) implies (t.clubs[k].members.contains(m) <==> t.membership.contains_key((m, k.1))) by {
            assert(s.clubs.contains_key(k));
            if k.1 == club_id {
                assert(k.0 == owner);
            }
        }
        assert forall|k1: (u64, u64), k2: (u64, u64)|
            t.clubs.contains_key(k1) && t.clubs.contains_key(k2) && k1.1 == k2.1 implies k1.0 == k2.0 by {
            assert(s.clubs.contains_key(k1) && s.clubs.contains_key(k2));
        }
        assert forall|k: (u64, u64)| #[trigger] t.clubs.contains_key(k) implies t.clubs[k].members.no_duplicates() by {
            assert(s.clubs.contains_key(k));
        }
        assert forall|k: (u64, u64)| #[trigger] t.membership.contains_key(k) implies 1 <= k.1 <= t.next_club_id by {
            if k != (member, club_id) {
                assert(s.membership.contains_key(k));
            } else {
                assert(s.clubs.contains_key((owner, club_id)));
            }
        }
    }
}

/// Law: `update_membership_period` keeps the state well formed; when it succeeds the
/// membership reads back with the new period and the same expiry.
pub proof fn law_update_membership_period(s: PalletState, origin: Origin, club_id: u64, years: u32)
    requires
        well_formed(s),
    ensures
        well_formed(update_membership_period_effect(s, origin, club_id, years).0),
        update_membership_period_effect(s, origin, club_id, years).1 is Ok ==> {
            let t = update_membership_period_effect(s, origin, club_id, years).0;
            let member = origin->Signed_0;
            membership_of(t, (member, club_id)) == Ok::<_, Error>(
                MemberShipData {
                    expired_on: s.membership[(member, club_id)].expired_on,
                    membership_period_in_years: years,
                },
            )
        },
{
    let t = update_membership_period_effect(s, origin, club_id, years).0;
    assert(t.membership.dom() =~= s.membership.dom());
    lemma_wf_frame(s, t);
}

/// Law: `cancel_membership` keeps the state well formed; when it
/// succeeds the membership is gone and the member is no longer listed in the club.
pub proof fn law_cancel_membership(s: PalletState, origin: Origin, member: u64, club_id: u64)
    requires
        well_formed(s),
    ensures
        well_formed(cancel_membership_effect(s, origin, member, club_id).0),
        cancel_membership_effect(s, origin, member, club_id).1 is Ok ==> {
            let t = cancel_membership_effect(s, origin, member, club_id).0;
            let owner = origin->Signed_0;
            &&& membership_of(t, (member, club_id)) == Err::<MemberShipData<u64>, Error>(Error::MemberShipDoesNotExist)
            &&& club_of(t, owner, club_id) is Ok
            &&& !club_of(t, owner, club_id)->Ok_0.members.contains(member)
        },
{
    let (t, r) = cancel_membership_effect(s, origin, member, club_id);
    if r is Ok {
        let owner = origin->Signed_0;
        let club = s.clubs[(owner, club_id)];
        assert(club.members.contains(member));
        club.members.index_of_first_ensures(member);
        let i = club.members.index_of_first(member)->0;
        lemma_remove_unique(club.members, i, member);
        assert(unlist(club, member).members == club.members.remove(i));
        assert forall|k: (u64, u64), m: u64|
            #![trigger t.clubs[k].members.contains(m)]
            t.clubs.contains_key(k) implies (t.clubs[k].members.contains(m) <==> t.membership.contains_key((m, k.1))) by {
            assert(s.clubs.contains_key(k));
            if k.1 == club_id {
                assert(k.0 == owner);
                if m != member {
                    assert(club.members.remove(i).contains(m) == club.members.contains(m));
                }
            }
        }
        assert forall|k1: (u64, u64), k2: (u64, u64)|
            t.clubs.contains_key(k1) && t.clubs.contains_key(k2) && k1.1 == k2.1 implies k1.0 == k2.0 by {
            assert(s.clubs.contains_key(k1) && s.clubs.contains_key(k2));
        }
        assert forall|k: (u64, u64)| #[trigger] t.clubs.contains_key(k) implies t.clubs[k].members.no_duplicates() by {
            assert(s.clubs.contains_key(k));
        }
        assert forall|k: (u64, u64)| #[trigger] t.membership.contains_key(k) implies 1 <= k.1 <= t.next_club_id by {
            assert(s.membership.contains_key(k));
        }
        assert forall|k: (u64, u64)| #[trigger] t.clubs.contains_key(k) implies 1 <= k.1 <= t.next_club_id by {
            assert(s.clubs.contains_key(k));
        }
    }
}


/// A run through the expiry schedule keeps the clubs, the ids and which memberships
/// exist; it changes only when memberships expire, the schedule and the events.
proof fn lemma_expiry_keeps_shape(s: PalletState, entries: Seq<Entry>, i: int, n: u64, now: u64, paid: Seq<Paid>)
    ensures
        expiry_from(s, entries, i, n, now, paid).0.clubs == s.clubs,
        expiry_from(s, entries, i, n, now, paid).0.next_club_id == s.next_club_id,
        expiry_from(s, entries, i, n, now, paid).0.membership.dom() == s.membership.dom(),
    decreases entries.len() - i,
{
    if i < entries.len() {
        let entry = entries[i];
        let key = (entry.0, entry.1);
        if s.membership.contains_key(key) && s.membership[key].expired_on == n {
            let t = renewal_effect(s, entry, s.membership[key].membership_period_in_years, now, paid[i]);
            assert(t.membership.dom() =~= s.membership.dom());
            lemma_expiry_keeps_shape(t, entries, i + 1, n, now, paid);
        } else {
            lemma_expiry_keeps_shape(s, entries, i + 1, n, now, paid);
        }
    }
}

/// Law: `membership_expired` keeps the state well formed, whatever the currency answers.
pub proof fn law_membership_expired(s: PalletState, n: u64, now: u64, paid: Seq<Paid>)
    requires
        well_formed(s),
    ensures
        well_formed(membership_expired_effect(s, n, now, paid).0),
{
    if s.expired_on.contains_key(n) {
        let s1 = PalletState { expired_on: s.expired_on.remove(n), ..s };
        lemma_expiry_keeps_shape(s1, s.expired_on[n], 0, n, now, paid);
        let t = membership_expired_effect(s, n, now, paid).0;
        lemma_wf_frame(s, t);
    }
}

/// Law: a refused call changes nothing (calls are transactional). This holds of every
/// call but the expiry run, which is not transactional.
pub proof fn law_refused_calls_change_nothing(
    s: PalletState,
    origin: Origin,
    owner: u64,
    member: u64,
    club_id: u64,
    amount: u128,
    years: u32,
    now: u64,
    paid: Paid,
)
    ensures
        create_club_effect(s, origin, owner, amount, now, paid).1 is Err
            ==> create_club_effect(s, origin, owner, amount, now, paid).0 == s,
        set_the_annual_expences_effect(s, origin, amount, club_id).1 is Err
            ==> set_the_annual_expences_effect(s, origin, amount, club_id).0 == s,
        transfer_ownership_effect(s, origin, owner, amount, club_id, paid).1 is Err
            ==> transfer_ownership_effect(s, origin, owner, amount, club_id, paid).0 == s,
        add_members_effect(s, origin, member, club_id, years, now, paid).1 is Err
            ==> add_members_effect(s, origin, member, club_id, years, now, paid).0 == s,
        update_membership_period_effect(s, origin, club_id, years).1 is Err
            ==> update_membership_period_effect(s, origin, club_id, years).0 == s,
        cancel_membership_effect(s, origin, member, club_id).1 is Err
            ==> cancel_membership_effect(s, origin, member, club_id).0 == s,
{
}

/// Law: only root creates clubs, and only a signed account does anything else: any other
/// origin is refused with `BadOrigin`.
pub proof fn law_origins(
    s: PalletState,
    origin: Origin,
    owner: u64,
    member: u64,
    club_id: u64,
    amount: u128,
    years: u32,
    now: u64,
    paid: Paid,
)
    ensures
        origin != Origin::Root ==> create_club_effect(s, origin, owner, amount, now, paid).1
            == Err::<(), CallError>(CallError::BadOrigin),
        !(origin is Signed) ==> {
            &&& set_the_annual_expences_effect(s, origin, amount, club_id).1 == Err::<(), CallError>(CallError::BadOrigin)
            &&& transfer_ownership_effect(s, origin, owner, amount, club_id, paid).1 == Err::<(), CallError>(CallError::BadOrigin)
            &&& add_members_effect(s, origin, member, club_id, years, now, paid).1 == Err::<(), CallError>(CallError::BadOrigin)
            &&& update_membership_period_effect(s, origin, club_id, years).1 == Err::<(), CallError>(CallError::BadOrigin)
            &&& cancel_membership_effect(s, origin, member, club_id).1 == Err::<(), CallError>(CallError::BadOrigin)
        },
{
}


/// `entry` is in the expiry schedule at `block`.
pub open spec fn scheduled_at(expired_on: Map<u64, Seq<Entry>>, block: u64, entry: Entry) -> bool {
    expired_on.contains_key(block) && expired_on[block].contains(entry)
}

/// Every membership of a club is in the expiry schedule at the block at which it
/// expires, under the club's owner: so it comes up for renewal then.
pub open spec fn scheduled(s: PalletState) -> bool {
    forall|k: (u64, u64), m: u64|
        #![trigger s.clubs.contains_key(k), s.membership.contains_key((m, k.1))]
        s.clubs.contains_key(k) && s.membership.contains_key((m, k.1)) ==> scheduled_at(
            s.expired_on,
            s.membership[(m, k.1)].expired_on,
            (m, k.1, k.0),
        )
}

/// A club id has one owner.
pub open spec fn one_owner(clubs: Map<(u64, u64), crate::pallet::ClubView>) -> bool {
    forall|k1: (u64, u64), k2: (u64, u64)|
        #![trigger clubs.contains_key(k1), clubs.contains_key(k2)]
        clubs.contains_key(k1) && clubs.contains_key(k2) && k1.1 == k2.1 ==> k1.0 == k2.0
}

/// `entry` occurs in `entries` at index `i` or later.
pub open spec fn in_rest(entries: Seq<Entry>, i: int, entry: Entry) -> bool {
    exists|j: int| i <= j < entries.len() && entries[j] == entry
}

/// During a run through `entries`, before index `i`: every membership of a club is either
/// still due at `n` and ahead in the run, or in the schedule at the block it expires.
pub open spec fn run_scheduled(s: PalletState, entries: Seq<Entry>, i: int, n: u64) -> bool {
    forall|k: (u64, u64), m: u64|
        #![trigger s.clubs.contains_key(k), s.membership.contains_key((m, k.1))]
        s.clubs.contains_key(k) && s.membership.contains_key((m, k.1)) ==> {
            ||| s.membership[(m, k.1)].expired_on == n && in_rest(entries, i, (m, k.1, k.0))
            ||| scheduled_at(s.expired_on, s.membership[(m, k.1)].expired_on, (m, k.1, k.0))
        }
}

/// Every entry of `entries` from index `i` on whose membership exists names the club's
/// owner.
pub open spec fn entries_current(s: PalletState, entries: Seq<Entry>, i: int) -> bool {
    forall|j: int|
        #![trigger entries[j]]
        i <= j < entries.len() && s.membership.contains_key((entries[j].0, entries[j].1))
            ==> s.clubs.contains_key((entries[j].2, entries[j].1))
}

/// Appending to the schedule keeps what was scheduled.
proof fn lemma_schedule_keeps(expired_on: Map<u64, Seq<Entry>>, block: u64, entry: Entry, at: u64, other: Entry)
    requires
        scheduled_at(expired_on, at, other),
    ensures
        scheduled_at(schedule(expired_on, block, entry), at, other),
{
    let t = schedule(expired_on, block, entry);
    if at == block {
        let j = choose|j: int| 0 <= j < expired_on[at].len() && expired_on[at][j] == other;
        assert(t[at][j] == other);
    }
}

/// Appending to the schedule schedules the entry.
proof fn lemma_schedule_adds(expired_on: Map<u64, Seq<Entry>>, block: u64, entry: Entry)
    ensures
        scheduled_at(schedule(expired_on, block, entry), block, entry),
{
    let t = schedule(expired_on, block, entry);
    if expired_on.contains_key(block) {
        assert(t[block][t[block].len() - 1] == entry);
    } else {
        assert(t[block][0] == entry);
    }
}

proof fn lemma_run_keeps_scheduled(s: PalletState, entries: Seq<Entry>, i: int, n: u64, now: u64, paid: Seq<Paid>)
    requires
        0 <= i <= entries.len(),
        one_owner(s.clubs),
        run_scheduled(s, entries, i, n),
        entries_current(s, entries, i),
        forall|j: int| i <= j < entries.len() ==> (#[trigger] paid[j]) is Ok,
    ensures
        scheduled(expiry_from(s, entries, i, n, now, paid).0),
    decreases entries.len() - i,
{
    if i == entries.len() {
        assert forall|k: (u64, u64), m: u64|
            #![trigger s.clubs.contains_key(k), s.membership.contains_key((m, k.1))]
            s.clubs.contains_key(k) && s.membership.contains_key((m, k.1)) implies scheduled_at(
                s.expired_on,
                s.membership[(m, k.1)].expired_on,
                (m, k.1, k.0),
            ) by {
            if in_rest(entries, i, (m, k.1, k.0)) {
                let j = choose|j: int| i <= j < entries.len() && entries[j] == (m, k.1, k.0);
            }
        }
    } else {
        let entry = entries[i];
        let key = (entry.0, entry.1);
        let present = s.membership.contains_key(key);
        let due = present && s.membership[key].expired_on == n;
        let years = s.membership[key].membership_period_in_years;
        let t = if due { renewal_effect(s, entry, years, now, paid[i]) } else { s };
        assert(paid[i] is Ok);
        assert(t.membership.dom() =~= s.membership.dom());
        assert(t.clubs == s.clubs);
        assert forall|k: (u64, u64), m: u64|
            #![trigger t.clubs.contains_key(k), t.membership.contains_key((m, k.1))]
            t.clubs.contains_key(k) && t.membership.contains_key((m, k.1)) implies {
                ||| t.membership[(m, k.1)].expired_on == n && in_rest(entries, i + 1, (m, k.1, k.0))
                ||| scheduled_at(t.expired_on, t.membership[(m, k.1)].expired_on, (m, k.1, k.0))
            } by {
            assert(s.clubs.contains_key(k) && s.membership.contains_key((m, k.1)));
            let e = (m, k.1, k.0);
            if (m, k.1) == key {
                assert(s.clubs.contains_key((entry.2, entry.1)));
                assert(k.0 == entry.2);
                assert(e == entry);
                if due {
                    let expires = expiration(s, years, now);
                    lemma_schedule_adds(s.expired_on, expires, entry);
                    assert(t.membership[key].expired_on == expires);
                }
            } else {
                assert(t.membership[(m, k.1)] == s.membership[(m, k.1)]);
                if s.membership[(m, k.1)].expired_on == n && in_rest(entries, i, e) {
                    let j = choose|j: int| i <= j < entries.len() && entries[j] == e;
                    assert(j != i);
                    assert(in_rest(entries, i + 1, e));
                } else if due {
                    let expires = expiration(s, years, now);
                    lemma_schedule_keeps(s.expired_on, expires, entry, s.membership[(m, k.1)].expired_on, e);
                }
            }
        }
        assert forall|j: int| #![trigger entries[j]] i + 1 <= j < entries.len() && t.membership.contains_key(
            (entries[j].0, entries[j].1),
        ) implies t.clubs.contains_key((entries[j].2, entries[j].1)) by {
            assert(s.membership.contains_key((entries[j].0, entries[j].1)));
        }
        lemma_run_keeps_scheduled(t, entries, i + 1, n, now, paid);
    }
}

/// A run through the expiry schedule always succeeds.
proof fn lemma_run_succeeds(s: PalletState, entries: Seq<Entry>, i: int, n: u64, now: u64, paid: Seq<Paid>)
    ensures
        expiry_from(s, entries, i, n, now, paid).1 is Ok,
    decreases entries.len() - i,
{
    if i < entries.len() {
        let entry = entries[i];
        let key = (entry.0, entry.1);
        if s.membership.contains_key(key) && s.membership[key].expired_on == n {
            let t = renewal_effect(s, entry, s.membership[key].membership_period_in_years, now, paid[i]);
            lemma_run_succeeds(t, entries, i + 1, n, now, paid);
        } else {
            lemma_run_succeeds(s, entries, i + 1, n, now, paid);
        }
    }
}

/// Law: every membership stays scheduled for renewal: genesis is scheduled, and the calls
/// keep it so. Left out: an expiry run in which a renewal is refused by the currency (the
/// membership keeps expiring at a block whose schedule was consumed), or in which an entry
/// of an existing membership names someone other than the club's owner.
pub proof fn law_genesis_scheduled(config: Config)
    ensures
        scheduled(genesis(config)),
{
}

/// `scheduled` depends only on which clubs exist, the memberships and the schedule.
proof fn lemma_scheduled_frame(s: PalletState, t: PalletState)
    requires
        scheduled(s),
        t.clubs.dom() == s.clubs.dom(),
        t.membership.dom() == s.membership.dom(),
        forall|k: (u64, u64)| #[trigger] t.membership.contains_key(k) ==> t.membership[k].expired_on == s.membership[k].expired_on,
        t.expired_on == s.expired_on,
    ensures
        scheduled(t),
{
    assert forall|k: (u64, u64), m: u64|
        #![trigger t.clubs.contains_key(k), t.membership.contains_key((m, k.1))]
        t.clubs.contains_key(k) && t.membership.contains_key((m, k.1)) implies scheduled_at(
            t.expired_on,
            t.membership[(m, k.1)].expired_on,
            (m, k.1, k.0),
        ) by {
        assert(s.clubs.contains_key(k) && s.membership.contains_key((m, k.1)));
    }
}

/// Law: `create_club`, `set_the_annual_expences` and `update_membership_period` keep every
/// membership scheduled.
pub proof fn law_simple_calls_keep_schedule(
    s: PalletState,
    origin: Origin,
    owner: u64,
    club_id: u64,
    amount: u128,
    years: u32,
    now: u64,
    paid: Paid,
)
    requires
        well_formed(s),
        scheduled(s),
        origin == Origin::Root ==> s.next_club_id < u64::MAX,
    ensures
        scheduled(create_club_effect(s, origin, owner, amount, now, paid).0),
        scheduled(set_the_annual_expences_effect(s, origin, amount, club_id).0),
        scheduled(update_membership_period_effect(s, origin, club_id, years).0),
{
    let t = create_club_effect(s, origin, owner, amount, now, paid).0;
    assert forall|k: (u64, u64), m: u64|
        #![trigger t.clubs.contains_key(k), t.membership.contains_key((m, k.1))]
        t.clubs.contains_key(k) && t.membership.contains_key((m, k.1)) implies scheduled_at(
            t.expired_on,
            t.membership[(m, k.1)].expired_on,
            (m, k.1, k.0),
        ) by {
        if !s.clubs.contains_key(k) {
            assert(s.membership.contains_key((m, k.1)));
        }
    }
    let t = set_the_annual_expences_effect(s, origin, amount, club_id).0;
    assert(t.clubs.dom() =~= s.clubs.dom());
    lemma_scheduled_frame(s, t);
    let t = update_membership_period_effect(s, origin, club_id, years).0;
    assert(t.membership.dom() =~= s.membership.dom());
    lemma_scheduled_frame(s, t);
}

/// Moving the entries of `members` from `old_owner` to `new_owner` keeps every other entry
/// and moves the entry of each member's membership, where it is scheduled.
proof fn lemma_retag_members(
    expired_on: Map<u64, Seq<Entry>>,
    membership: Map<(u64, u64), MemberShipData<u64>>,
    members: Seq<u64>,
    upto: int,
    club_id: u64,
    old_owner: u64,
    new_owner: u64,
)
    requires
        members.no_duplicates(),
        0 <= upto <= members.len(),
    ensures
        forall|b: u64, e: Entry|
            #![trigger scheduled_at(retag_members(expired_on, membership, members, upto, club_id, old_owner, new_owner), b, e)]
            scheduled_at(expired_on, b, e) && !(e.1 == club_id && e.2 == old_owner
                && exists|j: int| 0 <= j < upto && members[j] == e.0)
                ==> scheduled_at(retag_members(expired_on, membership, members, upto, club_id, old_owner, new_owner), b, e),
        forall|j: int|
            #![trigger members[j]]
            0 <= j < upto && membership.contains_key((members[j], club_id)) && scheduled_at(
                expired_on,
                membership[(members[j], club_id)].expired_on,
                (members[j], club_id, old_owner),
            ) ==> scheduled_at(
                retag_members(expired_on, membership, members, upto, club_id, old_owner, new_owner),
                membership[(members[j], club_id)].expired_on,
                (members[j], club_id, new_owner),
            ),
    decreases upto,
{
    if upto > 0 {
        lemma_retag_members(expired_on, membership, members, upto - 1, club_id, old_owner, new_owner);
        let prev = retag_members(expired_on, membership, members, upto - 1, club_id, old_owner, new_owner);
        let last = members[upto - 1];
        let next = retag_members(expired_on, membership, members, upto, club_id, old_owner, new_owner);
        assert(next == retag_member(prev, membership, last, club_id, old_owner, new_owner));
        let from = (last, club_id, old_owner);
        let to = (last, club_id, new_owner);
        // what retagging the last member keeps
        assert forall|b: u64, e: Entry| scheduled_at(prev, b, e) && e != from implies #[trigger] scheduled_at(next, b, e) by {
            if membership.contains_key((last, club_id)) && prev.contains_key(membership[(last, club_id)].expired_on)
                && b == membership[(last, club_id)].expired_on {
                let l = prev[b];
                let p = choose|p: int| 0 <= p < l.len() && l[p] == e;
                assert(retag(l, from, to)[p] == e);
            }
        }
        assert forall|b: u64, e: Entry|
            scheduled_at(expired_on, b, e) && !(e.1 == club_id && e.2 == old_owner
                && exists|j: int| 0 <= j < upto && members[j] == e.0)
            implies #[trigger] scheduled_at(next, b, e) by {
            if e.1 == club_id && e.2 == old_owner && exists|j: int| 0 <= j < upto - 1 && members[j] == e.0 {
                let j = choose|j: int| 0 <= j < upto - 1 && members[j] == e.0;
                assert(0 <= j < upto && members[j] == e.0);
            }
            assert(scheduled_at(prev, b, e));
            if e == from {
                assert(0 <= upto - 1 < upto && members[upto - 1] == e.0);
            }
        }
        assert forall|j: int|
            #![trigger members[j]]
            0 <= j < upto && membership.contains_key((members[j], club_id)) && scheduled_at(
                expired_on,
                membership[(members[j], club_id)].expired_on,
                (members[j], club_id, old_owner),
            ) implies scheduled_at(next, membership[(members[j], club_id)].expired_on, (members[j], club_id, new_owner)) by {
            let b = membership[(members[j], club_id)].expired_on;
            if j < upto - 1 {
                assert(members[j] != last);
                assert(scheduled_at(prev, b, (members[j], club_id, new_owner)));
            } else {
                let e = (members[j], club_id, old_owner);
                if exists|j2: int| 0 <= j2 < upto - 1 && members[j2] == e.0 {
                    let j2 = choose|j2: int| 0 <= j2 < upto - 1 && members[j2] == e.0;
                    assert(members[j2] == members[upto - 1]);
                }
                assert(scheduled_at(prev, b, e));
                let l = prev[b];
                let p = choose|p: int| 0 <= p < l.len() && l[p] == e;
                assert(retag(l, from, to)[p] == to);
            }
        }
    }
}

/// Law: `transfer_ownership` keeps every membership scheduled: the entries of the club's
/// memberships move to the new owner.
pub proof fn law_transfer_keeps_schedule(s: PalletState, origin: Origin, new_owner: u64, fees: u128, club_id: u64, paid: Paid)
    requires
        well_formed(s),
        scheduled(s),
    ensures
        scheduled(transfer_ownership_effect(s, origin, new_owner, fees, club_id, paid).0),
{
    let (t, r) = transfer_ownership_effect(s, origin, new_owner, fees, club_id, paid);
    if r is Ok {
        let old_owner = origin->Signed_0;
        let members = s.clubs[(old_owner, club_id)].members;
        assert(s.clubs.contains_key((old_owner, club_id)));
        lemma_retag_members(s.expired_on, s.membership, members, members.len() as int, club_id, old_owner, new_owner);
        assert forall|k: (u64, u64), m: u64|
            #![trigger t.clubs.contains_key(k), t.membership.contains_key((m, k.1))]
            t.clubs.contains_key(k) && t.membership.contains_key((m, k.1)) implies scheduled_at(
                t.expired_on,
                t.membership[(m, k.1)].expired_on,
                (m, k.1, k.0),
            ) by {
            assert(s.membership.contains_key((m, k.1)));
            if k == (new_owner, club_id) {
                assert(members.contains(m));
                let j = choose|j: int| 0 <= j < members.len() && members[j] == m;
                assert(scheduled_at(s.expired_on, s.membership[(m, club_id)].expired_on, (m, club_id, old_owner)));
                assert(members[j] == m);
            } else {
                assert(s.clubs.contains_key(k));
                let e = (m, k.1, k.0);
                assert(scheduled_at(s.expired_on, s.membership[(m, k.1)].expired_on, e));
                if e.1 == club_id && e.2 == old_owner {
                    assert(k == (old_owner, club_id));
                }
            }
        }
    }
}

/// Law: `add_members` keeps every membership scheduled.
pub proof fn law_add_members_keeps_schedule(s: PalletState, origin: Origin, member: u64, club_id: u64, years: u32, now: u64, paid: Paid)
    requires
        well_formed(s),
        scheduled(s),
    ensures
        scheduled(add_members_effect(s, origin, member, club_id, years, now, paid).0),
{
    let (t, r) = add_members_effect(s, origin, member, club_id, years, now, paid);
    if r is Ok {
        let owner = origin->Signed_0;
        let expires = expiration(s, years, now);
        let entry = (member, club_id, owner);
        lemma_schedule_adds(s.expired_on, expires, entry);
        assert forall|k: (u64, u64), m: u64|
            #![trigger t.clubs.contains_key(k), t.membership.contains_key((m, k.1))]
            t.clubs.contains_key(k) && t.membership.contains_key((m, k.1)) implies scheduled_at(
                t.expired_on,
                t.membership[(m, k.1)].expired_on,
                (m, k.1, k.0),
            ) by {
            assert(s.clubs.contains_key(k));
            if (m, k.1) == (member, club_id) {
                assert(k.0 == owner);
            } else {
                assert(s.membership.contains_key((m, k.1)));
                lemma_schedule_keeps(s.expired_on, expires, entry, s.membership[(m, k.1)].expired_on, (m, k.1, k.0));
            }
        }
    }
}

/// Law: `cancel_membership` keeps every other membership scheduled.
pub proof fn law_cancel_keeps_schedule(s: PalletState, origin: Origin, member: u64, club_id: u64)
    requires
        well_formed(s),
        scheduled(s),
    ensures
        scheduled(cancel_membership_effect(s, origin, member, club_id).0),
{
    let (t, r) = cancel_membership_effect(s, origin, member, club_id);
    if r is Ok {
        let owner = origin->Signed_0;
        let block = s.membership[(member, club_id)].expired_on;
        let gone = (member, club_id, owner);
        assert forall|k: (u64, u64), m: u64|
            #![trigger t.clubs.contains_key(k), t.membership.contains_key((m, k.1))]
            t.clubs.contains_key(k) && t.membership.contains_key((m, k.1)) implies scheduled_at(
                t.expired_on,
                t.membership[(m, k.1)].expired_on,
                (m, k.1, k.0),
            ) by {
            assert(s.clubs.contains_key(k));
            assert(s.membership.contains_key((m, k.1)));
            let e = (m, k.1, k.0);
            let at = s.membership[(m, k.1)].expired_on;
            assert(e != gone);
            if at == block && s.expired_on.contains_key(block) && s.expired_on[block].contains(gone) {
                let l = s.expired_on[block];
                l.index_of_first_ensures(gone);
                let i = l.index_of_first(gone)->0;
                let j = choose|j: int| 0 <= j < l.len() && l[j] == e;
                assert(j != i);
                let r2 = l.remove(i);
                let j2 = if j < i { j } else { j - 1 };
                assert(r2[j2] == e);
            }
        }
    }
}

/// Law: an expiry run in which every renewal is paid and every entry of an existing
/// membership names the club's owner keeps every membership scheduled: the memberships
/// that were due are scheduled again at the block at which their renewed period ends.
pub proof fn law_membership_expired_keeps_schedule(s: PalletState, n: u64, now: u64, paid: Seq<Paid>)
    requires
        well_formed(s),
        scheduled(s),
        s.expired_on.contains_key(n),
        entries_current(s, s.expired_on[n], 0),
        forall|j: int| 0 <= j < s.expired_on[n].len() ==> (#[trigger] paid[j]) is Ok,
    ensures
        membership_expired_effect(s, n, now, paid).1 is Ok,
        scheduled(membership_expired_effect(s, n, now, paid).0),
{
    let list = s.expired_on[n];
    let s1 = PalletState { expired_on: s.expired_on.remove(n), ..s };
    assert forall|k: (u64, u64), m: u64|
        #![trigger s1.clubs.contains_key(k), s1.membership.contains_key((m, k.1))]
        s1.clubs.contains_key(k) && s1.membership.contains_key((m, k.1)) implies {
            ||| s1.membership[(m, k.1)].expired_on == n && in_rest(list, 0, (m, k.1, k.0))
            ||| scheduled_at(s1.expired_on, s1.membership[(m, k.1)].expired_on, (m, k.1, k.0))
        } by {
        let e = (m, k.1, k.0);
        assert(scheduled_at(s.expired_on, s.membership[(m, k.1)].expired_on, e));
        if s.membership[(m, k.1)].expired_on == n {
            let j = choose|j: int| 0 <= j < list.len() && list[j] == e;
            assert(in_rest(list, 0, e));
        }
    }
    lemma_run_keeps_scheduled(s1, list, 0, n, now, paid);
    lemma_run_succeeds(s1, list, 0, n, now, paid);
}


/// Following a run, a membership that is renewed on the way, or that already expires when
/// its renewal would end, ends the run expiring then, with the same period.
proof fn lemma_run_renews(
    s: PalletState,
    entries: Seq<Entry>,
    i: int,
    n: u64,
    now: u64,
    paid: Seq<Paid>,
    key: (u64, u64),
    expires: u64,
)
    requires
        0 <= i <= entries.len(),
        s.membership.contains_key(key),
        expires == expiration(s, s.membership[key].membership_period_in_years, now),
        s.membership[key].expired_on == expires || (s.membership[key].expired_on == n
            && exists|j: int| i <= j < entries.len() && (entries[j].0, entries[j].1) == key),
        forall|j: int| i <= j < entries.len() ==> (#[trigger] paid[j]) is Ok,
    ensures
        expiry_from(s, entries, i, n, now, paid).0.membership.contains_key(key),
        expiry_from(s, entries, i, n, now, paid).0.membership[key] == (MemberShipData {
            expired_on: expires,
            membership_period_in_years: s.membership[key].membership_period_in_years,
        }),
    decreases entries.len() - i,
{
    if i == entries.len() {
        if s.membership[key].expired_on != expires {
            let j = choose|j: int| i <= j < entries.len() && (entries[j].0, entries[j].1) == key;
        }
    } else {
        let entry = entries[i];
        let key0 = (entry.0, entry.1);
        if s.membership.contains_key(key0) && s.membership[key0].expired_on == n {
            let t = renewal_effect(s, entry, s.membership[key0].membership_period_in_years, now, paid[i]);
            assert(paid[i] is Ok);
            if key0 != key && s.membership[key].expired_on != expires {
                let j = choose|j: int| i <= j < entries.len() && (entries[j].0, entries[j].1) == key;
                assert(j != i);
            }
            lemma_run_renews(t, entries, i + 1, n, now, paid, key, expires);
        } else {
            if key0 != key && s.membership[key].expired_on != expires {
                let j = choose|j: int| i <= j < entries.len() && (entries[j].0, entries[j].1) == key;
                assert(j != i);
            }
            lemma_run_renews(s, entries, i + 1, n, now, paid, key, expires);
        }
    }
}

/// Law (a membership is renewed by default until it is cancelled): in an expiry run at
/// block `n` in which the currency accepts every renewal, every membership that expires at
/// `n` and is scheduled then is renewed: it then expires one period after `now`, with the
/// same period, and the run succeeds.
pub proof fn law_due_memberships_are_renewed(
    s: PalletState,
    n: u64,
    now: u64,
    paid: Seq<Paid>,
    member: u64,
    club_id: u64,
    owner: u64,
)
    requires
        s.expired_on.contains_key(n),
        s.expired_on[n].contains((member, club_id, owner)),
        s.membership.contains_key((member, club_id)),
        s.membership[(member, club_id)].expired_on == n,
        forall|j: int| 0 <= j < s.expired_on[n].len() ==> (#[trigger] paid[j]) is Ok,
    ensures
        ({
            let years = s.membership[(member, club_id)].membership_period_in_years;
            let (t, r) = membership_expired_effect(s, n, now, paid);
            &&& r is Ok
            &&& membership_of(t, (member, club_id)) == Ok::<_, Error>(
                MemberShipData { expired_on: expiration(s, years, now), membership_period_in_years: years },
            )
        }),
{
    let list = s.expired_on[n];
    let s1 = PalletState { expired_on: s.expired_on.remove(n), ..s };
    let key = (member, club_id);
    let j = choose|j: int| 0 <= j < list.len() && list[j] == (member, club_id, owner);
    assert((list[j].0, list[j].1) == key);
    lemma_run_renews(s1, list, 0, n, now, paid, key, expiration(s, s.membership[key].membership_period_in_years, now));
    lemma_run_succeeds(s1, list, 0, n, now, paid);
}

/// A run leaves block `n` out of the schedule when every renewal ends after `n`.
proof fn lemma_run_leaves_block(s: PalletState, entries: Seq<Entry>, i: int, n: u64, now: u64, paid: Seq<Paid>)
    requires
        !s.expired_on.contains_key(n),
        n <= now,
        forall|k: (u64, u64)| #[trigger] s.membership.contains_key(k) ==> 0 < period_blocks(
            s,
            s.membership[k].membership_period_in_years,
        ) && now + period_blocks(s, s.membership[k].membership_period_in_years) <= u64::MAX,
    ensures
        !expiry_from(s, entries, i, n, now, paid).0.expired_on.contains_key(n),
    decreases entries.len() - i,
{
    if i < entries.len() {
        let entry = entries[i];
        let key = (entry.0, entry.1);
        if s.membership.contains_key(key) && s.membership[key].expired_on == n {
            let years = s.membership[key].membership_period_in_years;
            let t = renewal_effect(s, entry, years, now, paid[i]);
            assert(expiration(s, years, now) != n);
            assert(t.membership.dom() =~= s.membership.dom());
            assert forall|k: (u64, u64)| #[trigger] t.membership.contains_key(k) implies t.membership[k].membership_period_in_years
                == s.membership[k].membership_period_in_years by {}
            lemma_run_leaves_block(t, entries, i + 1, n, now, paid);
        } else {
            lemma_run_leaves_block(s, entries, i + 1, n, now, paid);
        }
    }
}

/// Law: no membership is renewed twice for the same block: when every membership period is
/// at least one block long, a second expiry run at block `n` finds nothing scheduled and
/// changes nothing.
pub proof fn law_no_second_renewal(s: PalletState, n: u64, now: u64, paid: Seq<Paid>, paid_again: Seq<Paid>)
    requires
        n <= now,
        forall|k: (u64, u64)| #[trigger] s.membership.contains_key(k) ==> 0 < period_blocks(
            s,
            s.membership[k].membership_period_in_years,
        ) && now + period_blocks(s, s.membership[k].membership_period_in_years) <= u64::MAX,
    ensures
        ({
            let t = membership_expired_effect(s, n, now, paid).0;
            membership_expired_effect(t, n, now, paid_again) == (t, Err::<(), CallError>(
                CallError::Module(Error::NotAExpirationTime),
            ))
        }),
{
    if s.expired_on.contains_key(n) {
        let s1 = PalletState { expired_on: s.expired_on.remove(n), ..s };
        lemma_run_leaves_block(s1, s.expired_on[n], 0, n, now, paid);
    }
}

/// Every renewal that the run through `entries` from index `i` on makes (one that the
/// currency paid for) lands at a block other than `n`.
pub open spec fn renewals_avoid(s: PalletState, entries: Seq<Entry>, i: int, n: u64, now: u64, paid: Seq<Paid>) -> bool
    decreases entries.len() - i,
{
    if i >= entries.len() {
        true
    } else {
        let entry = entries[i];
        let key = (entry.0, entry.1);
        if s.membership.contains_key(key) && s.membership[key].expired_on == n {
            let years = s.membership[key].membership_period_in_years;
            &&& (paid[i] is Ok ==> expiration(s, years, now) != n)
            &&& renewals_avoid(renewal_effect(s, entry, years, now, paid[i]), entries, i + 1, n, now, paid)
        } else {
            renewals_avoid(s, entries, i + 1, n, now, paid)
        }
    }
}

/// Every renewal that `membership_expired` at block `n` makes lands at a block other
/// than `n`.
pub open spec fn expiry_renewals_avoid(s: PalletState, n: u64, now: u64, paid: Seq<Paid>) -> bool {
    s.expired_on.contains_key(n) ==> renewals_avoid(
        PalletState { expired_on: s.expired_on.remove(n), ..s },
        s.expired_on[n],
        0,
        n,
        now,
        paid,
    )
}

/// A run leaves block `n` out of the schedule when no renewal it makes lands there.
proof fn lemma_run_avoids_block(s: PalletState, entries: Seq<Entry>, i: int, n: u64, now: u64, paid: Seq<Paid>)
    requires
        !s.expired_on.contains_key(n),
        renewals_avoid(s, entries, i, n, now, paid),
    ensures
        !expiry_from(s, entries, i, n, now, paid).0.expired_on.contains_key(n),
    decreases entries.len() - i,
{
    if i < entries.len() {
        let entry = entries[i];
        let key = (entry.0, entry.1);
        if s.membership.contains_key(key) && s.membership[key].expired_on == n {
            let years = s.membership[key].membership_period_in_years;
            lemma_run_avoids_block(renewal_effect(s, entry, years, now, paid[i]), entries, i + 1, n, now, paid);
        } else {
            lemma_run_avoids_block(s, entries, i + 1, n, now, paid);
        }
    }
}

/// Law: no membership is renewed twice for the same block: after an expiry run at block
/// `n` whose renewals all land at other blocks, a second run at `n` finds nothing
/// scheduled and changes nothing.
pub proof fn law_second_run_finds_nothing(s: PalletState, n: u64, now: u64, paid: Seq<Paid>, paid_again: Seq<Paid>)
    requires
        expiry_renewals_avoid(s, n, now, paid),
    ensures
        ({
            let t = membership_expired_effect(s, n, now, paid).0;
            membership_expired_effect(t, n, now, paid_again) == (t, Err::<(), CallError>(
                CallError::Module(Error::NotAExpirationTime),
            ))
        }),
{
    if s.expired_on.contains_key(n) {
        let s1 = PalletState { expired_on: s.expired_on.remove(n), ..s };
        lemma_run_avoids_block(s1, s.expired_on[n], 0, n, now, paid);
    }
}

/// Law: cancelling a membership undoes adding it (the fee that was paid stays paid): the
/// clubs and the memberships are back to what they were.
pub proof fn law_cancel_undoes_add(s: PalletState, owner: u64, member: u64, club_id: u64, years: u32, now: u64, paid: Paid)
    requires
        well_formed(s),
        add_members_effect(s, Origin::Signed(owner), member, club_id, years, now, paid).1 is Ok,
    ensures
        ({
            let t = add_members_effect(s, Origin::Signed(owner), member, club_id, years, now, paid).0;
            let (u, r) = cancel_membership_effect(t, Origin::Signed(owner), member, club_id);
            &&& r is Ok
            &&& u.clubs == s.clubs
            &&& u.membership == s.membership
        }),
{
    let t = add_members_effect(s, Origin::Signed(owner), member, club_id, years, now, paid).0;
    let club = s.clubs[(owner, club_id)];
    let members = club.members;
    assert(!members.contains(member));
    let pushed = members.push(member);
    assert(pushed[members.len() as int] == member);
    pushed.index_of_first_ensures(member);
    let idx = pushed.index_of_first(member)->0;
    if idx < members.len() {
        assert(members[idx] == member);
    }
    assert(pushed.remove(members.len() as int) =~= members);
    let (u, r) = cancel_membership_effect(t, Origin::Signed(owner), member, club_id);
    assert(u.clubs[(owner, club_id)] == club);
    assert(u.clubs =~= s.clubs);
    assert(u.membership =~= s.membership);
}

/// Law: handing a club back undoes handing it over (the fees stay paid): the clubs and
/// the memberships are back to what they were.
pub proof fn law_transfer_back(
    s: PalletState,
    owner: u64,
    new_owner: u64,
    fees: u128,
    back_fees: u128,
    club_id: u64,
    paid: Paid,
    back_paid: Paid,
)
    requires
        well_formed(s),
        transfer_ownership_effect(s, Origin::Signed(owner), new_owner, fees, club_id, paid).1 is Ok,
        back_paid is Ok,
    ensures
        ({
            let t = transfer_ownership_effect(s, Origin::Signed(owner), new_owner, fees, club_id, paid).0;
            let (u, r) = transfer_ownership_effect(t, Origin::Signed(new_owner), owner, back_fees, club_id, back_paid);
            &&& r is Ok
            &&& u.clubs == s.clubs
            &&& u.membership == s.membership
        }),
{
    let t = transfer_ownership_effect(s, Origin::Signed(owner), new_owner, fees, club_id, paid).0;
    let (u, r) = transfer_ownership_effect(t, Origin::Signed(new_owner), owner, back_fees, club_id, back_paid);
    assert(t.clubs.contains_key((new_owner, club_id)));
    if new_owner != owner {
        assert(!s.clubs.contains_key((new_owner, club_id))) by {
            if s.clubs.contains_key((new_owner, club_id)) {
                assert(s.clubs.contains_key((owner, club_id)));
            }
        }
    }
    assert(u.clubs =~= s.clubs);
}

/// The club ids of the clubs and the memberships lie between 1 and the last id handed out.
pub open spec fn ids_in_range(s: PalletState) -> bool {
    &&& forall|k: (u64, u64)| #[trigger] s.clubs.contains_key(k) ==> 1 <= k.1 <= s.next_club_id
    &&& forall|k: (u64, u64)| #[trigger] s.membership.contains_key(k) ==> 1 <= k.1 <= s.next_club_id
}

/// An account holds a membership of a club exactly when some club with that id lists it,
/// and no list of members holds an account twice.
pub open spec fn members_match(s: PalletState) -> bool {
    &&& forall|k: (u64, u64)| #[trigger] s.clubs.contains_key(k) ==> s.clubs[k].members.no_duplicates()
    &&& forall|k: (u64, u64), m: u64|
        #![trigger s.clubs[k].members.contains(m)]
        s.clubs.contains_key(k) && s.clubs[k].members.contains(m) ==> s.membership.contains_key((m, k.1))
    &&& forall|key: (u64, u64)|
        #[trigger] s.membership.contains_key(key) ==> exists|o: u64|
            #[trigger] s.clubs.contains_key((o, key.1)) && s.clubs[(o, key.1)].members.contains(key.0)
}

/// `members_match` depends only on the clubs' members and which memberships exist.
proof fn lemma_members_match_frame(s: PalletState, t: PalletState)
    requires
        members_match(s),
        t.clubs.dom() == s.clubs.dom(),
        forall|k: (u64, u64)| #[trigger] t.clubs.contains_key(k) ==> t.clubs[k].members == s.clubs[k].members,
        t.membership.dom() == s.membership.dom(),
    ensures
        members_match(t),
{
    assert forall|k: (u64, u64)| #[trigger] t.clubs.contains_key(k) implies t.clubs[k].members.no_duplicates() by {
        assert(s.clubs.contains_key(k));
    }
    assert forall|k: (u64, u64), m: u64|
        #![trigger t.clubs[k].members.contains(m)]
        t.clubs.contains_key(k) && t.clubs[k].members.contains(m) implies t.membership.contains_key((m, k.1)) by {
        assert(s.clubs.contains_key(k));
    }
    assert forall|key: (u64, u64)| #[trigger] t.membership.contains_key(key) implies exists|o: u64|
        #[trigger] t.clubs.contains_key((o, key.1)) && t.clubs[(o, key.1)].members.contains(key.0) by {
        assert(s.membership.contains_key(key));
        let o = choose|o: u64| #[trigger] s.clubs.contains_key((o, key.1)) && s.clubs[(o, key.1)].members.contains(key.0);
        assert(t.clubs.contains_key((o, key.1)));
    }
}

/// Law: every call keeps the club ids in range (from that premise alone, and an unused id
/// left for `create_club`).
pub proof fn law_ids_in_range(
    s: PalletState,
    origin: Origin,
    owner: u64,
    member: u64,
    club_id: u64,
    amount: u128,
    years: u32,
    now: u64,
    paid: Paid,
    n: u64,
    answers: Seq<Paid>,
)
    requires
        ids_in_range(s),
        origin == Origin::Root ==> s.next_club_id < u64::MAX,
    ensures
        ids_in_range(create_club_effect(s, origin, owner, amount, now, paid).0),
        ids_in_range(set_the_annual_expences_effect(s, origin, amount, club_id).0),
        ids_in_range(transfer_ownership_effect(s, origin, owner, amount, club_id, paid).0),
        ids_in_range(add_members_effect(s, origin, member, club_id, years, now, paid).0),
        ids_in_range(update_membership_period_effect(s, origin, club_id, years).0),
        ids_in_range(cancel_membership_effect(s, origin, member, club_id).0),
        ids_in_range(membership_expired_effect(s, n, now, answers).0),
{
    let t = set_the_annual_expences_effect(s, origin, amount, club_id).0;
    assert forall|k: (u64, u64)| #[trigger] t.clubs.contains_key(k) implies 1 <= k.1 <= t.next_club_id by {
        assert(s.clubs.contains_key(k));
    }
    let (t, r) = transfer_ownership_effect(s, origin, owner, amount, club_id, paid);
    if r is Ok {
        assert(s.clubs.contains_key((origin->Signed_0, club_id)));
        assert forall|k: (u64, u64)| #[trigger] t.clubs.contains_key(k) implies 1 <= k.1 <= t.next_club_id by {
            if k != (owner, club_id) {
                assert(s.clubs.contains_key(k));
            }
        }
    }
    let (t, r) = add_members_effect(s, origin, member, club_id, years, now, paid);
    if r is Ok {
        assert(s.clubs.contains_key((origin->Signed_0, club_id)));
        assert forall|k: (u64, u64)| #[trigger] t.clubs.contains_key(k) implies 1 <= k.1 <= t.next_club_id by {
            assert(s.clubs.contains_key(k));
        }
        assert forall|k: (u64, u64)| #[trigger] t.membership.contains_key(k) implies 1 <= k.1 <= t.next_club_id by {
            if k != (member, club_id) {
                assert(s.membership.contains_key(k));
            }
        }
    }
    let t = update_membership_period_effect(s, origin, club_id, years).0;
    assert forall|k: (u64, u64)| #[trigger] t.membership.contains_key(k) implies 1 <= k.1 <= t.next_club_id by {
        assert(s.membership.contains_key(k));
    }
    let t = cancel_membership_effect(s, origin, member, club_id).0;
    assert forall|k: (u64, u64)| #[trigger] t.clubs.contains_key(k) implies 1 <= k.1 <= t.next_club_id by {
        assert(s.clubs.contains_key(k));
    }
    assert forall|k: (u64, u64)| #[trigger] t.membership.contains_key(k) implies 1 <= k.1 <= t.next_club_id by {
        assert(s.membership.contains_key(k));
    }
    if s.expired_on.contains_key(n) {
        let s1 = PalletState { expired_on: s.expired_on.remove(n), ..s };
        lemma_expiry_keeps_shape(s1, s.expired_on[n], 0, n, now, answers);
        let t = membership_expired_effect(s, n, now, answers).0;
        assert forall|k: (u64, u64)| #[trigger] t.membership.contains_key(k) implies 1 <= k.1 <= t.next_club_id by {
            assert(s.membership.contains_key(k));
        }
    }
}

/// Every club id lies between 1 and the last id handed out, and names one club.
pub open spec fn club_ids(s: PalletState) -> bool {
    &&& forall|k: (u64, u64)| #[trigger] s.clubs.contains_key(k) ==> 1 <= k.1 <= s.next_club_id
    &&& one_owner(s.clubs)
}

/// The clubs of `t` are those of `s`, with the same keys.
proof fn lemma_club_ids_frame(s: PalletState, t: PalletState)
    requires
        club_ids(s),
        t.clubs.dom() == s.clubs.dom(),
        t.next_club_id == s.next_club_id,
    ensures
        club_ids(t),
{
    assert forall|k: (u64, u64)| #[trigger] t.clubs.contains_key(k) implies 1 <= k.1 <= t.next_club_id by {
        assert(s.clubs.contains_key(k));
    }
    assert forall|k1: (u64, u64), k2: (u64, u64)|
        #![trigger t.clubs.contains_key(k1), t.clubs.contains_key(k2)]
        t.clubs.contains_key(k1) && t.clubs.contains_key(k2) && k1.1 == k2.1 implies k1.0 == k2.0 by {
        assert(s.clubs.contains_key(k1) && s.clubs.contains_key(k2));
    }
}

/// Law: every call keeps each club id between 1 and the last id handed out and naming
/// one club (from that premise alone, and an unused id left for `create_club`). The club
/// that `create_club` makes has an id that no club had before, and it alone has it after.
pub proof fn law_club_ids(
    s: PalletState,
    origin: Origin,
    owner: u64,
    member: u64,
    club_id: u64,
    amount: u128,
    years: u32,
    now: u64,
    paid: Paid,
    n: u64,
    answers: Seq<Paid>,
)
    requires
        club_ids(s),
        origin == Origin::Root ==> s.next_club_id < u64::MAX,
    ensures
        club_ids(create_club_effect(s, origin, owner, amount, now, paid).0),
        club_ids(set_the_annual_expences_effect(s, origin, amount, club_id).0),
        club_ids(transfer_ownership_effect(s, origin, owner, amount, club_id, paid).0),
        club_ids(add_members_effect(s, origin, member, club_id, years, now, paid).0),
        club_ids(update_membership_period_effect(s, origin, club_id, years).0),
        club_ids(cancel_membership_effect(s, origin, member, club_id).0),
        club_ids(membership_expired_effect(s, n, now, answers).0),
        create_club_effect(s, origin, owner, amount, now, paid).1 is Ok ==> ({
            let id = (s.next_club_id + 1) as u64;
            let t = create_club_effect(s, origin, owner, amount, now, paid).0;
            &&& forall|o: u64| !(#[trigger] s.clubs.contains_key((o, id)))
            &&& t.clubs.contains_key((owner, id))
            &&& forall|o: u64| #[trigger] t.clubs.contains_key((o, id)) ==> o == owner
        }),
{
    let (t, r) = create_club_effect(s, origin, owner, amount, now, paid);
    if r is Ok {
        let id = (s.next_club_id + 1) as u64;
        assert forall|o: u64| !(#[trigger] s.clubs.contains_key((o, id))) by {
            if s.clubs.contains_key((o, id)) {
                assert(id <= s.next_club_id);
            }
        }
        assert forall|k: (u64, u64)| #[trigger] t.clubs.contains_key(k) implies 1 <= k.1 <= t.next_club_id by {
            if k != (owner, id) {
                assert(s.clubs.contains_key(k));
            }
        }
        assert forall|k1: (u64, u64), k2: (u64, u64)|
            #![trigger t.clubs.contains_key(k1), t.clubs.contains_key(k2)]
            t.clubs.contains_key(k1) && t.clubs.contains_key(k2) && k1.1 == k2.1 implies k1.0 == k2.0 by {
            if k1 != (owner, id) {
                assert(s.clubs.contains_key(k1));
            }
            if k2 != (owner, id) {
                assert(s.clubs.contains_key(k2));
            }
        }
        assert forall|o: u64| #[trigger] t.clubs.contains_key((o, id)) implies o == owner by {
            if (o, id) != (owner, id) {
                assert(s.clubs.contains_key((o, id)));
            }
        }
    }
    let t = set_the_annual_expences_effect(s, origin, amount, club_id).0;
    assert(t.clubs.dom() =~= s.clubs.dom());
    lemma_club_ids_frame(s, t);
    let (t, r) = transfer_ownership_effect(s, origin, owner, amount, club_id, paid);
    if r is Ok {
        let old_owner = origin->Signed_0;
        assert(s.clubs.contains_key((old_owner, club_id)));
        assert forall|k: (u64, u64)| #[trigger] t.clubs.contains_key(k) implies 1 <= k.1 <= t.next_club_id by {
            if k != (owner, club_id) {
                assert(s.clubs.contains_key(k));
            }
        }
        assert forall|k1: (u64, u64), k2: (u64, u64)|
            #![trigger t.clubs.contains_key(k1), t.clubs.contains_key(k2)]
            t.clubs.contains_key(k1) && t.clubs.contains_key(k2) && k1.1 == k2.1 implies k1.0 == k2.0 by {
            if k1 != (owner, club_id) {
                assert(s.clubs.contains_key(k1) && k1 != (old_owner, club_id));
            }
            if k2 != (owner, club_id) {
                assert(s.clubs.contains_key(k2) && k2 != (old_owner, club_id));
            }
            if k1 != (owner, club_id) && k2 == (owner, club_id) {
                assert(s.clubs.contains_key((old_owner, club_id)));
            }
            if k2 != (owner, club_id) && k1 == (owner, club_id) {
                assert(s.clubs.contains_key((old_owner, club_id)));
            }
        }
    }
    let t = add_members_effect(s, origin, member, club_id, years, now, paid).0;
    assert(t.clubs.dom() =~= s.clubs.dom());
    lemma_club_ids_frame(s, t);
    let t = update_membership_period_effect(s, origin, club_id, years).0;
    lemma_club_ids_frame(s, t);
    let t = cancel_membership_effect(s, origin, member, club_id).0;
    assert(t.clubs.dom() =~= s.clubs.dom());
    lemma_club_ids_frame(s, t);
    if s.expired_on.contains_key(n) {
        let s1 = PalletState { expired_on: s.expired_on.remove(n), ..s };
        lemma_expiry_keeps_shape(s1, s.expired_on[n], 0, n, now, answers);
        lemma_club_ids_frame(s, membership_expired_effect(s, n, now, answers).0);
    }
}

/// Law: `create_club`, `set_the_annual_expences`, `add_members` and
/// `update_membership_period` keep the memberships matching the members lists (from that
/// premise alone).
pub proof fn law_member_lists_match(
    s: PalletState,
    origin: Origin,
    owner: u64,
    member: u64,
    club_id: u64,
    amount: u128,
    years: u32,
    now: u64,
    paid: Paid,
)
    requires
        members_match(s),
    ensures
        members_match(create_club_effect(s, origin, owner, amount, now, paid).0),
        members_match(set_the_annual_expences_effect(s, origin, amount, club_id).0),
        members_match(add_members_effect(s, origin, member, club_id, years, now, paid).0),
        members_match(update_membership_period_effect(s, origin, club_id, years).0),
{
    let (t, r) = create_club_effect(s, origin, owner, amount, now, paid);
    if r is Ok {
        let id = (s.next_club_id + 1) as u64;
        assert forall|k: (u64, u64)| #[trigger] t.clubs.contains_key(k) implies t.clubs[k].members.no_duplicates() by {
            if k != (owner, id) {
                assert(s.clubs.contains_key(k));
            }
        }
        assert forall|k: (u64, u64), m: u64|
            #![trigger t.clubs[k].members.contains(m)]
            t.clubs.contains_key(k) && t.clubs[k].members.contains(m) implies t.membership.contains_key((m, k.1)) by {
            if k != (owner, id) {
                assert(s.clubs.contains_key(k));
            }
        }
        assert forall|key: (u64, u64)| #[trigger] t.membership.contains_key(key) implies exists|o: u64|
            #[trigger] t.clubs.contains_key((o, key.1)) && t.clubs[(o, key.1)].members.contains(key.0) by {
            let o = choose|o: u64| #[trigger] s.clubs.contains_key((o, key.1)) && s.clubs[(o, key.1)].members.contains(key.0);
            assert(t.clubs.contains_key((o, key.1)));
        }
    }
    let t = set_the_annual_expences_effect(s, origin, amount, club_id).0;
    assert(t.clubs.dom() =~= s.clubs.dom());
    lemma_members_match_frame(s, t);
    let t = update_membership_period_effect(s, origin, club_id, years).0;
    assert(t.membership.dom() =~= s.membership.dom());
    lemma_members_match_frame(s, t);
    let (t, r) = add_members_effect(s, origin, member, club_id, years, now, paid);
    if r is Ok {
        let o0 = origin->Signed_0;
        let members = s.clubs[(o0, club_id)].members;
        if members.contains(member) {
            assert(s.membership.contains_key((member, club_id)));
        }
        lemma_push_new(members, member);
        assert forall|k: (u64, u64)| #[trigger] t.clubs.contains_key(k) implies t.clubs[k].members.no_duplicates() by {
            assert(s.clubs.contains_key(k));
        }
        assert forall|k: (u64, u64), m: u64|
            #![trigger t.clubs[k].members.contains(m)]
            t.clubs.contains_key(k) && t.clubs[k].members.contains(m) implies t.membership.contains_key((m, k.1)) by {
            assert(s.clubs.contains_key(k));
        }
        assert forall|key: (u64, u64)| #[trigger] t.membership.contains_key(key) implies exists|o: u64|
            #[trigger] t.clubs.contains_key((o, key.1)) && t.clubs[(o, key.1)].members.contains(key.0) by {
            if key == (member, club_id) {
                assert(t.clubs.contains_key((o0, key.1)) && t.clubs[(o0, key.1)].members.contains(key.0));
            } else {
                let o = choose|o: u64| #[trigger] s.clubs.contains_key((o, key.1)) && s.clubs[(o, key.1)].members.contains(key.0);
                assert(t.clubs.contains_key((o, key.1)));
                assert(t.clubs[(o, key.1)].members.contains(key.0));
            }
        }
    }
}

/// Law: with one owner per club id, `transfer_ownership`, `cancel_membership` and the
/// expiry run also keep the memberships matching the members lists.
pub proof fn law_member_lists_match_with_one_owner(
    s: PalletState,
    origin: Origin,
    owner: u64,
    member: u64,
    club_id: u64,
    amount: u128,
    n: u64,
    now: u64,
    paid: Paid,
    answers: Seq<Paid>,
)
    requires
        members_match(s),
        one_owner(s.clubs),
    ensures
        members_match(transfer_ownership_effect(s, origin, owner, amount, club_id, paid).0),
        members_match(cancel_membership_effect(s, origin, member, club_id).0),
        members_match(membership_expired_effect(s, n, now, answers).0),
{
    let (t, r) = transfer_ownership_effect(s, origin, owner, amount, club_id, paid);
    if r is Ok {
        let o0 = origin->Signed_0;
        assert(s.clubs.contains_key((o0, club_id)));
        assert forall|k: (u64, u64)| #[trigger] t.clubs.contains_key(k) implies t.clubs[k].members.no_duplicates() by {
            if k != (owner, club_id) {
                assert(s.clubs.contains_key(k));
            }
        }
        assert forall|k: (u64, u64), m: u64|
            #![trigger t.clubs[k].members.contains(m)]
            t.clubs.contains_key(k) && t.clubs[k].members.contains(m) implies t.membership.contains_key((m, k.1)) by {
            if k != (owner, club_id) {
                assert(s.clubs.contains_key(k));
            }
        }
        assert forall|key: (u64, u64)| #[trigger] t.membership.contains_key(key) implies exists|o: u64|
            #[trigger] t.clubs.contains_key((o, key.1)) && t.clubs[(o, key.1)].members.contains(key.0) by {
            let o = choose|o: u64| #[trigger] s.clubs.contains_key((o, key.1)) && s.clubs[(o, key.1)].members.contains(key.0);
            if (o, key.1) == (o0, club_id) {
                assert(t.clubs.contains_key((owner, key.1)) && t.clubs[(owner, key.1)].members.contains(key.0));
            } else if (o, key.1) == (owner, club_id) {
                assert(o == o0);
            } else {
                assert(t.clubs.contains_key((o, key.1)));
            }
        }
    }
    let (t, r) = cancel_membership_effect(s, origin, member, club_id);
    if r is Ok {
        let o0 = origin->Signed_0;
        let club = s.clubs[(o0, club_id)];
        if club.members.contains(member) {
            club.members.index_of_first_ensures(member);
            let i = club.members.index_of_first(member)->0;
            lemma_remove_unique(club.members, i, member);
        }
        assert forall|k: (u64, u64)| #[trigger] t.clubs.contains_key(k) implies t.clubs[k].members.no_duplicates() by {
            assert(s.clubs.contains_key(k));
        }
        assert forall|k: (u64, u64), m: u64|
            #![trigger t.clubs[k].members.contains(m)]
            t.clubs.contains_key(k) && t.clubs[k].members.contains(m) implies t.membership.contains_key((m, k.1)) by {
            assert(s.clubs.contains_key(k));
            if k.1 == club_id {
                assert(k.0 == o0);
            }
        }
        assert forall|key: (u64, u64)| #[trigger] t.membership.contains_key(key) implies exists|o: u64|
            #[trigger] t.clubs.contains_key((o, key.1)) && t.clubs[(o, key.1)].members.contains(key.0) by {
            let o = choose|o: u64| #[trigger] s.clubs.contains_key((o, key.1)) && s.clubs[(o, key.1)].members.contains(key.0);
            assert(t.clubs.contains_key((o, key.1)));
            if (o, key.1) == (o0, club_id) {
                assert(key.0 != member);
            }
            assert(t.clubs[(o, key.1)].members.contains(key.0));
        }
    }
    if s.expired_on.contains_key(n) {
        let s1 = PalletState { expired_on: s.expired_on.remove(n), ..s };
        lemma_expiry_keeps_shape(s1, s.expired_on[n], 0, n, now, answers);
        let t = membership_expired_effect(s, n, now, answers).0;
        lemma_members_match_frame(s, t);
    }
}

} // verus!
