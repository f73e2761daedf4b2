use vstd::prelude::*;

use crate::calls::{expiration, membership_fee, period_blocks};
use crate::dispatch::{CallError, DispatchResult, Error, Event, Payment};
use crate::pallet::{schedule, Paid, Pallet, PalletState};
use crate::search::Entry;
use crate::types::MemberShipData;

verus! {

/// The renewal of `entry` = (member, club id, owner) for `years` years stays within its
/// integer types and finds its club (where it does not, it panics).
pub open spec fn renewal_safe(s: PalletState, entry: Entry, years: u32, now: u64) -> bool {
    &&& s.clubs.contains_key((entry.2, entry.1))
    &&& period_blocks(s, years) <= u64::MAX
    &&& now + period_blocks(s, years) <= u64::MAX
    &&& membership_fee(s.clubs[(entry.2, entry.1)].annual_expences, years) <= u128::MAX
}

/// The payment a renewal asks for: the member pays the owner the annual expences of the
/// club for each year of the period.
pub open spec fn renewal_payment(s: PalletState, entry: Entry, years: u32) -> Payment {
    Payment {
        from: entry.0,
        to: entry.2,
        amount: membership_fee(s.clubs[(entry.2, entry.1)].annual_expences, years) as u128,
    }
}

/// The state after the renewal of `entry`, given what the currency answered: when paid,
/// the entry is scheduled `years` years after `now`, and the membership, if it exists,
/// expires then.
pub open spec fn renewal_effect(s: PalletState, entry: Entry, years: u32, now: u64, paid: Paid) -> PalletState {
    match paid {
        Err(_) => s,
        Ok(_) => {
            let expires = expiration(s, years, now);
            let key = (entry.0, entry.1);
            let scheduled = PalletState { expired_on: schedule(s.expired_on, expires, entry), ..s };
            if s.membership.contains_key(key) {
                PalletState {
                    membership: s.membership.insert(key, MemberShipData { expired_on: expires, ..s.membership[key] }),
                    events: s.events.push(Event::MemberShipRenewed(entry.0, entry.1)),
                    ..scheduled
                }
            } else {
                scheduled
            }
        },
    }
}

/// What the renewal of `entry` answers, given what the currency answered.
pub open spec fn renewal_result(s: PalletState, entry: Entry, paid: Paid) -> DispatchResult {
    match paid {
        Err(e) => Err(CallError::Currency(e)),
        Ok(_) => if s.membership.contains_key((entry.0, entry.1)) {
            Ok(())
        } else {
            Err(CallError::Module(Error::MemberShipDoesNotExist))
        },
    }
}

/// Going through `entries` from index `i` on, at block `n`: an entry whose membership no
/// longer exists is skipped; a membership that expires at `n` is renewed, with the answer
/// `paid[i]` of the currency; the others are left alone.
pub open spec fn expiry_from(
    s: PalletState,
    entries: Seq<Entry>,
    i: int,
    n: u64,
    now: u64,
    paid: Seq<Paid>,
) -> (PalletState, DispatchResult)
    decreases entries.len() - i,
{
    if i >= entries.len() {
        (s, Ok(()))
    } else {
        let entry = entries[i];
        let key = (entry.0, entry.1);
        if !s.membership.contains_key(key) {
            expiry_from(s, entries, i + 1, n, now, paid)
        } else if s.membership[key].expired_on == n {
            expiry_from(
                renewal_effect(s, entry, s.membership[key].membership_period_in_years, now, paid[i]),
                entries,
                i + 1,
                n,
                now,
                paid,
            )
        } else {
            expiry_from(s, entries, i + 1, n, now, paid)
        }
    }
}

/// The answers `paid` are answers that `pay` may give to the transfers that the run
/// through `entries` from index `i` on asks for: each renewal it makes asks `pay` for
/// the payment of that renewal, in the state the run has reached.
pub open spec fn answered_from<F: Fn(u64, u64, u128) -> Paid>(
    pay: F,
    s: PalletState,
    entries: Seq<Entry>,
    i: int,
    n: u64,
    now: u64,
    paid: Seq<Paid>,
) -> bool
    decreases entries.len() - i,
{
    if i >= entries.len() {
        true
    } else {
        let entry = entries[i];
        let key = (entry.0, entry.1);
        if s.membership.contains_key(key) && s.membership[key].expired_on == n {
            let years = s.membership[key].membership_period_in_years;
            let p = renewal_payment(s, entry, years);
            &&& call_ensures(pay, (p.from, p.to, p.amount), paid[i])
            &&& answered_from(pay, renewal_effect(s, entry, years, now, paid[i]), entries, i + 1, n, now, paid)
        } else {
            answered_from(pay, s, entries, i + 1, n, now, paid)
        }
    }
}

/// The answers `paid` are answers that `pay` may give to the transfers that
/// `membership_expired` at block `n` asks for.
pub open spec fn membership_expired_answered<F: Fn(u64, u64, u128) -> Paid>(
    pay: F,
    s: PalletState,
    n: u64,
    now: u64,
    paid: Seq<Paid>,
) -> bool {
    s.expired_on.contains_key(n) ==> answered_from(
        pay,
        PalletState { expired_on: s.expired_on.remove(n), ..s },
        s.expired_on[n],
        0,
        n,
        now,
        paid,
    )
}

/// Every renewal that a run through `entries` from index `i` on may reach is safe,
/// whatever the currency answers.
pub open spec fn expiry_safe_from(s: PalletState, entries: Seq<Entry>, i: int, n: u64, now: u64) -> bool
    decreases entries.len() - i,
{
    if i >= entries.len() {
        true
    } else {
        let entry = entries[i];
        let key = (entry.0, entry.1);
        if !s.membership.contains_key(key) {
            expiry_safe_from(s, entries, i + 1, n, now)
        } else {
            &&& (s.membership[key].expired_on == n ==> renewal_safe(
                s,
                entry,
                s.membership[key].membership_period_in_years,
                now,
            ))
            &&& expiry_safe_from(s, entries, i + 1, n, now)
        }
    }
}

/// `membership_expired` at block `n` cannot panic, whatever the currency answers.
pub open spec fn membership_expired_safe(s: PalletState, n: u64, now: u64) -> bool {
    s.expired_on.contains_key(n) ==> expiry_safe_from(s, s.expired_on[n], 0, n, now)
}

/// The state and the result of `membership_expired` at block `n`, given the answers of
/// the currency to the renewals (the answer to the renewal of the entry at index `i` of
/// the schedule is `paid[i]`).
pub open spec fn membership_expired_effect(s: PalletState, n: u64, now: u64, paid: Seq<Paid>) -> (PalletState, DispatchResult) {
    if !s.expired_on.contains_key(n) {
        (s, Err(CallError::Module(Error::NotAExpirationTime)))
    } else {
        expiry_from(PalletState { expired_on: s.expired_on.remove(n), ..s }, s.expired_on[n], 0, n, now, paid)
    }
}

/// What a run may change keeps what the safety of its renewals depends on: the same
/// clubs and constants, the same memberships with the same periods, and a membership
/// expires at `n` only if it did so before the run.
pub open spec fn run_keeps(before: PalletState, now_state: PalletState, n: u64) -> bool {
    &&& now_state.config == before.config
    &&& now_state.clubs == before.clubs
    &&& now_state.membership.dom() == before.membership.dom()
    &&& forall|k: (u64, u64)| #[trigger] now_state.membership.contains_key(k) ==> {
        &&& now_state.membership[k].membership_period_in_years == before.membership[k].membership_period_in_years
        &&& (now_state.membership[k].expired_on == n ==> before.membership[k].expired_on == n)
    }
}

/// Whether the renewals of a run are safe does not depend on the expiry schedule.
pub proof fn lemma_safety_ignores_schedule(s: PalletState, t: PalletState, entries: Seq<Entry>, i: int, n: u64, now: u64)
    requires
        t.config == s.config,
        t.clubs == s.clubs,
        t.membership == s.membership,
    ensures
        expiry_safe_from(s, entries, i, n, now) == expiry_safe_from(t, entries, i, n, now),
    decreases entries.len() - i,
{
    if i < entries.len() {
        lemma_safety_ignores_schedule(s, t, entries, i + 1, n, now);
    }
}

impl Pallet {
    /// The payment the renewal of `entry` asks for.
    fn renew_membership_payment(&self, entry: Entry, years: u32) -> (p: Payment)
        requires
            self@.clubs.contains_key((entry.2, entry.1)),
            membership_fee(self@.clubs[(entry.2, entry.1)].annual_expences, years) <= u128::MAX,
        ensures
            p == renewal_payment(self@, entry, years),
    {
        let club = self.get_club(entry.2, entry.1).unwrap();
        Payment { from: entry.0, to: entry.2, amount: club.annual_expences * (years as u128) }
    }

    /// The renewal of `entry` once the currency has answered `paid`.
    fn renew_membership_with(&mut self, entry: Entry, years: u32, now: u64, paid: Paid) -> (r: DispatchResult)
        requires
            period_blocks(old(self)@, years) <= u64::MAX,
            now + period_blocks(old(self)@, years) <= u64::MAX,
        ensures
            final(self)@ == renewal_effect(old(self)@, entry, years, now, paid),
            r == renewal_result(old(self)@, entry, paid),
    {
        let ghost s = self@;
        match paid {
            Err(e) => return Err(CallError::Currency(e)),
            Ok(_) => {},
        }
        let block_number_years: u64 = (years as u64) * self.config().unit_membership_period;
        let expires: u64 = now + block_number_years;
        self.append_expiring(expires, entry);
        self.mutate_membership(entry.0, entry.1, expires)
    }

    /// Sets when the membership `(member, club_id)` expires, as a renewal does; a missing
    /// membership is an error and changes nothing.
    fn mutate_membership(&mut self, member: u64, club_id: u64, new_expiration_period: u64) -> (r: DispatchResult)
        ensures
            !old(self)@.membership.contains_key((member, club_id)) ==> r == Err::<(), CallError>(
                CallError::Module(Error::MemberShipDoesNotExist),
            ) && final(self)@ == old(self)@,
            old(self)@.membership.contains_key((member, club_id)) ==> r == Ok::<(), CallError>(()) && final(self)@ == (PalletState {
                membership: old(self)@.membership.insert(
                    (member, club_id),
                    MemberShipData { expired_on: new_expiration_period, ..old(self)@.membership[(member, club_id)] },
                ),
                events: old(self)@.events.push(Event::MemberShipRenewed(member, club_id)),
                ..old(self)@
            }),
    {
        let mut data = match self.get_membership(member, club_id) {
            Some(d) => d,
            None => return Err(CallError::Module(Error::MemberShipDoesNotExist)),
        };
        data.expired_on = new_expiration_period;
        self.put_membership(member, club_id, data);
        self.deposit_event(Event::MemberShipRenewed(member, club_id));
        Ok(())
    }

    /// The memberships scheduled to expire at `block_number` are renewed: each member pays
    /// its owner for another period, unless it changed when it expires; entries whose
    /// membership is gone are dropped. `now` is the current block; `pay(from, to, amount)`
    /// makes each transfer in the runtime's currency.
    pub fn membership_expired<F: Fn(u64, u64, u128) -> Paid>(&mut self, pay: F, block_number: u64, now: u64) -> (r: DispatchResult)
        requires
            membership_expired_safe(old(self)@, block_number, now),
            forall|from: u64, to: u64, amount: u128| #[trigger] call_requires(pay, (from, to, amount)),
        ensures
            exists|paid: Seq<Paid>|
                membership_expired_answered(pay, old(self)@, block_number, now, paid) && (final(self)@, r)
                    == #[trigger] membership_expired_effect(old(self)@, block_number, now, paid),
    {
        let ghost s0 = self@;
        let scheduled = match self.take_expiring(block_number) {
            None => {
                assert(self@.expired_on =~= s0.expired_on);
                assert(self@ == s0);
                assert((self@, Err::<(), CallError>(CallError::Module(Error::NotAExpirationTime)))
                    == membership_expired_effect(s0, block_number, now, Seq::empty()));
                return Err(CallError::Module(Error::NotAExpirationTime));
            },
            Some(v) => v,
        };
        let ghost s1 = self@;
        let ghost list = scheduled@;
        let ghost mut answers: Seq<Paid> = Seq::empty();
        assert(s1.membership =~= s0.membership);
        proof {
            lemma_safety_ignores_schedule(s0, s1, list, 0, block_number, now);
        }
        let mut i: usize = 0;
        while i < scheduled.len()
            invariant
                i <= scheduled.len(),
                list == scheduled@,
                answers.len() == i,
                s1 == (PalletState { expired_on: s0.expired_on.remove(block_number), ..s0 }),
                s0 == old(self)@,
                s0.expired_on.contains_key(block_number),
                list == s0.expired_on[block_number],
                expiry_safe_from(s1, list, i as int, block_number, now),
                run_keeps(s1, self@, block_number),
                forall|from: u64, to: u64, amount: u128| #[trigger] call_requires(pay, (from, to, amount)),
                forall|o: Seq<Paid>|
                    o.len() >= i && (forall|j: int| 0 <= j < i ==> o[j] == answers[j]) ==> {
                        &&& #[trigger] expiry_from(s1, list, 0, block_number, now, o)
                            == expiry_from(self@, list, i as int, block_number, now, o)
                        &&& answered_from(pay, s1, list, 0, block_number, now, o)
                            == answered_from(pay, self@, list, i as int, block_number, now, o)
                    },
            decreases scheduled.len() - i,
        {
            let entry = scheduled[i];
            let ghost before = self@;
            let ghost old_answers = answers;
            match self.get_membership(entry.0, entry.1) {
                None => {
                    proof {
                        answers = answers.push(Ok(()));
                    }
                },
                Some(data) => {
                    if data.expired_on == block_number {
                        let years = data.membership_period_in_years;
                        assert(renewal_safe(self@, entry, years, now));
                        let payment = self.renew_membership_payment(entry, years);
                        let paid = pay(payment.from, payment.to, payment.amount);
                        let _ = self.renew_membership_with(entry, years, now, paid);
                        proof {
                            answers = answers.push(paid);
                            assert(self@.membership.dom() =~= before.membership.dom());
                            assert forall|k: (u64, u64)| #[trigger] self@.membership.contains_key(k) implies {
                                &&& self@.membership[k].membership_period_in_years == s1.membership[k].membership_period_in_years
                                &&& (self@.membership[k].expired_on == block_number ==> s1.membership[k].expired_on == block_number)
                            } by {
                                assert(before.membership.contains_key(k));
                            }
                        }
                    } else {
                        proof {
                            answers = answers.push(Ok(()));
                        }
                    }
                },
            }
            proof {
                assert forall|o: Seq<Paid>|
                    o.len() >= i + 1 && (forall|j: int| 0 <= j < i + 1 ==> o[j] == answers[j]) implies {
                        &&& #[trigger] expiry_from(s1, list, 0, block_number, now, o)
                            == expiry_from(self@, list, i + 1, block_number, now, o)
                        &&& answered_from(pay, s1, list, 0, block_number, now, o)
                            == answered_from(pay, self@, list, i + 1, block_number, now, o)
                    } by {
                    assert forall|j: int| 0 <= j < i implies o[j] == old_answers[j] by {
                        assert(o[j] == answers[j]);
                    }
                    assert(o[i as int] == answers[i as int]);
                    assert(expiry_from(s1, list, 0, block_number, now, o)
                        == expiry_from(before, list, i as int, block_number, now, o));
                    assert(answered_from(pay, s1, list, 0, block_number, now, o)
                        == answered_from(pay, before, list, i as int, block_number, now, o));
                }
            }
            i = i + 1;
        }
        assert(expiry_from(s1, list, 0, block_number, now, answers) == expiry_from(self@, list, i as int, block_number, now, answers));
        assert(answered_from(pay, s1, list, 0, block_number, now, answers));
        assert((self@, Ok::<(), CallError>(())) == membership_expired_effect(s0, block_number, now, answers));
        Ok(())
    }

    /// At the start of block `n`: for any block but the first, the memberships that expire
    /// at `n` are renewed. Returns whether
    /// that was done, so that the runtime can charge its weight.
    pub fn on_initialize<F: Fn(u64, u64, u128) -> Paid>(&mut self, pay: F, n: u64) -> (ran: bool)
        requires
            n > 0 ==> membership_expired_safe(old(self)@, n, n),
            forall|from: u64, to: u64, amount: u128| #[trigger] call_requires(pay, (from, to, amount)),
        ensures
            ran == (n > 0),
            n == 0 ==> final(self)@ == old(self)@,
            n > 0 ==> exists|paid: Seq<Paid>|
                membership_expired_answered(pay, old(self)@, n, n, paid)
                    && final(self)@ == (#[trigger] membership_expired_effect(old(self)@, n, n, paid)).0,
    {
        if n > 0 {
            let _ = self.membership_expired(pay, n, n);
            true
        } else {
            false
        }
    }
}

} // verus!
