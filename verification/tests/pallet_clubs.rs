use std::cell::RefCell;
use std::collections::HashMap;

use pallet_clubs::{CallError, ClubsOf, Config, Error, Event, MemberShipData, Origin, Pallet};
use sp_runtime::{DispatchError, TokenError};

const UNITS: u128 = 100_000_000;
const ALICE: u64 = 1;
const BOB: u64 = 2;
const CHARLIE: u64 = 3;
const SECS_PER_BLOCK: u64 = 6;
const SECS_PER_YEAR: u64 = 31_557_600;
const YEARS: u64 = SECS_PER_YEAR / SECS_PER_BLOCK;

/// A ledger of balances standing for the runtime's currency.
struct Balances {
    free: RefCell<HashMap<u64, u128>>,
}

impl Balances {
    fn genesis() -> Balances {
        let mut free = HashMap::new();
        free.insert(ALICE, 100_000 * UNITS);
        free.insert(BOB, 200_000 * UNITS);
        free.insert(CHARLIE, 300_000 * UNITS);
        Balances { free: RefCell::new(free) }
    }

    fn total_balance(&self, who: u64) -> u128 {
        *self.free.borrow().get(&who).unwrap_or(&0)
    }

    fn set_balance(&self, who: u64, amount: u128) {
        self.free.borrow_mut().insert(who, amount);
    }

    fn transfer(&self, source: u64, dest: u64, value: u128) -> Result<(), DispatchError> {
        if value == 0 || source == dest {
            return Ok(());
        }
        let from = self.total_balance(source);
        if from < value {
            return Err(DispatchError::Token(TokenError::FundsUnavailable));
        }
        self.set_balance(source, from - value);
        let to = self.total_balance(dest);
        self.set_balance(dest, to + value);
        Ok(())
    }

    /// The transfer of this ledger, as the pallet's calls take it.
    fn pay(&self) -> impl Fn(u64, u64, u128) -> Result<(), DispatchError> + '_ {
        move |source, dest, value| self.transfer(source, dest, value)
    }

    fn all(&self) -> Vec<(u64, u128)> {
        let mut all: Vec<(u64, u128)> = self.free.borrow().iter().map(|(k, v)| (*k, *v)).collect();
        all.sort();
        all
    }
}

/// Everything that a call can change, as far as the reads show it: the clubs, memberships
/// and schedule for the accounts and ids of these tests, the events, the next club id and
/// every balance.
#[derive(Debug, PartialEq)]
struct Snapshot {
    clubs: Vec<Result<ClubsOf, Error>>,
    memberships: Vec<Result<MemberShipData<u64>, Error>>,
    schedule: Vec<Result<Vec<(u64, u64, u64)>, Error>>,
    events: Vec<Event>,
    next_club_id: u64,
    balances: Vec<(u64, u128)>,
}

/// The blocks at which a membership made at one of `nows` may expire.
fn blocks_from(nows: &[u64]) -> Vec<u64> {
    let mut blocks = Vec::new();
    for now in nows {
        for years in 0..=200u64 {
            blocks.push(now + years * YEARS);
        }
    }
    blocks
}

fn snapshot(clubs: &Pallet, balances: &Balances, blocks: &[u64]) -> Snapshot {
    let accounts = [ALICE, BOB, CHARLIE];
    let mut club_reads = Vec::new();
    let mut membership_reads = Vec::new();
    for who in accounts {
        for id in 0..=3u64 {
            club_reads.push(clubs.read_clubs(who, id));
            membership_reads.push(clubs.read_membership((who, id)));
        }
    }
    Snapshot {
        clubs: club_reads,
        memberships: membership_reads,
        schedule: blocks.iter().map(|b| clubs.read_expired_on(*b)).collect(),
        events: clubs.events(),
        next_club_id: clubs.next_club_id(),
        balances: balances.all(),
    }
}

fn mock_config() -> Config {
    Config {
        fees_to_create_club: UNITS,
        fee_collector: *b"py/clubc",
        max_membership_period: 100 * YEARS,
        unit_membership_period: YEARS,
    }
}

fn membership_expire_period_test(membership_period_in_years: u32, block_number_now: u64) -> u64 {
    let years: u64 = membership_period_in_years.into();
    block_number_now + years * YEARS
}

fn setup() -> (Pallet, Balances) {
    (Pallet::new(mock_config()), Balances::genesis())
}

#[test]
fn create_club_works() {
    let (mut clubs, balances) = setup();
    let now = 1;
    let annual_expences_of_club_1: u128 = 1000;
    assert_eq!(clubs.create_club(balances.pay(), Origin::Root, BOB, annual_expences_of_club_1, now), Ok(()));
    let bob_club_1 = clubs.read_clubs(BOB, 1).unwrap();
    assert_eq!(bob_club_1.members.len(), 0);
    assert_eq!(bob_club_1.annual_expences, 1000);
    assert_eq!(balances.total_balance(clubs.fee_collector_id()), 100000000);

    let annual_expences_of_club_2: u128 = 2000;
    assert_eq!(clubs.create_club(balances.pay(), Origin::Root, BOB, annual_expences_of_club_2, now), Ok(()));
    assert_eq!(balances.total_balance(clubs.fee_collector_id()), 200000000);
    let bob_club_2 = clubs.read_clubs(BOB, 2).unwrap();
    assert_eq!(bob_club_2.members.len(), 0);
    assert_eq!(bob_club_2.annual_expences, 2000);

    let charlie_club_annual_expence = 3000;
    assert_eq!(clubs.create_club(balances.pay(), Origin::Root, CHARLIE, charlie_club_annual_expence, now), Ok(()));
    assert_eq!(balances.total_balance(clubs.fee_collector_id()), 300000000);
    let charlie_club_1 = clubs.read_clubs(CHARLIE, 3).unwrap();
    assert_eq!(charlie_club_1.members.len(), 0);
    assert_eq!(charlie_club_1.annual_expences, 3000);
}

#[test]
fn add_member_works() {
    let (mut clubs, balances) = setup();
    let annual_expences_of_club_1: u128 = 1000;
    assert_eq!(clubs.create_club(balances.pay(), Origin::Root, BOB, annual_expences_of_club_1, 1), Ok(()));

    let alice_membership_period: u32 = 1;
    let now = 10;
    let alices_membership_expiration_period = membership_expire_period_test(alice_membership_period, 10);
    let _bobclub = clubs.read_clubs(BOB, 1).unwrap();
    let club_id: u64 = 1;
    assert_eq!(
        clubs.add_members(balances.pay(), Origin::Signed(BOB), ALICE, club_id, alice_membership_period, now),
        Ok(())
    );
    let key = (ALICE, club_id);
    let alice_membership_data = clubs.read_membership(key).unwrap();
    assert_eq!(alice_membership_data.membership_period_in_years, alice_membership_period);
    assert_eq!(alice_membership_data.expired_on, alices_membership_expiration_period);
    let expired_on = clubs.read_expired_on(alices_membership_expiration_period).unwrap();
    assert_eq!(expired_on.contains(&(ALICE, club_id, BOB)), true);
    let bobclub = clubs.read_clubs(BOB, 1).unwrap();
    assert_eq!(bobclub.members.len(), 1);
    assert_eq!(bobclub.members[0], ALICE);

    let blocks = blocks_from(&[1, 10, 20]);
    let before = snapshot(&clubs, &balances, &blocks);
    assert_eq!(
        clubs.add_members(balances.pay(), Origin::Signed(BOB), ALICE, 1, alice_membership_period, now),
        Err(CallError::Module(Error::MemberAlreadyExist))
    );
    assert_eq!(snapshot(&clubs, &balances, &blocks), before);
    assert_eq!(clubs.read_clubs(BOB, 1).unwrap().members, vec![ALICE]);

    let charlies_membership_period: u32 = 2;
    let now = 20;
    let charlies_expiration_period = membership_expire_period_test(charlies_membership_period, 20);
    assert_eq!(
        clubs.add_members(balances.pay(), Origin::Signed(BOB), CHARLIE, club_id, charlies_membership_period, now),
        Ok(())
    );
    let key = (CHARLIE, club_id);
    let charlie_membership_data = clubs.read_membership(key).unwrap();
    assert_eq!(charlie_membership_data.membership_period_in_years, charlies_membership_period);
    assert_eq!(charlie_membership_data.expired_on, charlies_expiration_period);
    let bobclub = clubs.read_clubs(BOB, 1).unwrap();
    assert_eq!(bobclub.members.len(), 2);
    assert_eq!(bobclub.members[1], CHARLIE);
    assert_eq!(bobclub.members[0], ALICE);
}

#[test]
fn transfer_ownership_works() {
    let (mut clubs, balances) = setup();
    let now = 1;
    let annual_expences_of_club_1: u128 = 1000;
    let club_id = 1;
    assert_eq!(clubs.create_club(balances.pay(), Origin::Root, BOB, annual_expences_of_club_1, now), Ok(()));
    let fees: u128 = 100000;
    assert_eq!(clubs.transfer_ownership(balances.pay(), Origin::Signed(BOB), ALICE, fees, club_id), Ok(()));
    assert_eq!(clubs.read_clubs(BOB, club_id).is_err(), true);
    let blocks = blocks_from(&[now]);
    let before = snapshot(&clubs, &balances, &blocks);
    assert_eq!(
        clubs.add_members(balances.pay(), Origin::Signed(BOB), CHARLIE, club_id, 1, now),
        Err(CallError::Module(Error::ClubDoesNotExistORWrongOwner))
    );
    assert_eq!(snapshot(&clubs, &balances, &blocks), before);
    assert_eq!(clubs.add_members(balances.pay(), Origin::Signed(ALICE), CHARLIE, club_id, 1, now), Ok(()));
    let before = snapshot(&clubs, &balances, &blocks);
    assert_eq!(
        clubs.transfer_ownership(balances.pay(), Origin::Signed(BOB), ALICE, fees, club_id),
        Err(CallError::Module(Error::ClubDoesNotExistORWrongOwner))
    );
    assert_eq!(snapshot(&clubs, &balances, &blocks), before);
    let new_annual_expence = 10000;
    assert_eq!(
        clubs.set_the_annual_expences(Origin::Signed(BOB), new_annual_expence, club_id),
        Err(CallError::Module(Error::ClubDoesNotExistORWrongOwner))
    );
    assert_eq!(snapshot(&clubs, &balances, &blocks), before);
    assert_eq!(clubs.set_the_annual_expences(Origin::Signed(ALICE), new_annual_expence, club_id), Ok(()));
    let alice_club = clubs.read_clubs(ALICE, club_id).unwrap();
    assert_eq!(alice_club.annual_expences, new_annual_expence);
}

#[test]
fn set_annual_expences_works() {
    let (mut clubs, balances) = setup();
    let annual_expences_of_club_1: u128 = 1000;
    let club_id = 1;
    assert_eq!(clubs.create_club(balances.pay(), Origin::Root, BOB, annual_expences_of_club_1, 1), Ok(()));
    let club = clubs.read_clubs(BOB, 1).unwrap();
    assert_eq!(club.annual_expences, annual_expences_of_club_1);
    let new_annual_expence = 10000;
    assert_eq!(clubs.set_the_annual_expences(Origin::Signed(BOB), new_annual_expence, club_id), Ok(()));
    let club = clubs.read_clubs(BOB, 1).unwrap();
    assert_eq!(club.annual_expences, new_annual_expence);
    let blocks = blocks_from(&[1]);
    let before = snapshot(&clubs, &balances, &blocks);
    assert_eq!(
        clubs.set_the_annual_expences(Origin::Signed(ALICE), new_annual_expence, club_id),
        Err(CallError::Module(Error::ClubDoesNotExistORWrongOwner))
    );
    assert_eq!(snapshot(&clubs, &balances, &blocks), before);
}

#[test]
fn renewal_of_membership_works() {
    let (mut clubs, balances) = setup();
    let annual_expences_of_club_1: u128 = 3000;
    assert_eq!(clubs.create_club(balances.pay(), Origin::Root, BOB, annual_expences_of_club_1, 1), Ok(()));
    let alice_membership_period: u32 = 3;
    let _bobclub = clubs.read_clubs(BOB, 1).unwrap();
    let club_id: u64 = 1;
    let now = 10;
    let test_expiration_period = membership_expire_period_test(alice_membership_period, 10);
    assert_eq!(
        clubs.add_members(balances.pay(), Origin::Signed(BOB), ALICE, club_id, alice_membership_period, now),
        Ok(())
    );
    let key = (ALICE, club_id);
    let alice_membership_data = clubs.read_membership(key).unwrap();
    assert_eq!(alice_membership_data.membership_period_in_years, alice_membership_period);
    let expired_on = clubs.read_expired_on(test_expiration_period).unwrap();
    assert_eq!(alice_membership_data.expired_on, test_expiration_period);
    assert_eq!(expired_on.contains(&(ALICE, club_id, BOB)), true);

    let now = test_expiration_period;
    assert_eq!(clubs.membership_expired(balances.pay(), test_expiration_period, now), Ok(()));
    let new_test_expiration_time =
        membership_expire_period_test(alice_membership_data.membership_period_in_years, test_expiration_period);
    let expired_on = clubs.read_expired_on(new_test_expiration_time).unwrap();
    assert_eq!(expired_on.contains(&(ALICE, club_id, BOB)), true);
}

#[test]
fn cancel_membership_works() {
    let (mut clubs, balances) = setup();
    let club_id: u64 = 1;
    let annual_expences_of_club_1: u128 = 1000;
    assert_eq!(clubs.create_club(balances.pay(), Origin::Root, BOB, annual_expences_of_club_1, 1), Ok(()));
    let alice_membership_period: u32 = 1;
    assert_eq!(
        clubs.add_members(balances.pay(), Origin::Signed(BOB), ALICE, club_id, alice_membership_period, 1),
        Ok(())
    );
    let key = (ALICE, club_id);
    let alice_membership_data = clubs.read_membership(key).unwrap();
    let expired_on = clubs.read_expired_on(alice_membership_data.expired_on).unwrap();
    assert_eq!(expired_on.contains(&(ALICE, club_id, BOB)), true);
    assert_eq!(clubs.cancel_membership(Origin::Signed(BOB), ALICE, club_id), Ok(()));
    assert_eq!(clubs.read_membership(key).is_err(), true);
    let expired_on = clubs.read_expired_on(alice_membership_data.expired_on).unwrap();
    assert_eq!(expired_on.contains(&(ALICE, club_id, BOB)), false);
}

#[test]
fn update_membership_period_works() {
    let (mut clubs, balances) = setup();
    let annual_expences_of_club_1: u128 = 1000;
    assert_eq!(clubs.create_club(balances.pay(), Origin::Root, BOB, annual_expences_of_club_1, 1), Ok(()));
    let alice_membership_period: u32 = 1;
    let _bobclub = clubs.read_clubs(BOB, 1).unwrap();
    let club_id: u64 = 1;
    assert_eq!(
        clubs.add_members(balances.pay(), Origin::Signed(BOB), ALICE, club_id, alice_membership_period, 1),
        Ok(())
    );
    let key = (ALICE, club_id);
    let alice_membership_data = clubs.read_membership(key).unwrap();
    assert_eq!(alice_membership_data.membership_period_in_years, alice_membership_period);
    let new_membership_period = 3_u32;
    assert_eq!(clubs.update_membership_period(Origin::Signed(ALICE), club_id, new_membership_period), Ok(()));
    let key = (ALICE, club_id);
    let alice_membership_data = clubs.read_membership(key).unwrap();
    assert_eq!(alice_membership_data.membership_period_in_years, new_membership_period);
}

// ---- further cases ----

#[test]
fn fee_collector_is_the_pallet_account() {
    let (clubs, _) = setup();
    assert_eq!(clubs.fee_collector_id(), u64::from_le_bytes(*b"modlpy/c"));
    assert_ne!(clubs.fee_collector_id(), u64::from_le_bytes(*b"py/clubc"));
}

#[test]
fn only_root_creates_clubs() {
    let (mut clubs, balances) = setup();
    assert_eq!(clubs.create_club(balances.pay(), Origin::Signed(BOB), BOB, 1000, 1), Err(CallError::BadOrigin));
    assert_eq!(clubs.create_club(balances.pay(), Origin::Unsigned, BOB, 1000, 1), Err(CallError::BadOrigin));
    assert_eq!(clubs.next_club_id(), 0);
    assert!(clubs.read_clubs(BOB, 1).is_err());
    assert_eq!(balances.total_balance(BOB), 200_000 * UNITS);
}

#[test]
fn unsigned_calls_are_refused() {
    let (mut clubs, balances) = setup();
    assert_eq!(clubs.create_club(balances.pay(), Origin::Root, BOB, 1000, 1), Ok(()));
    let blocks = blocks_from(&[1]);
    let before = snapshot(&clubs, &balances, &blocks);
    assert_eq!(clubs.set_the_annual_expences(Origin::Root, 5, 1), Err(CallError::BadOrigin));
    assert_eq!(clubs.transfer_ownership(balances.pay(), Origin::Unsigned, ALICE, 5, 1), Err(CallError::BadOrigin));
    assert_eq!(clubs.add_members(balances.pay(), Origin::Root, ALICE, 1, 1, 1), Err(CallError::BadOrigin));
    assert_eq!(clubs.update_membership_period(Origin::Unsigned, 1, 2), Err(CallError::BadOrigin));
    assert_eq!(clubs.cancel_membership(Origin::Root, ALICE, 1), Err(CallError::BadOrigin));
    assert_eq!(snapshot(&clubs, &balances, &blocks), before);
}

#[test]
fn creation_fee_refused_by_currency() {
    let (mut clubs, balances) = setup();
    let poor: u64 = 9;
    let events_before = clubs.events();
    assert_eq!(
        clubs.create_club(balances.pay(), Origin::Root, poor, 1000, 1),
        Err(CallError::Currency(DispatchError::Token(TokenError::FundsUnavailable)))
    );
    assert_eq!(clubs.next_club_id(), 0);
    assert_eq!(clubs.events(), events_before);
    assert_eq!(clubs.create_club_payment(Origin::Root, poor).unwrap().to, clubs.fee_collector_id());
}

#[test]
fn club_ids_increase_and_events_are_deposited() {
    let (mut clubs, balances) = setup();
    assert_eq!(clubs.create_club(balances.pay(), Origin::Root, BOB, 7, 4), Ok(()));
    assert_eq!(clubs.create_club(balances.pay(), Origin::Root, ALICE, 8, 5), Ok(()));
    assert_eq!(clubs.next_club_id(), 2);
    let club = clubs.read_clubs(ALICE, 2).unwrap();
    assert_eq!(club.created, 5);
    assert_eq!(
        clubs.events(),
        vec![Event::ClubCreated(BOB, 1, 7), Event::ClubCreated(ALICE, 2, 8)]
    );
}

#[test]
fn membership_period_bounds() {
    let (mut clubs, balances) = setup();
    assert_eq!(clubs.create_club(balances.pay(), Origin::Root, BOB, 1000, 1), Ok(()));
    assert_eq!(
        clubs.add_members(balances.pay(), Origin::Signed(BOB), ALICE, 1, 0, 1),
        Err(CallError::Module(Error::MemeberShipPeriodExceeds))
    );
    assert_eq!(
        clubs.add_members(balances.pay(), Origin::Signed(BOB), ALICE, 1, 101, 1),
        Err(CallError::Module(Error::MemeberShipPeriodExceeds))
    );
    assert!(clubs.read_membership((ALICE, 1)).is_err());
    let alice_before = balances.total_balance(ALICE);
    assert_eq!(clubs.add_members(balances.pay(), Origin::Signed(BOB), ALICE, 1, 100, 1), Ok(()));
    assert_eq!(balances.total_balance(ALICE), alice_before - 100 * 1000);
    assert_eq!(clubs.read_membership((ALICE, 1)).unwrap().expired_on, 1 + 100 * YEARS);
}

#[test]
fn membership_fee_goes_to_owner() {
    let (mut clubs, balances) = setup();
    assert_eq!(clubs.create_club(balances.pay(), Origin::Root, BOB, 250, 1), Ok(()));
    let payment = clubs.add_members_payment(Origin::Signed(BOB), CHARLIE, 1, 4).unwrap();
    assert_eq!((payment.from, payment.to, payment.amount), (CHARLIE, BOB, 1000));
    let bob_before = balances.total_balance(BOB);
    assert_eq!(clubs.add_members(balances.pay(), Origin::Signed(BOB), CHARLIE, 1, 4, 3), Ok(()));
    assert_eq!(balances.total_balance(BOB), bob_before + 1000);
    assert_eq!(clubs.events().last(), Some(&Event::MemberAdded(CHARLIE, 1, 3 + 4 * YEARS)));
}

#[test]
fn adding_at_the_same_block_appends_to_the_schedule() {
    let (mut clubs, balances) = setup();
    assert_eq!(clubs.create_club(balances.pay(), Origin::Root, BOB, 1000, 1), Ok(()));
    assert_eq!(clubs.add_members(balances.pay(), Origin::Signed(BOB), ALICE, 1, 1, 1), Ok(()));
    assert_eq!(clubs.add_members(balances.pay(), Origin::Signed(BOB), CHARLIE, 1, 1, 1), Ok(()));
    assert_eq!(clubs.read_expired_on(5_259_601).unwrap(), vec![(ALICE, 1, BOB), (CHARLIE, 1, BOB)]);
    assert_eq!(clubs.read_membership((ALICE, 1)).unwrap().expired_on, 5_259_601);
    assert_eq!(clubs.read_membership((CHARLIE, 1)).unwrap().expired_on, 5_259_601);
    // both are renewed when they expire
    assert_eq!(clubs.membership_expired(balances.pay(), 5_259_601, 5_259_601), Ok(()));
    assert_eq!(clubs.read_membership((ALICE, 1)).unwrap().expired_on, 5_259_601 + YEARS);
    assert_eq!(clubs.read_membership((CHARLIE, 1)).unwrap().expired_on, 5_259_601 + YEARS);
    assert_eq!(
        clubs.read_expired_on(5_259_601 + YEARS).unwrap(),
        vec![(ALICE, 1, BOB), (CHARLIE, 1, BOB)]
    );
}

#[test]
fn missing_club_and_membership_errors() {
    let (mut clubs, balances) = setup();
    assert_eq!(clubs.read_clubs(BOB, 1).unwrap_err(), Error::ClubDoesNotExistORWrongOwner);
    assert_eq!(clubs.read_membership((ALICE, 1)).unwrap_err(), Error::MemberShipDoesNotExist);
    assert_eq!(clubs.read_expired_on(5).unwrap_err(), Error::NotAExpirationTime);
    assert_eq!(
        clubs.update_membership_period(Origin::Signed(ALICE), 1, 2),
        Err(CallError::Module(Error::MemberShipDoesNotExist))
    );
    assert_eq!(clubs.create_club(balances.pay(), Origin::Root, BOB, 10, 1), Ok(()));
    assert_eq!(
        clubs.cancel_membership(Origin::Signed(BOB), ALICE, 1),
        Err(CallError::Module(Error::MemberShipDoesNotExist))
    );
    assert_eq!(
        clubs.cancel_membership(Origin::Signed(ALICE), ALICE, 1),
        Err(CallError::Module(Error::ClubDoesNotExistORWrongOwner))
    );
    assert_eq!(
        clubs.membership_expired(balances.pay(), 99, 99),
        Err(CallError::Module(Error::NotAExpirationTime))
    );
}

#[test]
fn cancel_after_transfer_unschedules() {
    let (mut clubs, balances) = setup();
    assert_eq!(clubs.create_club(balances.pay(), Origin::Root, BOB, 10, 1), Ok(()));
    assert_eq!(clubs.transfer_ownership(balances.pay(), Origin::Signed(BOB), CHARLIE, 0, 1), Ok(()));
    assert_eq!(clubs.add_members(balances.pay(), Origin::Signed(CHARLIE), ALICE, 1, 1, 2), Ok(()));
    let due = 2 + YEARS;
    // the new owner cancels: the schedule entry names the owner at the time, so it is found
    assert_eq!(clubs.cancel_membership(Origin::Signed(CHARLIE), ALICE, 1), Ok(()));
    assert_eq!(clubs.read_expired_on(due).unwrap(), Vec::<(u64, u64, u64)>::new());
    assert_eq!(clubs.membership_expired(balances.pay(), due, due), Ok(()));
    assert!(clubs.read_expired_on(due).is_err());
}

#[test]
fn renewal_not_paid_leaves_membership() {
    let (mut clubs, balances) = setup();
    assert_eq!(clubs.create_club(balances.pay(), Origin::Root, BOB, 10, 1), Ok(()));
    let member: u64 = 7;
    balances.set_balance(member, 10);
    assert_eq!(clubs.add_members(balances.pay(), Origin::Signed(BOB), member, 1, 1, 1), Ok(()));
    assert_eq!(balances.total_balance(member), 0);
    let due = 1 + YEARS;
    assert_eq!(clubs.membership_expired(balances.pay(), due, due), Ok(()));
    assert_eq!(clubs.read_membership((member, 1)).unwrap().expired_on, due);
    assert!(clubs.read_expired_on(due).is_err());
    assert!(clubs.read_expired_on(due + YEARS).is_err());
}

#[test]
fn renewal_uses_updated_period_and_charges_owner_fee() {
    let (mut clubs, balances) = setup();
    assert_eq!(clubs.create_club(balances.pay(), Origin::Root, BOB, 100, 1), Ok(()));
    assert_eq!(clubs.add_members(balances.pay(), Origin::Signed(BOB), ALICE, 1, 1, 1), Ok(()));
    assert_eq!(clubs.update_membership_period(Origin::Signed(ALICE), 1, 2), Ok(()));
    let due = 1 + YEARS;
    let bob_before = balances.total_balance(BOB);
    assert!(clubs.on_initialize(balances.pay(), due));
    assert_eq!(balances.total_balance(BOB), bob_before + 200);
    assert_eq!(clubs.read_membership((ALICE, 1)).unwrap().expired_on, due + 2 * YEARS);
    assert_eq!(clubs.events().last(), Some(&Event::MemberShipRenewed(ALICE, 1)));
    assert!(!clubs.on_initialize(balances.pay(), 0));
}

#[test]
fn cancel_removes_member_from_club() {
    let (mut clubs, balances) = setup();
    assert_eq!(clubs.create_club(balances.pay(), Origin::Root, BOB, 1, 1), Ok(()));
    assert_eq!(clubs.add_members(balances.pay(), Origin::Signed(BOB), ALICE, 1, 1, 1), Ok(()));
    assert_eq!(clubs.add_members(balances.pay(), Origin::Signed(BOB), CHARLIE, 1, 1, 2), Ok(()));
    assert_eq!(clubs.cancel_membership(Origin::Signed(BOB), ALICE, 1), Ok(()));
    assert_eq!(clubs.read_clubs(BOB, 1).unwrap().members, vec![CHARLIE]);
    assert_eq!(clubs.events().last(), Some(&Event::MemebrShipExpired(ALICE, 1)));
}

#[test]
fn cancel_from_an_unsorted_member_list() {
    let (mut clubs, balances) = setup();
    assert_eq!(clubs.create_club(balances.pay(), Origin::Root, ALICE, 1000, 1), Ok(()));
    assert_eq!(clubs.add_members(balances.pay(), Origin::Signed(ALICE), CHARLIE, 1, 1, 1), Ok(()));
    assert_eq!(clubs.add_members(balances.pay(), Origin::Signed(ALICE), BOB, 1, 2, 1), Ok(()));
    assert_eq!(clubs.read_clubs(ALICE, 1).unwrap().members, vec![CHARLIE, BOB]);
    assert_eq!(clubs.cancel_membership(Origin::Signed(ALICE), CHARLIE, 1), Ok(()));
    assert_eq!(clubs.read_clubs(ALICE, 1).unwrap().members, vec![BOB]);
    assert!(clubs.read_membership((CHARLIE, 1)).is_err());
    assert!(clubs.read_membership((BOB, 1)).is_ok());
    assert_eq!(clubs.read_expired_on(1 + YEARS).unwrap(), Vec::<(u64, u64, u64)>::new());
}

#[test]
fn update_membership_period_bounds() {
    let (mut clubs, balances) = setup();
    assert_eq!(clubs.create_club(balances.pay(), Origin::Root, BOB, 1000, 1), Ok(()));
    assert_eq!(clubs.add_members(balances.pay(), Origin::Signed(BOB), ALICE, 1, 1, 1), Ok(()));
    let events_before = clubs.events();
    assert_eq!(
        clubs.update_membership_period(Origin::Signed(ALICE), 1, 0),
        Err(CallError::Module(Error::MemeberShipPeriodExceeds))
    );
    assert_eq!(
        clubs.update_membership_period(Origin::Signed(ALICE), 1, 101),
        Err(CallError::Module(Error::MemeberShipPeriodExceeds))
    );
    assert_eq!(clubs.events(), events_before);
    assert_eq!(clubs.read_membership((ALICE, 1)).unwrap().membership_period_in_years, 1);
    assert_eq!(clubs.update_membership_period(Origin::Signed(ALICE), 1, 100), Ok(()));
    assert_eq!(clubs.read_membership((ALICE, 1)).unwrap().membership_period_in_years, 100);
}

#[test]
fn renewal_after_a_cancellation_at_the_same_block() {
    let (mut clubs, balances) = setup();
    assert_eq!(clubs.create_club(balances.pay(), Origin::Root, BOB, 1000, 1), Ok(()));
    assert_eq!(clubs.add_members(balances.pay(), Origin::Signed(BOB), ALICE, 1, 1, 1), Ok(()));
    assert_eq!(clubs.add_members(balances.pay(), Origin::Signed(BOB), CHARLIE, 1, 1, 1), Ok(()));
    let due = 1 + YEARS;
    // ALICE's membership, due at the same block as CHARLIE's, is cancelled: its entry
    // leaves the schedule and CHARLIE's is still renewed
    assert_eq!(clubs.update_membership_period(Origin::Signed(ALICE), 1, 2), Ok(()));
    assert_eq!(clubs.cancel_membership(Origin::Signed(BOB), ALICE, 1), Ok(()));
    assert_eq!(clubs.read_expired_on(due).unwrap(), vec![(CHARLIE, 1, BOB)]);
    let bob_before = balances.total_balance(BOB);
    assert_eq!(clubs.membership_expired(balances.pay(), due, due), Ok(()));
    assert_eq!(clubs.read_membership((CHARLIE, 1)).unwrap().expired_on, due + YEARS);
    assert_eq!(balances.total_balance(BOB), bob_before + 1000);
    assert!(clubs.read_expired_on(due).is_err());
}

#[test]
fn renewal_after_transfer_pays_the_new_owner() {
    let (mut clubs, balances) = setup();
    assert_eq!(clubs.create_club(balances.pay(), Origin::Root, BOB, 1000, 1), Ok(()));
    assert_eq!(clubs.add_members(balances.pay(), Origin::Signed(BOB), ALICE, 1, 1, 10), Ok(()));
    assert_eq!(clubs.transfer_ownership(balances.pay(), Origin::Signed(BOB), CHARLIE, 100000, 1), Ok(()));
    assert_eq!(clubs.read_expired_on(5_259_610).unwrap(), vec![(ALICE, 1, CHARLIE)]);
    assert_eq!(clubs.membership_expired(balances.pay(), 5_259_610, 5_259_610), Ok(()));
    assert_eq!(clubs.read_membership((ALICE, 1)).unwrap().expired_on, 10_519_210);
    assert_eq!(balances.total_balance(ALICE), 9_999_999_998_000);
    assert_eq!(balances.total_balance(CHARLIE), 29_999_999_901_000);
}

#[test]
fn cancel_after_transfer_by_new_owner() {
    let (mut clubs, balances) = setup();
    assert_eq!(clubs.create_club(balances.pay(), Origin::Root, BOB, 1000, 1), Ok(()));
    assert_eq!(clubs.add_members(balances.pay(), Origin::Signed(BOB), ALICE, 1, 1, 1), Ok(()));
    assert_eq!(clubs.transfer_ownership(balances.pay(), Origin::Signed(BOB), CHARLIE, 0, 1), Ok(()));
    assert_eq!(clubs.cancel_membership(Origin::Signed(CHARLIE), ALICE, 1), Ok(()));
    assert_eq!(clubs.read_expired_on(1 + YEARS).unwrap(), Vec::<(u64, u64, u64)>::new());
    assert_eq!(clubs.read_clubs(CHARLIE, 1).unwrap().members, Vec::<u64>::new());
}

#[test]
fn cancel_then_add_again() {
    let (mut clubs, balances) = setup();
    assert_eq!(clubs.create_club(balances.pay(), Origin::Root, BOB, 1000, 1), Ok(()));
    assert_eq!(clubs.add_members(balances.pay(), Origin::Signed(BOB), ALICE, 1, 1, 1), Ok(()));
    assert_eq!(clubs.cancel_membership(Origin::Signed(BOB), ALICE, 1), Ok(()));
    assert_eq!(clubs.read_clubs(BOB, 1).unwrap().members, Vec::<u64>::new());
    assert!(clubs.read_membership((ALICE, 1)).is_err());
    assert_eq!(clubs.add_members(balances.pay(), Origin::Signed(BOB), ALICE, 1, 2, 3), Ok(()));
    assert_eq!(clubs.read_clubs(BOB, 1).unwrap().members, vec![ALICE]);
}

#[test]
fn transfer_and_back() {
    let (mut clubs, balances) = setup();
    assert_eq!(clubs.create_club(balances.pay(), Origin::Root, BOB, 1000, 1), Ok(()));
    assert_eq!(clubs.add_members(balances.pay(), Origin::Signed(BOB), ALICE, 1, 1, 1), Ok(()));
    assert_eq!(clubs.transfer_ownership(balances.pay(), Origin::Signed(BOB), CHARLIE, 5, 1), Ok(()));
    assert_eq!(clubs.transfer_ownership(balances.pay(), Origin::Signed(CHARLIE), BOB, 5, 1), Ok(()));
    assert_eq!(clubs.read_clubs(BOB, 1).unwrap().members, vec![ALICE]);
    assert!(clubs.read_clubs(CHARLIE, 1).is_err());
    assert_eq!(clubs.read_expired_on(1 + YEARS).unwrap(), vec![(ALICE, 1, BOB)]);
}

#[test]
fn second_run_finds_nothing() {
    let (mut clubs, balances) = setup();
    assert_eq!(clubs.create_club(balances.pay(), Origin::Root, BOB, 1000, 1), Ok(()));
    assert_eq!(clubs.add_members(balances.pay(), Origin::Signed(BOB), ALICE, 1, 1, 1), Ok(()));
    let due = 1 + YEARS;
    assert_eq!(clubs.membership_expired(balances.pay(), due, due), Ok(()));
    let blocks = blocks_from(&[1]);
    let before = snapshot(&clubs, &balances, &blocks);
    assert_eq!(
        clubs.membership_expired(balances.pay(), due, due),
        Err(CallError::Module(Error::NotAExpirationTime))
    );
    assert_eq!(snapshot(&clubs, &balances, &blocks), before);
}

#[test]
fn calls_ask_for_the_transfers_they_need() {
    let (mut clubs, balances) = setup();
    let asked: RefCell<Vec<(u64, u64, u128)>> = RefCell::new(Vec::new());
    let recording = |source: u64, dest: u64, value: u128| {
        asked.borrow_mut().push((source, dest, value));
        balances.transfer(source, dest, value)
    };
    assert_eq!(clubs.create_club(&recording, Origin::Root, BOB, 500, 1), Ok(()));
    assert_eq!(clubs.add_members(&recording, Origin::Signed(BOB), ALICE, 1, 3, 1), Ok(()));
    assert_eq!(clubs.transfer_ownership(&recording, Origin::Signed(BOB), CHARLIE, 42, 1), Ok(()));
    let due = 1 + 3 * YEARS;
    assert_eq!(clubs.membership_expired(&recording, due, due), Ok(()));
    // a refused call asks for nothing
    assert_eq!(
        clubs.add_members(&recording, Origin::Signed(BOB), CHARLIE, 1, 1, 1),
        Err(CallError::Module(Error::ClubDoesNotExistORWrongOwner))
    );
    assert_eq!(
        asked.into_inner(),
        vec![
            (BOB, clubs.fee_collector_id(), UNITS),
            (ALICE, BOB, 1500),
            (CHARLIE, BOB, 42),
            (ALICE, CHARLIE, 1500),
        ]
    );
}
