use std::collections::HashMap;
use vstd::prelude::*;

use crate::account::{pallet_account, pallet_id_into_account};
use crate::dispatch::{Event, Origin};
use crate::keys::{lemma_pair_key_injective, pack_pair, pair_key};
use crate::search::Entry;
use crate::types::{Club, MemberShipData};

verus! {

broadcast use vstd::std_specs::hash::group_hash_axioms;

/// A club as the pallet stores it.
pub type ClubsOf = Club<u128, Vec<u64>, u64>;

/// A club as the contracts see it.
pub type ClubView = Club<u128, Seq<u64>, u64>;

/// What a currency answered to one transfer.
pub type Paid = Result<(), sp_runtime::DispatchError>;

/// The constants that the runtime sets for the pallet.
#[derive(Clone, Copy, Debug, PartialEq, Eq)]
pub struct Config {
    /// what the owner of a new club pays to the fee collector
    pub fees_to_create_club: u128,
    /// the pallet id whose account collects the fees for creating clubs
    pub fee_collector: [u8; 8],
    /// the longest membership period, in blocks
    pub max_membership_period: u64,
    /// one year, in blocks
    pub unit_membership_period: u64,
}

/// The state of the pallet as its contracts speak of it.
pub struct PalletState {
    /// the runtime's constants
    pub config: Config,
    /// the id of the last club created (0 before the first)
    pub next_club_id: u64,
    /// clubs by (owner, club id)
    pub clubs: Map<(u64, u64), ClubView>,
    /// the expiry schedule: at each block, the memberships (member, club id, owner) that
    /// expire then
    pub expired_on: Map<u64, Seq<Entry>>,
    /// memberships by (member, club id)
    pub membership: Map<(u64, u64), MemberShipData<u64>>,
    /// the events deposited so far
    pub events: Seq<Event>,
}

/// The clubs pallet: its constants and its storage.
pub struct Pallet {
    pub(crate) config: Config,
    pub(crate) next_club_id: u64,
    pub(crate) clubs: HashMap<u128, ClubsOf>,
    pub(crate) expired_on: HashMap<u64, Vec<Entry>>,
    pub(crate) membership: HashMap<u128, MemberShipData<u64>>,
    pub(crate) events: Vec<Event>,
}

/// A map keyed by packed pairs, seen as a map keyed by pairs, its values seen through `f`.
pub open spec fn by_pair<V, W>(m: Map<u128, V>, f: spec_fn(V) -> W) -> Map<(u64, u64), W> {
    Map::new(
        |k: (u64, u64)| m.contains_key(pair_key(k.0, k.1)),
        |k: (u64, u64)| f(m[pair_key(k.0, k.1)]),
    )
}

/// Inserting under a packed pair is inserting under the pair.
pub proof fn lemma_by_pair_insert<V, W>(m: Map<u128, V>, f: spec_fn(V) -> W, a: u64, b: u64, v: V)
    ensures
        by_pair(m.insert(pair_key(a, b), v), f) == by_pair(m, f).insert((a, b), f(v)),
{
    assert forall|k: (u64, u64)| #![auto] true implies (pair_key(k.0, k.1) == pair_key(a, b) <==> k
        == (a, b)) by {
        lemma_pair_key_injective(k.0, k.1, a, b);
    }
    assert(by_pair(m.insert(pair_key(a, b), v), f) =~= by_pair(m, f).insert((a, b), f(v)));
}

/// Removing a packed pair is removing the pair.
pub proof fn lemma_by_pair_remove<V, W>(m: Map<u128, V>, f: spec_fn(V) -> W, a: u64, b: u64)
    ensures
        by_pair(m.remove(pair_key(a, b)), f) == by_pair(m, f).remove((a, b)),
{
    assert forall|k: (u64, u64)| #![auto] true implies (pair_key(k.0, k.1) == pair_key(a, b) <==> k
        == (a, b)) by {
        lemma_pair_key_injective(k.0, k.1, a, b);
    }
    assert(by_pair(m.remove(pair_key(a, b)), f) =~= by_pair(m, f).remove((a, b)));
}

/// A stored club as the model sees it.
pub open spec fn club_view(c: ClubsOf) -> ClubView {
    c@
}

/// A stored membership as the model sees it (as it is).
pub open spec fn same_data(d: MemberShipData<u64>) -> MemberShipData<u64> {
    d
}

/// A stored list of scheduled entries as the model sees it.
pub open spec fn entries_view(v: Vec<Entry>) -> Seq<Entry> {
    v@
}

impl View for Pallet {
    type V = PalletState;

    closed spec fn view(&self) -> PalletState {
        PalletState {
            config: self.config,
            next_club_id: self.next_club_id,
            clubs: by_pair(self.clubs@, |c: ClubsOf| club_view(c)),
            expired_on: self.expired_on@.map_values(|v: Vec<Entry>| entries_view(v)),
            membership: by_pair(self.membership@, |d: MemberShipData<u64>| same_data(d)),
            events: self.events@,
        }
    }
}

/// The account that signed `origin`, if any.
pub open spec fn signer(origin: Origin) -> Option<u64> {
    match origin {
        Origin::Signed(who) => Some(who),
        _ => None,
    }
}

/// A club just created.
pub open spec fn new_club(annual_expences: u128, now: u64) -> ClubView {
    Club { annual_expences, created: now, members: Seq::empty() }
}

/// The expiry schedule after `entry` was appended to the list at `block`.
pub open spec fn schedule(expired_on: Map<u64, Seq<Entry>>, block: u64, entry: Entry) -> Map<u64, Seq<Entry>> {
    if expired_on.contains_key(block) {
        expired_on.insert(block, expired_on[block].push(entry))
    } else {
        expired_on.insert(block, seq![entry])
    }
}

/// The account of the fee collector.
pub open spec fn fee_collector(s: PalletState) -> u64 {
    pallet_account(s.config.fee_collector)
}

impl Pallet {
    /// The pallet at genesis: no club, no membership, nothing scheduled.
    pub fn new(config: Config) -> (p: Pallet)
        ensures
            p@ == (PalletState {
                config,
                next_club_id: 0,
                clubs: Map::empty(),
                expired_on: Map::empty(),
                membership: Map::empty(),
                events: Seq::empty(),
            }),
    {
        let p = Pallet {
            config,
            next_club_id: 0,
            clubs: HashMap::new(),
            expired_on: HashMap::new(),
            membership: HashMap::new(),
            events: Vec::new(),
        };
        assert(p@.clubs =~= Map::empty());
        assert(p@.expired_on =~= Map::empty());
        assert(p@.membership =~= Map::empty());
        p
    }

    /// The runtime's constants.
    pub fn config(&self) -> (c: Config)
        ensures
            c == self@.config,
    {
        self.config
    }

    /// The id of the last club created.
    pub fn next_club_id(&self) -> (id: u64)
        ensures
            id == self@.next_club_id,
    {
        self.next_club_id
    }

    /// The account that collects the fees for creating clubs.
    pub fn fee_collector_id(&self) -> (account: u64)
        ensures
            account == fee_collector(self@),
    {
        pallet_id_into_account(self.config.fee_collector)
    }


    /// Copies a list of entries.
    fn copy_entries(v: &Vec<Entry>) -> (r: Vec<Entry>)
        ensures
            r@ == v@,
    {
        let mut r: Vec<Entry> = Vec::new();
        let mut i: usize = 0;
        while i < v.len()
            invariant
                i <= v.len(),
                r@ == v@.subrange(0, i as int),
            decreases v.len() - i,
        {
            r.push(v[i]);
            i = i + 1;
            assert(r@ =~= v@.subrange(0, i as int));
        }
        assert(v@.subrange(0, v.len() as int) =~= v@);
        r
    }

    /// Copies a list of members.
    pub(crate) fn copy_members(v: &Vec<u64>) -> (r: Vec<u64>)
        ensures
            r@ == v@,
    {
        let r = v.clone();
        assert(r@ =~= v@);
        r
    }

    /// Copies a club.
    fn copy_club(c: &ClubsOf) -> (r: ClubsOf)
        ensures
            r@ == c@,
    {
        Club { annual_expences: c.annual_expences, created: c.created, members: Self::copy_members(&c.members) }
    }

    /// Whether the club `(owner, club_id)` is stored.
    pub(crate) fn has_club(&self, owner: u64, club_id: u64) -> (b: bool)
        ensures
            b == self@.clubs.contains_key((owner, club_id)),
    {
        self.clubs.contains_key(&pack_pair(owner, club_id))
    }

    /// A copy of the club `(owner, club_id)`, if stored.
    pub(crate) fn get_club(&self, owner: u64, club_id: u64) -> (r: Option<ClubsOf>)
        ensures
            match r {
                Some(c) => self@.clubs.contains_key((owner, club_id)) && c@ == self@.clubs[(owner, club_id)],
                None => !self@.clubs.contains_key((owner, club_id)),
            },
    {
        match self.clubs.get(&pack_pair(owner, club_id)) {
            Some(c) => Some(Self::copy_club(c)),
            None => None,
        }
    }

    /// Stores `club` as `(owner, club_id)`.
    pub(crate) fn put_club(&mut self, owner: u64, club_id: u64, club: ClubsOf)
        ensures
            final(self)@ == (PalletState { clubs: old(self)@.clubs.insert((owner, club_id), club@), ..old(self)@ }),
    {
        proof {
            lemma_by_pair_insert(self.clubs@, |c: ClubsOf| club_view(c), owner, club_id, club);
        }
        self.clubs.insert(pack_pair(owner, club_id), club);
    }

    /// Removes the club `(owner, club_id)` and returns it.
    pub(crate) fn take_club(&mut self, owner: u64, club_id: u64) -> (r: Option<ClubsOf>)
        ensures
            final(self)@ == (PalletState { clubs: old(self)@.clubs.remove((owner, club_id)), ..old(self)@ }),
            match r {
                Some(c) => old(self)@.clubs.contains_key((owner, club_id)) && c@ == old(self)@.clubs[(owner, club_id)],
                None => !old(self)@.clubs.contains_key((owner, club_id)),
            },
    {
        proof {
            lemma_by_pair_remove(self.clubs@, |c: ClubsOf| club_view(c), owner, club_id);
        }
        self.clubs.remove(&pack_pair(owner, club_id))
    }

    /// The membership `(member, club_id)`, if stored.
    pub(crate) fn get_membership(&self, member: u64, club_id: u64) -> (r: Option<MemberShipData<u64>>)
        ensures
            match r {
                Some(d) => self@.membership.contains_key((member, club_id)) && d == self@.membership[(member, club_id)],
                None => !self@.membership.contains_key((member, club_id)),
            },
    {
        match self.membership.get(&pack_pair(member, club_id)) {
            Some(d) => Some(*d),
            None => None,
        }
    }

    /// Stores `data` as the membership `(member, club_id)`.
    pub(crate) fn put_membership(&mut self, member: u64, club_id: u64, data: MemberShipData<u64>)
        ensures
            final(self)@ == (PalletState { membership: old(self)@.membership.insert((member, club_id), data), ..old(self)@ }),
    {
        proof {
            lemma_by_pair_insert(self.membership@, |d: MemberShipData<u64>| same_data(d), member, club_id, data);
        }
        self.membership.insert(pack_pair(member, club_id), data);
    }

    /// Removes the membership `(member, club_id)` and returns it.
    pub(crate) fn take_membership(&mut self, member: u64, club_id: u64) -> (r: Option<MemberShipData<u64>>)
        ensures
            final(self)@ == (PalletState { membership: old(self)@.membership.remove((member, club_id)), ..old(self)@ }),
            match r {
                Some(d) => old(self)@.membership.contains_key((member, club_id)) && d == old(self)@.membership[(member, club_id)],
                None => !old(self)@.membership.contains_key((member, club_id)),
            },
    {
        proof {
            lemma_by_pair_remove(self.membership@, |d: MemberShipData<u64>| same_data(d), member, club_id);
        }
        self.membership.remove(&pack_pair(member, club_id))
    }

    /// A copy of the entries scheduled at `block`, if any are stored.
    pub(crate) fn get_expiring(&self, block: u64) -> (r: Option<Vec<Entry>>)
        ensures
            match r {
                Some(v) => self@.expired_on.contains_key(block) && v@ == self@.expired_on[block],
                None => !self@.expired_on.contains_key(block),
            },
    {
        match self.expired_on.get(&block) {
            Some(v) => Some(Self::copy_entries(v)),
            None => None,
        }
    }

    /// Stores `entries` as the schedule at `block`.
    pub(crate) fn put_expiring(&mut self, block: u64, entries: Vec<Entry>)
        ensures
            final(self)@ == (PalletState { expired_on: old(self)@.expired_on.insert(block, entries@), ..old(self)@ }),
    {
        self.expired_on.insert(block, entries);
        assert(self@.expired_on =~= old(self)@.expired_on.insert(block, entries@));
    }

    /// Appends `entry` to the schedule at `block`.
    pub(crate) fn append_expiring(&mut self, block: u64, entry: Entry)
        ensures
            final(self)@ == (PalletState { expired_on: schedule(old(self)@.expired_on, block, entry), ..old(self)@ }),
    {
        match self.take_expiring(block) {
            Some(mut scheduled) => {
                scheduled.push(entry);
                self.put_expiring(block, scheduled);
            },
            None => {
                let mut scheduled: Vec<Entry> = Vec::new();
                scheduled.push(entry);
                assert(scheduled@ =~= seq![entry]);
                self.put_expiring(block, scheduled);
            },
        }
        assert(self@.expired_on =~= schedule(old(self)@.expired_on, block, entry));
    }

    /// Removes the schedule at `block` and returns it.
    pub(crate) fn take_expiring(&mut self, block: u64) -> (r: Option<Vec<Entry>>)
        ensures
            final(self)@ == (PalletState { expired_on: old(self)@.expired_on.remove(block), ..old(self)@ }),
            match r {
                Some(v) => old(self)@.expired_on.contains_key(block) && v@ == old(self)@.expired_on[block],
                None => !old(self)@.expired_on.contains_key(block),
            },
    {
        let r = self.expired_on.remove(&block);
        assert(self@.expired_on =~= old(self)@.expired_on.remove(block));
        r
    }

    /// Sets the id of the last club created.
    pub(crate) fn set_next_club_id(&mut self, id: u64)
        ensures
            final(self)@ == (PalletState { next_club_id: id, ..old(self)@ }),
    {
        self.next_club_id = id;
    }

    /// Deposits an event.
    pub(crate) fn deposit_event(&mut self, event: Event)
        ensures
            final(self)@ == (PalletState { events: old(self)@.events.push(event), ..old(self)@ }),
    {
        self.events.push(event);
    }

    /// A copy of the events deposited so far.
    pub(crate) fn copy_events(&self) -> (r: Vec<Event>)
        ensures
            r@ == self@.events,
    {
        let r = self.events.clone();
        assert(r@ =~= self.events@);
        r
    }
}

} // verus!
