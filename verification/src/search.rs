use vstd::prelude::*;

verus! {

/// An entry of the expiry schedule: (member, club id, owner of the club).
pub type Entry = (u64, u64, u64);

/// Where `member` first occurs in `members`.
pub fn member_position(members: &Vec<u64>, member: u64) -> (r: Option<usize>)
    ensures
        match r {
            Some(i) => members@.index_of_first(member) == Some(i as int),
            None => members@.index_of_first(member) is None,
        },
{
    let mut i: usize = 0;
    while i < members.len()
        invariant
            i <= members.len(),
            forall|j: int| 0 <= j < i ==> members@[j] != member,
        decreases members.len() - i,
    {
        if members[i] == member {
            proof {
                members@.index_of_first_ensures(member);
                let k = members@.index_of_first(member)->0;
                assert(members@[i as int] == member);
                assert(k == i as int);
            }
            return Some(i);
        }
        i = i + 1;
    }
    proof {
        members@.index_of_first_ensures(member);
    }
    None
}

/// Where `entry` first occurs in `entries`.
pub fn entry_position(entries: &Vec<Entry>, entry: Entry) -> (r: Option<usize>)
    ensures
        match r {
            Some(i) => entries@.index_of_first(entry) == Some(i as int),
            None => entries@.index_of_first(entry) is None,
        },
{
    let mut i: usize = 0;
    while i < entries.len()
        invariant
            i <= entries.len(),
            forall|j: int| 0 <= j < i ==> entries@[j] != entry,
        decreases entries.len() - i,
    {
        let e = entries[i];
        if e.0 == entry.0 && e.1 == entry.1 && e.2 == entry.2 {
            assert(entries@[i as int] == entry);
            proof {
                entries@.index_of_first_ensures(entry);
                let k = entries@.index_of_first(entry)->0;
                assert(k == i as int);
            }
            return Some(i);
        }
        i = i + 1;
    }
    proof {
        entries@.index_of_first_ensures(entry);
    }
    None
}

/// `entries` with every occurrence of `from` replaced by `to`.
pub open spec fn retag(entries: Seq<Entry>, from: Entry, to: Entry) -> Seq<Entry> {
    entries.map_values(|e: Entry| if e == from { to } else { e })
}

/// A copy of `entries` with every occurrence of `from` replaced by `to`.
pub fn retag_entries(entries: &Vec<Entry>, from: Entry, to: Entry) -> (r: Vec<Entry>)
    ensures
        r@ == retag(entries@, from, to),
{
    let mut r: Vec<Entry> = Vec::new();
    let mut i: usize = 0;
    while i < entries.len()
        invariant
            i <= entries.len(),
            r@ =~= entries@.subrange(0, i as int).map_values(|e: Entry| if e == from { to } else { e }),
        decreases entries.len() - i,
    {
        let e = entries[i];
        if e.0 == from.0 && e.1 == from.1 && e.2 == from.2 {
            r.push(to);
        } else {
            r.push(e);
        }
        i = i + 1;
        assert(r@ =~= entries@.subrange(0, i as int).map_values(|e: Entry| if e == from { to } else { e }));
    }
    assert(entries@.subrange(0, entries.len() as int) =~= entries@);
    r
}

} // verus!
