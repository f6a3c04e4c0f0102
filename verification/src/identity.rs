//! Process identities and the registry they come from.

use crate::text::{chars_of, rows, split, split_on, text_of, trim, trimmed};
use std::collections::HashSet;
use vstd::prelude::*;

verus! {

/// One process of the registry: its host name and its identifier.
#[derive(Debug, PartialEq, Eq)]
pub struct UserInfo {
    pub name: String,
    pub id: u32,
}

impl View for UserInfo {
    type V = (Seq<char>, u32);

    open spec fn view(&self) -> (Seq<char>, u32) {
        (self.name@, self.id)
    }
}

impl Clone for UserInfo {
    fn clone(&self) -> (r: Self)
        ensures
            r == *self,
    {
        UserInfo { name: self.name.clone(), id: self.id }
    }
}

/// The identifiers of a list of processes, in order.
pub open spec fn ids(users: Seq<UserInfo>) -> Seq<u32> {
    Seq::new(users.len(), |i: int| users[i].id)
}

/// The names and identifiers of a list of processes, in order.
pub open spec fn identities(users: Seq<UserInfo>) -> Seq<(Seq<char>, u32)> {
    Seq::new(users.len(), |i: int| users[i]@)
}

/// The position of the first process with identifier `id`, or the length of
/// the list if there is none.
pub open spec fn position_of(all: Seq<u32>, id: u32) -> int
    decreases all.len(),
{
    if all.len() == 0 || all[0] == id {
        0
    } else {
        1 + position_of(all.drop_first(), id)
    }
}

/// `position_of` is the one position before which `id` does not occur and at
/// which the list ends or holds `id`.
pub proof fn lemma_position_of(all: Seq<u32>, id: u32, k: int)
    requires
        0 <= k <= all.len(),
        forall|j: int| 0 <= j < k ==> all[j] != id,
        k == all.len() || all[k] == id,
    ensures
        position_of(all, id) == k,
    decreases all.len(),
{
    if all.len() == 0 || all[0] == id {
    } else {
        let t = all.drop_first();
        assert forall|j: int| 0 <= j < k - 1 implies t[j] != id by {
            assert(t[j] == all[j + 1]);
        }
        lemma_position_of(t, id, k - 1);
    }
}

/// Tells whether two entries of the registry carry the same identifier.
pub fn has_duplicate_ids(users: &Vec<UserInfo>) -> (r: bool)
    ensures
        r == !ids(users@).no_duplicates(),
{
    let mut seen: HashSet<u32> = HashSet::new();
    let mut i: usize = 0;
    while i < users.len()
        invariant
            i <= users.len(),
            forall|x: u32| seen@.contains(x) <==> exists|j: int| 0 <= j < i && ids(users@)[j] == x,
            forall|j: int, k: int| 0 <= j < k < i ==> ids(users@)[j] != ids(users@)[k],
        decreases users.len() - i,
    {
        if !seen.insert(users[i].id) {
            let ghost j = choose|j: int| 0 <= j < i && ids(users@)[j] == users@[i as int].id;
            assert(ids(users@)[j] == ids(users@)[i as int]);
            return true;
        }
        proof {
            assert forall|x: u32| seen@.contains(x) <==> exists|j: int|
                0 <= j < i + 1 && ids(users@)[j] == x by {
                if x == users@[i as int].id {
                    assert(ids(users@)[i as int] == x);
                }
            }
        }
        i += 1;
    }
    false
}

/// The first process of `users` with identifier `id`.
pub fn find_user_by_id(users: &Vec<UserInfo>, id: u32) -> (r: Option<UserInfo>)
    ensures
        match r {
            Some(u) => ids(users@).contains(id) && u.id == id && 0 <= position_of(ids(users@), id)
                < users.len() && u == users[position_of(ids(users@), id)],
            None => !ids(users@).contains(id),
        },
{
    let mut i: usize = 0;
    while i < users.len()
        invariant
            i <= users.len(),
            forall|j: int| 0 <= j < i ==> ids(users@)[j] != id,
        decreases users.len() - i,
    {
        if users[i].id == id {
            proof {
                lemma_position_of(ids(users@), id, i as int);
                assert(ids(users@)[i as int] == id);
            }
            return Some(users[i].clone());
        }
        i += 1;
    }
    None
}

/// The first process of `users` whose name is `name`.
pub fn find_user_by_name(users: &Vec<UserInfo>, name: &String) -> (r: Option<UserInfo>)
    ensures
        match r {
            Some(u) => exists|i: int|
                0 <= i < users.len() && u == users[i] && users[i].name@ == name@ && forall|j: int|
                    0 <= j < i ==> users[j].name@ != name@,
            None => forall|j: int| 0 <= j < users.len() ==> users[j].name@ != name@,
        },
{
    let mut i: usize = 0;
    while i < users.len()
        invariant
            i <= users.len(),
            forall|j: int| 0 <= j < i ==> users[j].name@ != name@,
        decreases users.len() - i,
    {
        if users[i].name == *name {
            return Some(users[i].clone());
        }
        i += 1;
    }
    None
}

/// The address `name:port` of a peer.
pub fn get_addr(peer_name: &String, port: &str) -> (r: String)
    ensures
        r@ == peer_name@ + seq![':'] + port@,
{
    let mut s = peer_name.clone();
    s.push(':');
    s.append(port);
    s
}

/// The identifier of the process named on line `i` of the list, lines
/// counted from 0: the number of the line counted from 1, as far as 32 bits
/// hold it.
pub open spec fn line_id(i: int) -> u32 {
    ((i + 1) % 0x1_0000_0000) as u32
}

/// The processes that the lines of a list name: each line that is not empty
/// once trimmed names one, by its trimmed text, and numbers it by its place
/// among all the lines.
pub open spec fn registry_of(lines: Seq<Seq<char>>) -> Seq<(Seq<char>, u32)>
    decreases lines.len(),
{
    if lines.len() == 0 {
        Seq::empty()
    } else {
        let rest = registry_of(lines.drop_last());
        let name = trim(lines.last());
        if name.len() > 0 {
            rest.push((name, line_id(lines.len() - 1)))
        } else {
            rest
        }
    }
}

/// Reads the registry from the text of the list of hosts, one host to a
/// line.
pub fn read_registry(content: &str) -> (r: Vec<UserInfo>)
    ensures
        identities(r@) == registry_of(split(content@, '\n')),
{
    let lines = split_on(&chars_of(content), '\n');
    let mut out: Vec<UserInfo> = Vec::new();
    let mut i: usize = 0;
    assert(rows(lines@).take(0).len() == 0);
    assert(identities(out@) == Seq::<(Seq<char>, u32)>::empty());
    while i < lines.len()
        invariant
            i <= lines.len(),
            identities(out@) == registry_of(rows(lines@).take(i as int)),
        decreases lines.len() - i,
    {
        proof {
            let next = rows(lines@).take(i + 1);
            assert(next.drop_last() == rows(lines@).take(i as int));
            assert(next.last() == lines[i as int]@);
        }
        let name = trimmed(&lines[i]);
        if name.len() > 0 {
            let id = ((i as u64 + 1) % 0x1_0000_0000u64) as u32;
            let ghost before = identities(out@);
            let user = UserInfo { name: text_of(&name), id };
            out.push(user);
            assert(identities(out@) == before.push((name@, line_id(i as int))));
        }
        i += 1;
    }
    assert(rows(lines@).take(lines.len() as int) == rows(lines@));
    out
}

} // verus!
