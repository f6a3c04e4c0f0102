//! Finding the leader: the candidates are probed by ascending identifier,
//! and the first that answers leads.

use crate::identity::UserInfo;
use crate::leader::holds;
use vstd::prelude::*;

verus! {

/// The entry at position `i` with identifier `a` comes before the entry at
/// position `j` with identifier `b`: by identifier, and by position where
/// the identifiers are equal.
pub open spec fn precedes(a: u32, i: int, b: u32, j: int) -> bool {
    a < b || (a == b && i < j)
}

/// `order` lists the positions of `peers`, each once, by ascending
/// identifier; entries with equal identifiers keep the order they have in
/// `peers`.
pub open spec fn is_probe_order(order: Seq<int>, peers: Seq<UserInfo>) -> bool {
    &&& order.len() == peers.len()
    &&& forall|k: int| 0 <= k < order.len() ==> 0 <= #[trigger] order[k] < peers.len()
    &&& forall|j: int, k: int|
        #![trigger order[j], order[k]]
        0 <= j < k < order.len() ==> precedes(
            peers[order[j]].id,
            order[j],
            peers[order[k]].id,
            order[k],
        )
    &&& forall|i: int| 0 <= i < peers.len() ==> #[trigger] order.contains(i)
}

/// The entries of `peers` in the order that `order` gives.
pub open spec fn arranged(peers: Seq<UserInfo>, order: Seq<int>) -> Seq<UserInfo> {
    Seq::new(order.len(), |k: int| peers[order[k]])
}

/// `candidates` holds the entries of `peers` by ascending identifier, those
/// with equal identifiers in the order they have in `peers`.
pub open spec fn is_candidate_list(candidates: Seq<UserInfo>, peers: Seq<UserInfo>) -> bool {
    exists|order: Seq<int>| is_probe_order(order, peers) && candidates == arranged(peers, order)
}

/// The registry by ascending identifier. Entries with equal identifiers
/// keep their order.
pub fn probe_order(peers: &Vec<UserInfo>) -> (r: Vec<UserInfo>)
    ensures
        is_candidate_list(r@, peers@),
{
    let mut out: Vec<UserInfo> = Vec::new();
    let ghost mut order: Seq<int> = Seq::empty();
    let mut i: usize = 0;
    while i < peers.len()
        invariant
            i <= peers.len(),
            out.len() == i,
            order.len() == i,
            forall|k: int| 0 <= k < i ==> 0 <= #[trigger] order[k] < i,
            forall|k: int| 0 <= k < i ==> #[trigger] out@[k] == peers@[order[k]],
            forall|j: int, k: int|
                #![trigger order[j], order[k]]
                0 <= j < k < i ==> precedes(
                    peers@[order[j]].id,
                    order[j],
                    peers@[order[k]].id,
                    order[k],
                ),
            forall|x: int| 0 <= x < i ==> #[trigger] order.contains(x),
        decreases peers.len() - i,
    {
        let id = peers[i].id;
        let mut p: usize = 0;
        while p < out.len() && out[p].id <= id
            invariant
                p <= out.len(),
                forall|j: int| 0 <= j < p ==> (#[trigger] out@[j]).id <= id,
            decreases out.len() - p,
        {
            p += 1;
        }
        let ghost before = out@;
        let ghost prior = order;
        out.insert(p, peers[i].clone());
        proof {
            order = prior.insert(p as int, i as int);
            assert forall|k: int| p <= k < i implies (#[trigger] before[k]).id > id by {
                if k > p {
                    assert(precedes(
                        peers@[prior[p as int]].id,
                        prior[p as int],
                        peers@[prior[k]].id,
                        prior[k],
                    ));
                }
                assert(before[p as int].id > id);
            }
            assert forall|k: int| 0 <= k < i + 1 implies #[trigger] out@[k] == peers@[order[k]] by {
                if k < p {
                    assert(out@[k] == before[k]);
                } else if k > p {
                    assert(out@[k] == before[k - 1]);
                }
            }
            assert forall|j: int, k: int|
                #![trigger order[j], order[k]]
                0 <= j < k < i + 1 implies precedes(
                peers@[order[j]].id,
                order[j],
                peers@[order[k]].id,
                order[k],
            ) by {
                let a = if j < p {
                    j
                } else {
                    j - 1
                };
                let b = if k < p {
                    k
                } else {
                    k - 1
                };
                if j != p && k != p {
                    assert(order[j] == prior[a] && order[k] == prior[b]);
                    assert(precedes(
                        peers@[prior[a]].id,
                        prior[a],
                        peers@[prior[b]].id,
                        prior[b],
                    ));
                } else if k == p {
                    assert(order[j] == prior[j]);
                    assert(before[j].id <= id);
                } else {
                    assert(order[k] == prior[k - 1]);
                    assert(before[k - 1].id > id);
                }
            }
            assert forall|x: int| 0 <= x < i + 1 implies #[trigger] order.contains(x) by {
                if x == i {
                    assert(order[p as int] == x);
                } else {
                    assert(prior.contains(x));
                    let j = choose|j: int| 0 <= j < prior.len() && prior[j] == x;
                    if j < p {
                        assert(order[j] == x);
                    } else {
                        assert(order[j + 1] == x);
                    }
                }
            }
        }
        i += 1;
    }
    proof {
        assert(is_probe_order(order, peers@));
        assert(out@ == arranged(peers@, order));
    }
    out
}

/// The leader as the prober finds it: the entry of `peers` with the lowest
/// identifier among those whose identifier is in `reachable` and, where
/// several entries carry that identifier, the first of them.
///
/// `reachable` holds the identifiers of the processes that answer a probe.
pub fn find_leader(peers: &Vec<UserInfo>, reachable: &Vec<u32>) -> (r: Option<UserInfo>)
    ensures
        match r {
            Some(u) => {
                &&& reachable@.contains(u.id)
                &&& forall|j: int|
                    0 <= j < peers.len() && reachable@.contains((#[trigger] peers[j]).id) ==> u.id
                        <= peers[j].id
                &&& exists|i: int|
                    0 <= i < peers.len() && u == #[trigger] peers[i] && forall|j: int|
                        0 <= j < i ==> (#[trigger] peers[j]).id != u.id
            },
            None => forall|j: int|
                0 <= j < peers.len() ==> !reachable@.contains((#[trigger] peers[j]).id),
        },
{
    let mut search = LeaderSearch::new(peers);
    let ghost order = choose|order: Seq<int>|
        is_probe_order(order, peers@) && search.candidates() == arranged(peers@, order);
    loop
        invariant
            search.candidates() == arranged(peers@, order),
            is_probe_order(order, peers@),
            search.position() <= search.candidates().len(),
            forall|j: int|
                0 <= j < search.position() ==> !reachable@.contains(
                    (#[trigger] search.candidates()[j]).id,
                ),
        decreases search.candidates().len() - search.position(),
    {
        match search.current() {
            None => {
                proof {
                    assert forall|j: int| 0 <= j < peers.len() implies !reachable@.contains(
                        (#[trigger] peers[j]).id,
                    ) by {
                        assert(order.contains(j));
                        let k = choose|k: int| 0 <= k < order.len() && order[k] == j;
                        assert(search.candidates()[k] == peers[j]);
                    }
                }
                return None;
            },
            Some(u) => {
                if holds(reachable, u.id) {
                    proof {
                        let k = search.position() as int;
                        let i = order[k];
                        assert(u == peers[i]);
                        assert forall|j: int|
                            0 <= j < peers.len() && reachable@.contains(
                                (#[trigger] peers[j]).id,
                            ) implies u.id <= peers[j].id by {
                            assert(order.contains(j));
                            let m = choose|m: int| 0 <= m < order.len() && order[m] == j;
                            assert(search.candidates()[m] == peers[j]);
                            if m > k {
                                assert(precedes(
                                    peers@[order[k]].id,
                                    order[k],
                                    peers@[order[m]].id,
                                    order[m],
                                ));
                            }
                        }
                        assert forall|j: int| 0 <= j < i implies (#[trigger] peers[j]).id
                            != u.id by {
                            assert(order.contains(j));
                            let m = choose|m: int| 0 <= m < order.len() && order[m] == j;
                            assert(search.candidates()[m] == peers[j]);
                            if m > k {
                                assert(precedes(
                                    peers@[order[k]].id,
                                    order[k],
                                    peers@[order[m]].id,
                                    order[m],
                                ));
                            }
                        }
                    }
                    return Some(u);
                }
                search.failed();
            },
        }
    }
}

/// A search for the leader that is under way: the candidates in the order
/// in which they are probed, and how many of them did not answer.
pub struct LeaderSearch {
    candidates: Vec<UserInfo>,
    next: usize,
}

impl LeaderSearch {
    #[verifier::type_invariant]
    spec fn inv(&self) -> bool {
        self.next <= self.candidates.len()
    }

    /// The candidates in the order in which they are probed.
    pub closed spec fn candidates(&self) -> Seq<UserInfo> {
        self.candidates@
    }

    /// How many candidates did not answer.
    pub closed spec fn position(&self) -> nat {
        self.next as nat
    }

    /// A search over the registry `peers` of which no candidate has been
    /// probed yet.
    pub fn new(peers: &Vec<UserInfo>) -> (r: LeaderSearch)
        ensures
            is_candidate_list(r.candidates(), peers@),
            r.position() == 0,
    {
        LeaderSearch { candidates: probe_order(peers), next: 0 }
    }

    /// The candidate to probe now. `None` means that every candidate was
    /// probed and none answered: no leader can be reached.
    pub fn current(&self) -> (r: Option<UserInfo>)
        ensures
            self.position() <= self.candidates().len(),
            r == (if self.position() < self.candidates().len() {
                Some(self.candidates()[self.position() as int])
            } else {
                None
            }),
    {
        proof {
            use_type_invariant(self);
        }
        if self.next < self.candidates.len() {
            Some(self.candidates[self.next].clone())
        } else {
            None
        }
    }

    /// The candidate that was probed did not answer: the search moves on to
    /// the next one.
    pub fn failed(&mut self)
        ensures
            final(self).candidates() == old(self).candidates(),
            final(self).position() == (if old(self).position() < old(self).candidates().len() {
                old(self).position() + 1
            } else {
                old(self).position()
            }),
    {
        proof {
            use_type_invariant(&*self);
        }
        if self.next < self.candidates.len() {
            self.next = self.next + 1;
        }
    }
}

} // verus!
