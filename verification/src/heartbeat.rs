//! Failure detection from heartbeats: when each peer was last heard, which
//! members are overdue, and which removals the leader starts for them.
//!
//! Time is a count of milliseconds from any fixed start.

use crate::identity::{ids, UserInfo};
use crate::leader::{
    deletion_begun, members_except, others, round_resolved, Outcome, PendingRound, Proposal,
    Refusal, ViewStore,
};
use crate::message::{read_message, wire_text, Message, Wire};
use crate::report::{unreachable_line, unreachable_report};
use crate::text::{chars_of, has_prefix, starts_with};
use crate::view::PeerState;
use std::collections::HashMap;
use std::collections::HashSet;
use vstd::prelude::*;

verus! {

/// The time between two heartbeats of a process, in seconds.
pub const HEARTBEAT_TIMEOUT: u64 = 3;

/// The silence, in milliseconds, beyond which a peer is suspected: twice
/// the time between heartbeats.
pub const SUSPICION_AFTER: u64 = 2 * HEARTBEAT_TIMEOUT * 1000;

/// The view identifier under which a process that does not lead reports an
/// unreachable peer.
pub const PASSIVE_VIEW_ID: u32 = 0;

/// When each peer was last heard.
pub struct HeartbeatTable {
    last_seen: HashMap<u32, u64>,
}

impl View for HeartbeatTable {
    type V = Map<u32, u64>;

    closed spec fn view(&self) -> Map<u32, u64> {
        self.last_seen@
    }
}

/// The peers for which a removal has been started and has not yet ended.
pub struct PendingRemovals {
    peers: HashSet<u32>,
}

impl View for PendingRemovals {
    type V = Set<u32>;

    closed spec fn view(&self) -> Set<u32> {
        self.peers@
    }
}

/// What one pass of the leader's monitor found.
#[derive(Debug, PartialEq, Eq)]
pub struct MonitorReport {
    /// One report for each overdue member, in the order of the view.
    pub notices: Vec<String>,
    /// The overdue members for which a removal starts now.
    pub removals: Vec<u32>,
}

/// The peer has been heard once, and since then not for longer than the
/// allowed silence.
pub open spec fn overdue(table: Map<u32, u64>, peer: u32, now: u64) -> bool {
    table.contains_key(peer) && now - table[peer] > SUSPICION_AFTER
}

/// The overdue members, in the order of the view.
pub open spec fn suspects(members: Seq<u32>, table: Map<u32, u64>, now: u64) -> Seq<u32>
    decreases members.len(),
{
    if members.len() == 0 {
        Seq::empty()
    } else {
        let rest = suspects(members.drop_last(), table, now);
        if overdue(table, members.last(), now) {
            rest.push(members.last())
        } else {
            rest
        }
    }
}

/// The overdue members for which no removal is pending, each once, in the
/// order of the view.
pub open spec fn launched(members: Seq<u32>, table: Map<u32, u64>, now: u64, pending: Set<u32>) -> Seq<
    u32,
>
    decreases members.len(),
{
    if members.len() == 0 {
        Seq::empty()
    } else {
        let rest = launched(members.drop_last(), table, now, pending);
        let p = members.last();
        if overdue(table, p, now) && !pending.contains(p) && !rest.contains(p) {
            rest.push(p)
        } else {
            rest
        }
    }
}

/// The reports that the process `local_id` prints about unreachable peers.
pub open spec fn notices_for(peers: Seq<u32>, local_id: u32, view_id: u32, leader: u32) -> Seq<
    Seq<char>,
> {
    Seq::new(peers.len(), |i: int| unreachable_report(local_id, view_id, leader, peers[i]))
}

/// What a vector of strings holds.
pub open spec fn texts(v: Seq<String>) -> Seq<Seq<char>> {
    Seq::new(v.len(), |i: int| v[i]@)
}

impl HeartbeatTable {
    /// A table in which every peer of the registry but the process itself
    /// was last heard at `now`.
    pub fn new(peers: &Vec<UserInfo>, local_id: u32, now: u64) -> (r: HeartbeatTable)
        ensures
            forall|id: u32|
                r@.contains_key(id) <==> ids(peers@).contains(id) && id != local_id,
            forall|id: u32| r@.contains_key(id) ==> r@[id] == now,
    {
        let mut last_seen: HashMap<u32, u64> = HashMap::new();
        let mut i: usize = 0;
        while i < peers.len()
            invariant
                i <= peers.len(),
                forall|id: u32|
                    last_seen@.contains_key(id) <==> ids(peers@).take(i as int).contains(id) && id
                        != local_id,
                forall|id: u32| last_seen@.contains_key(id) ==> last_seen@[id] == now,
            decreases peers.len() - i,
        {
            let id = peers[i].id;
            if id != local_id {
                last_seen.insert(id, now);
            }
            proof {
                let next = ids(peers@).take(i + 1);
                let prev = ids(peers@).take(i as int);
                assert(next == prev.push(id));
                assert forall|x: u32| next.contains(x) <==> prev.contains(x) || x == id by {
                    if prev.contains(x) {
                        let j = choose|j: int| 0 <= j < prev.len() && prev[j] == x;
                        assert(next[j] == x);
                    }
                    if x == id {
                        assert(next[i as int] == x);
                    }
                }
            }
            i += 1;
        }
        assert(ids(peers@).take(peers.len() as int) == ids(peers@));
        HeartbeatTable { last_seen }
    }

    /// When `peer` was last heard, if it ever was.
    pub fn last_seen(&self, peer: u32) -> (r: Option<u64>)
        ensures
            r == (if self@.contains_key(peer) {
                Some(self@[peer])
            } else {
                None
            }),
    {
        match self.last_seen.get(&peer) {
            Some(t) => Some(*t),
            None => None,
        }
    }

    /// Takes in one datagram received at `now`.
    ///
    /// A datagram that begins with `HEARTBEAT:` is answered with `ALIVE`.
    /// Where it is a heartbeat with a sender that can be read, that sender
    /// was last heard at `now`. Any other datagram changes nothing and gets
    /// no answer.
    pub fn failure_listener(&mut self, datagram: &str, now: u64) -> (reply: Option<String>)
        ensures
            match reply {
                Some(text) => starts_with(datagram@, "HEARTBEAT:"@) && text@ == "ALIVE"@,
                None => !starts_with(datagram@, "HEARTBEAT:"@),
            },
            final(self)@ == (match read_message(datagram@) {
                Some(Wire::Heartbeat { sender }) => if starts_with(datagram@, "HEARTBEAT:"@) {
                    old(self)@.insert(sender, now)
                } else {
                    old(self)@
                },
                _ => old(self)@,
            }),
    {
        if !has_prefix(&chars_of(datagram), &chars_of("HEARTBEAT:")) {
            return None;
        }
        match Message::decode(datagram) {
            Some(Message::Heartbeat { sender }) => {
                self.last_seen.insert(sender, now);
            },
            _ => {},
        }
        Some(String::from_str("ALIVE"))
    }

    /// Tells whether `peer` has been heard, and not for more than the
    /// allowed silence.
    pub fn is_overdue(&self, peer: u32, now: u64) -> (r: bool)
        ensures
            r == overdue(self@, peer, now),
    {
        match self.last_seen.get(&peer) {
            Some(t) => *t <= now && now - *t > SUSPICION_AFTER,
            None => false,
        }
    }
}

impl PendingRemovals {
    /// No removal is pending.
    pub fn new() -> (r: PendingRemovals)
        ensures
            r@ == Set::<u32>::empty(),
    {
        PendingRemovals { peers: HashSet::new() }
    }

    /// Tells whether a removal of `peer` is pending.
    pub fn contains(&self, peer: u32) -> (r: bool)
        ensures
            r == self@.contains(peer),
    {
        self.peers.contains(&peer)
    }

    /// The removal of `peer` has ended, by commit or by abort: it is pending
    /// no longer.
    pub fn settle(&mut self, peer: u32)
        ensures
            final(self)@ == old(self)@.remove(peer),
    {
        self.peers.remove(&peer);
    }
}

/// Judges the first datagram that has come in after a probe:
/// `from_probed` says whether the probed peer sent it. The probed peer is
/// alive if the datagram is its own and begins with `ALIVE`. A datagram of
/// any other host does not speak for it.
pub fn failure_detection(datagram: &str, from_probed: bool) -> (r: bool)
    ensures
        r == (from_probed && starts_with(datagram@, "ALIVE"@)),
{
    from_probed && has_prefix(&chars_of(datagram), &chars_of("ALIVE"))
}

/// One beat of the sender: the heartbeat of the process `local_id`, and the
/// peers of the registry to send it to, which are all but the process
/// itself.
pub fn heartbeat_round(peers: &Vec<UserInfo>, local_id: u32) -> (r: (String, Vec<UserInfo>))
    ensures
        r.0@ == wire_text(Wire::Heartbeat { sender: local_id }),
        r.1@ == others(peers@, local_id, local_id),
{
    (Message::Heartbeat { sender: local_id }.encode(), members_except(peers, local_id, local_id))
}

/// The deletion coordinator, first part: begins the round that removes the
/// suspected member `target`, by the rules of `ViewStore::begin_deletion`.
/// Where no round begins, the removal is pending no longer.
pub fn initiate_deletion(store: &mut ViewStore, pending: &mut PendingRemovals, target: u32) -> (r:
    Result<Proposal, Refusal>)
    ensures
        final(store).leader_id() == old(store).leader_id(),
        deletion_begun(*old(store), *final(store), target, r),
        final(pending)@ == (if r is Err {
            old(pending)@.remove(target)
        } else {
            old(pending)@
        }),
{
    let r = store.begin_deletion(target);
    if r.is_err() {
        pending.settle(target);
    }
    r
}

/// The deletion coordinator, second part: ends the round by the commit
/// rule. Whether the round has committed or not, the removal of its target
/// is pending no longer, so that a later pass of the monitor may start it
/// again where the view is as it was.
pub fn conclude_deletion(store: &mut ViewStore, pending: &mut PendingRemovals, round: &PendingRound) -> (r:
    Outcome)
    ensures
        final(store).leader_id() == old(store).leader_id(),
        round_resolved(*old(store), *final(store), *round, r),
        final(pending)@ == old(pending)@.remove(round.target_peer.id),
{
    let r = store.resolve(round);
    pending.settle(round.target_peer.id);
    r
}

/// One pass of the leader's monitor at `now`.
///
/// Every member of the view that is overdue is reported. For each of them
/// for which no removal is pending, a removal starts now and is pending
/// from now on.
pub fn leader_heartbeat_monitor(
    view: &PeerState,
    table: &HeartbeatTable,
    pending: &mut PendingRemovals,
    local_id: u32,
    leader: u32,
    now: u64,
) -> (r: MonitorReport)
    ensures
        texts(r.notices@) == notices_for(
            suspects(view.ids(), table@, now),
            local_id,
            view.view_id,
            leader,
        ),
        r.removals@ == launched(view.ids(), table@, now, old(pending)@),
        forall|p: u32|
            #![trigger final(pending)@.contains(p)]
            #![trigger r.removals@.contains(p)]
            final(pending)@.contains(p) <==> old(pending)@.contains(p) || r.removals@.contains(p),
        forall|p: u32| #[trigger] r.removals@.contains(p) ==> !old(pending)@.contains(p),
{
    let mut notices: Vec<String> = Vec::new();
    let mut removals: Vec<u32> = Vec::new();
    let ghost mut found: Seq<u32> = Seq::empty();
    let mut i: usize = 0;
    assert(view.ids().take(0).len() == 0);
    assert(texts(notices@) == notices_for(found, local_id, view.view_id, leader));
    while i < view.membership.len()
        invariant
            i <= view.membership.len(),
            found == suspects(view.ids().take(i as int), table@, now),
            texts(notices@) == notices_for(found, local_id, view.view_id, leader),
            removals@ == launched(view.ids().take(i as int), table@, now, old(pending)@),
            forall|p: u32|
                #![trigger pending@.contains(p)]
                #![trigger removals@.contains(p)]
                pending@.contains(p) <==> old(pending)@.contains(p) || removals@.contains(p),
            forall|p: u32| #[trigger] removals@.contains(p) ==> !old(pending)@.contains(p),
        decreases view.membership.len() - i,
    {
        let peer = view.membership[i].id;
        proof {
            assert(view.ids().take(i + 1).drop_last() == view.ids().take(i as int));
            assert(view.ids().take(i + 1).last() == peer);
        }
        if table.is_overdue(peer, now) {
            let notice = unreachable_line(local_id, view.view_id, leader, peer);
            proof {
                let before = texts(notices@);
                assert(texts(notices@.push(notice)) == before.push(notice@));
                assert(notices_for(found.push(peer), local_id, view.view_id, leader)
                    == notices_for(found, local_id, view.view_id, leader).push(
                    unreachable_report(local_id, view.view_id, leader, peer),
                ));
                found = found.push(peer);
            }
            notices.push(notice);
            let ghost before = removals@;
            let ghost waiting = pending@;
            let known = pending.peers.contains(&peer);
            assert(known == waiting.contains(peer));
            assert(waiting.contains(peer) <==> old(pending)@.contains(peer) || before.contains(
                peer,
            ));
            if !known {
                pending.peers.insert(peer);
                removals.push(peer);
                proof {
                    assert(pending@ == waiting.insert(peer));
                    assert(removals@ == before.push(peer));
                    assert forall|p: u32| #[trigger]
                        removals@.contains(p) <==> before.contains(p) || p == peer by {
                        if before.contains(p) {
                            let j = choose|j: int| 0 <= j < before.len() && before[j] == p;
                            assert(removals@[j] == p);
                        }
                        if p == peer {
                            assert(removals@[before.len() as int] == p);
                        }
                    }
                    assert forall|p: u32| #[trigger]
                        pending@.contains(p) <==> old(pending)@.contains(p) || removals@.contains(
                            p,
                        ) by {
                        assert(pending@.contains(p) <==> waiting.contains(p) || p == peer);
                        assert(waiting.contains(p) <==> old(pending)@.contains(p)
                            || before.contains(p));
                    }
                }
            }
        }
        i += 1;
    }
    assert(view.ids().take(view.membership.len() as int) == view.ids());
    MonitorReport { notices, removals }
}

/// One pass of the monitor of a process that does not lead, at `now`: a
/// report for every member of the cached view that is overdue, in the order
/// of the view. Nothing else is done about them.
pub fn non_leader_heartbeat_monitor(
    view: &PeerState,
    table: &HeartbeatTable,
    local_id: u32,
    leader: u32,
    now: u64,
) -> (r: Vec<String>)
    ensures
        texts(r@) == notices_for(
            suspects(view.ids(), table@, now),
            local_id,
            PASSIVE_VIEW_ID,
            leader,
        ),
{
    let mut notices: Vec<String> = Vec::new();
    let ghost mut found: Seq<u32> = Seq::empty();
    let mut i: usize = 0;
    assert(view.ids().take(0).len() == 0);
    assert(texts(notices@) == notices_for(found, local_id, PASSIVE_VIEW_ID, leader));
    while i < view.membership.len()
        invariant
            i <= view.membership.len(),
            found == suspects(view.ids().take(i as int), table@, now),
            texts(notices@) == notices_for(found, local_id, PASSIVE_VIEW_ID, leader),
        decreases view.membership.len() - i,
    {
        let peer = view.membership[i].id;
        proof {
            assert(view.ids().take(i + 1).drop_last() == view.ids().take(i as int));
            assert(view.ids().take(i + 1).last() == peer);
        }
        if table.is_overdue(peer, now) {
            let notice = unreachable_line(local_id, PASSIVE_VIEW_ID, leader, peer);
            proof {
                let before = texts(notices@);
                assert(texts(notices@.push(notice)) == before.push(notice@));
                assert(notices_for(found.push(peer), local_id, PASSIVE_VIEW_ID, leader)
                    == notices_for(found, local_id, PASSIVE_VIEW_ID, leader).push(
                    unreachable_report(local_id, PASSIVE_VIEW_ID, leader, peer),
                ));
                found = found.push(peer);
            }
            notices.push(notice);
        }
        i += 1;
    }
    assert(view.ids().take(view.membership.len() as int) == view.ids());
    notices
}

/// A pass of the monitor starts removals only for overdue members of the
/// view for which none is pending, and for each of them once.
pub proof fn lemma_launched(members: Seq<u32>, table: Map<u32, u64>, now: u64, pending: Set<u32>)
    ensures
        forall|p: u32| #[trigger]
            launched(members, table, now, pending).contains(p) ==> !pending.contains(p) && overdue(
                table,
                p,
                now,
            ) && members.contains(p),
        launched(members, table, now, pending).no_duplicates(),
    decreases members.len(),
{
    if members.len() > 0 {
        let front = members.drop_last();
        let last = members.last();
        lemma_launched(front, table, now, pending);
        let rest = launched(front, table, now, pending);
        let all = launched(members, table, now, pending);
        assert forall|p: u32| #[trigger] all.contains(p) implies !pending.contains(p) && overdue(
            table,
            p,
            now,
        ) && members.contains(p) by {
            let i = choose|i: int| 0 <= i < all.len() && all[i] == p;
            if i < rest.len() {
                assert(rest[i] == p);
                assert(rest.contains(p));
                let j = choose|j: int| 0 <= j < front.len() && front[j] == p;
                assert(members[j] == p);
            } else {
                assert(p == last);
                assert(members[members.len() - 1] == p);
            }
        }
    }
}

/// Idempotent suspicion. While a removal of the peer `p` is pending, no
/// pass of the monitor starts another one for `p`, whatever the view, the
/// table and the time.
pub proof fn lemma_no_second_round(
    members: Seq<u32>,
    table: Map<u32, u64>,
    now: u64,
    pending: Set<u32>,
    p: u32,
)
    requires
        pending.contains(p),
    ensures
        !launched(members, table, now, pending).contains(p),
{
    lemma_launched(members, table, now, pending);
}

} // verus!
