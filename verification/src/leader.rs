//! The leader's side of the view-update protocol: the authoritative view,
//! the rounds that change it and the rule by which a round commits.

use crate::identity::{
    find_user_by_id, has_duplicate_ids, ids, lemma_position_of, position_of, UserInfo,
};
use crate::message::{
    lemma_round_trip, lemma_wire_text_trim, read_message, wire_text, Message, Operation, Wire,
};
use crate::text::{chars_of, same_text, trim, trimmed};
use crate::report::{view_change_line, view_report};
use crate::view::PeerState;
use vstd::prelude::*;

verus! {

/// The identifier of the process that leads: the first of the registry.
pub const LEADER_ID: u32 = 1;

/// One round of the view-update protocol that has not yet been resolved.
#[derive(Debug, PartialEq, Eq)]
pub struct PendingRound {
    /// The number of the round among the leader's rounds.
    pub request_id: u32,
    /// The view that the round proposes to change.
    pub base_view_id: u32,
    pub operation: Operation,
    /// The peer that joins or leaves.
    pub target_peer: UserInfo,
    /// The peers that have acknowledged the round, each once.
    pub responses: Vec<u32>,
}

/// Why the leader does not take up a change.
#[derive(Clone, Copy, Debug, PartialEq, Eq, Structural)]
pub enum Refusal {
    /// The peer to add is the leader itself, alone in its view: there is
    /// nobody to ask and nothing to add.
    AlreadyMember,
    /// The peer to remove is no member.
    NotMember,
    /// The peer to remove is the leader, which stays in every view.
    LeaderIsPermanent,
    /// The view identifier or the round counter has reached its last value.
    Exhausted,
}

/// A round that has begun: what to send, and to whom.
#[derive(Debug, PartialEq, Eq)]
pub struct Proposal {
    pub round: PendingRound,
    /// The proposal as a line of text.
    pub request: String,
    /// The members to ask: all but the leader and the target.
    pub contacts: Vec<UserInfo>,
}

/// A committed view: what to send, and to whom.
#[derive(Debug, PartialEq, Eq)]
pub struct Announcement {
    pub view_id: u32,
    pub members: Vec<u32>,
    /// The new view as a line of text.
    pub line: String,
    /// The peer that joined, to be answered on the connection it asked on.
    pub reply_to: Option<UserInfo>,
    /// The other members of the new view, the leader left out, each to be
    /// told over a connection of its own.
    pub recipients: Vec<UserInfo>,
    /// The leader's report of the view change.
    pub report: String,
}

/// What the leader does with a request to join.
#[derive(Debug, PartialEq, Eq)]
pub enum JoinStep {
    /// The request is not taken up. The joiner gets no answer: its
    /// connection is closed, which it takes as a failed join.
    Refused(Refusal),
    /// The leader was alone and has committed the new view at once.
    Committed(Announcement),
    /// A round has begun.
    Proposed(Proposal),
}

/// What the leader does with a line received on a fresh connection.
#[derive(Debug, PartialEq, Eq)]
pub enum JoinHandling {
    /// The line is no request to join: nothing is done.
    Ignored,
    /// The process that asks is not in the registry: the request is passed
    /// over, and the view is as it was.
    Unknown(u32),
    /// The request has been taken up.
    Step(JoinStep),
}

/// How a round ended.
#[derive(Debug, PartialEq, Eq)]
pub enum Outcome {
    Committed(Announcement),
    /// The view is as it was, and nobody is told anything. Where the round
    /// was to add a joiner, the joiner's connection is closed without an
    /// answer, which it takes as a failed join; it may ask again. Where it
    /// was to remove a member, a later pass of the monitor may start the
    /// removal again.
    Aborted,
}

/// The members other than those with identifier `a` or `b`, in order.
pub open spec fn others(members: Seq<UserInfo>, a: u32, b: u32) -> Seq<UserInfo>
    decreases members.len(),
{
    if members.len() == 0 {
        Seq::empty()
    } else {
        let rest = others(members.drop_last(), a, b);
        let u = members.last();
        if u.id != a && u.id != b {
            rest.push(u)
        } else {
            rest
        }
    }
}

/// Every member other than the leader and the target has acknowledged.
pub open spec fn unanimous(members: Seq<u32>, leader: u32, target: u32, responses: Seq<u32>) -> bool {
    forall|i: int|
        0 <= i < members.len() && members[i] != leader && members[i] != target
            ==> responses.contains(#[trigger] members[i])
}

/// The change can be made to the view: a peer to add is no member yet, a
/// peer to remove is a member other than the leader.
pub open spec fn admissible(members: Seq<u32>, leader: u32, op: Operation, target: u32) -> bool {
    match op {
        Operation::Add => !members.contains(target),
        Operation::Del => members.contains(target) && target != leader,
    }
}

/// The members after the change.
pub open spec fn applied(members: Seq<UserInfo>, op: Operation, target: UserInfo) -> Seq<UserInfo> {
    match op {
        Operation::Add => members.push(target),
        Operation::Del => members.remove(position_of(ids(members), target.id)),
    }
}

/// Neither the view identifier nor the round counter can be advanced.
pub open spec fn exhausted(view: PeerState) -> bool {
    view.view_id == u32::MAX || view.req_counter == u32::MAX
}

/// The rule by which a round commits: it was begun on the current view, the
/// change can still be made, and every member other than the leader and the
/// target has acknowledged it.
pub open spec fn commits(view: PeerState, leader: u32, round: PendingRound) -> bool {
    &&& round.base_view_id == view.view_id
    &&& view.view_id < u32::MAX
    &&& admissible(view.ids(), leader, round.operation, round.target_peer.id)
    &&& unanimous(view.ids(), leader, round.target_peer.id, round.responses@)
}

/// The text by which a member acknowledges the round: `OK:<req_id>:<view_id>`
/// with the round's own request number and view identifier, in base ten
/// without sign or leading zeros.
pub open spec fn acknowledgement(round: PendingRound) -> Seq<char> {
    wire_text(Wire::Ack { req_id: round.request_id, view_id: round.base_view_id })
}

/// A reply acknowledges the round: it was received and, trimmed, it is the
/// round's acknowledgement, character by character.
pub open spec fn acknowledges(round: PendingRound, reply: Option<Seq<char>>) -> bool {
    match reply {
        Some(text) => trim(text) == acknowledgement(round),
        None => false,
    }
}

/// The line that proposes the round.
pub open spec fn request_line(round: PendingRound) -> Seq<char> {
    wire_text(
        Wire::Req {
            req_id: round.request_id,
            view_id: round.base_view_id,
            op: round.operation,
            target: round.target_peer.id,
        },
    ).push('\n')
}

/// The line that announces a view.
pub open spec fn announcement_line(view: PeerState) -> Seq<char> {
    wire_text(Wire::NewView { view_id: view.view_id, members: view.ids() }).push('\n')
}

/// `a` announces the view `view`, committed by the leader `leader` for the
/// change `op` of `target`.
pub open spec fn announces(
    a: Announcement,
    view: PeerState,
    leader: u32,
    op: Operation,
    target: UserInfo,
) -> bool {
    &&& a.view_id == view.view_id
    &&& a.members@ == view.ids()
    &&& a.line@ == announcement_line(view)
    &&& a.reply_to == (match op {
        Operation::Add => Some(target),
        Operation::Del => None,
    })
    &&& a.recipients@ == others(view.membership@, leader, target.id)
    &&& a.report@ == view_report(leader, view.view_id, leader, view.ids())
}

/// Tells whether `x` occurs in `v`.
pub fn holds(v: &Vec<u32>, x: u32) -> (r: bool)
    ensures
        r == v@.contains(x),
{
    let mut i: usize = 0;
    while i < v.len()
        invariant
            i <= v.len(),
            forall|j: int| 0 <= j < i ==> v@[j] != x,
        decreases v.len() - i,
    {
        if v[i] == x {
            return true;
        }
        i += 1;
    }
    false
}

/// The members other than those with identifier `a` or `b`, in order.
pub fn members_except(members: &Vec<UserInfo>, a: u32, b: u32) -> (r: Vec<UserInfo>)
    ensures
        r@ == others(members@, a, b),
{
    let mut out: Vec<UserInfo> = Vec::new();
    let mut i: usize = 0;
    assert(members@.take(0).len() == 0);
    while i < members.len()
        invariant
            i <= members.len(),
            out@ == others(members@.take(i as int), a, b),
        decreases members.len() - i,
    {
        assert(members@.take(i + 1).drop_last() == members@.take(i as int));
        if members[i].id != a && members[i].id != b {
            out.push(members[i].clone());
        }
        i += 1;
    }
    assert(members@.take(members.len() as int) == members@);
    out
}

/// Tells whether every member other than the leader and the target has
/// acknowledged.
pub fn all_acknowledged(members: &Vec<UserInfo>, leader: u32, target: u32, responses: &Vec<u32>) -> (r:
    bool)
    ensures
        r == unanimous(ids(members@), leader, target, responses@),
{
    let mut i: usize = 0;
    while i < members.len()
        invariant
            i <= members.len(),
            forall|j: int|
                0 <= j < i && ids(members@)[j] != leader && ids(members@)[j] != target
                    ==> responses@.contains(#[trigger] ids(members@)[j]),
        decreases members.len() - i,
    {
        let id = members[i].id;
        if id != leader && id != target && !holds(responses, id) {
            assert(ids(members@)[i as int] == id);
            return false;
        }
        i += 1;
    }
    true
}

/// The identifiers after one more member.
pub proof fn lemma_ids_push(members: Seq<UserInfo>, u: UserInfo)
    ensures
        ids(members.push(u)) == ids(members).push(u.id),
        !ids(members).contains(u.id) && ids(members).no_duplicates() ==> ids(
            members.push(u),
        ).no_duplicates(),
        forall|x: u32| ids(members).contains(x) ==> ids(members.push(u)).contains(x),
{
    let before = ids(members);
    let after = ids(members.push(u));
    assert(after =~= before.push(u.id));
    assert forall|x: u32| before.contains(x) implies after.contains(x) by {
        let i = choose|i: int| 0 <= i < before.len() && before[i] == x;
        assert(after[i] == x);
    }
}

/// The identifiers after the member at position `p` has left.
pub proof fn lemma_ids_remove(members: Seq<UserInfo>, p: int)
    requires
        0 <= p < members.len(),
    ensures
        ids(members.remove(p)) == ids(members).remove(p),
        ids(members).no_duplicates() ==> ids(members.remove(p)).no_duplicates(),
        forall|x: u32|
            ids(members).contains(x) && x != ids(members)[p] ==> ids(members.remove(p)).contains(
                x,
            ),
        ids(members).no_duplicates() ==> !ids(members.remove(p)).contains(ids(members)[p]),
{
    let before = ids(members);
    let after = ids(members.remove(p));
    assert(after =~= before.remove(p));
    assert forall|x: u32| before.contains(x) && x != before[p] implies after.contains(x) by {
        let i = choose|i: int| 0 <= i < before.len() && before[i] == x;
        if i < p {
            assert(after[i] == x);
        } else {
            assert(after[i - 1] == x);
        }
    }
    if before.no_duplicates() {
        assert forall|i: int, j: int|
            0 <= i < after.len() && 0 <= j < after.len() && i != j implies after[i] != after[j] by {
            let a = if i < p {
                i
            } else {
                i + 1
            };
            let b = if j < p {
                j
            } else {
                j + 1
            };
            assert(after[i] == before[a] && after[j] == before[b]);
        }
        if after.contains(before[p]) {
            let i = choose|i: int| 0 <= i < after.len() && after[i] == before[p];
            let a = if i < p {
                i
            } else {
                i + 1
            };
            assert(after[i] == before[a]);
        }
    }
}

/// The position of the first member with identifier `id`, or the number of
/// members if there is none.
pub fn index_of(members: &Vec<UserInfo>, id: u32) -> (r: usize)
    ensures
        r == position_of(ids(members@), id),
        r <= members.len(),
        r < members.len() <==> ids(members@).contains(id),
        r < members.len() ==> members[r as int].id == id,
{
    let mut i: usize = 0;
    while i < members.len() && members[i].id != id
        invariant
            i <= members.len(),
            forall|j: int| 0 <= j < i ==> ids(members@)[j] != id,
        decreases members.len() - i,
    {
        i += 1;
    }
    proof {
        lemma_position_of(ids(members@), id, i as int);
        if i < members.len() {
            assert(ids(members@)[i as int] == id);
        }
    }
    i
}

impl PendingRound {
    /// Takes note of what a contacted member answered; `None` stands for a
    /// member that could not be reached or did not answer. The member is
    /// added to the responses if its reply acknowledges this round and it
    /// is not among them yet.
    pub fn record(&mut self, peer: u32, reply: Option<&str>)
        ensures
            final(self).request_id == old(self).request_id,
            final(self).base_view_id == old(self).base_view_id,
            final(self).operation == old(self).operation,
            final(self).target_peer == old(self).target_peer,
            final(self).responses@ == if acknowledges(
                *old(self),
                match reply {
                    Some(t) => Some(t@),
                    None => None,
                },
            ) && !old(self).responses@.contains(peer) {
                old(self).responses@.push(peer)
            } else {
                old(self).responses@
            },
    {
        match reply {
            None => {},
            Some(text) => {
                let expected = Message::Ack {
                    req_id: self.request_id,
                    view_id: self.base_view_id,
                }.encode();
                if same_text(&trimmed(&chars_of(text)), &chars_of(expected.as_str())) && !holds(
                    &self.responses,
                    peer,
                ) {
                    self.responses.push(peer);
                }
            },
        }
    }
}

/// The authoritative view, held by the process that leads.
pub struct ViewStore {
    leader: u32,
    state: PeerState,
}

/// What `ViewStore::join` makes of the store `before` for the joiner
/// `joiner`: the store `after` and the step `r`.
///
/// Where the view holds one member, the leader, the joiner is added at
/// once, unless it is that member or the view identifier cannot go up.
/// Where it holds more, a round begins whoever the joiner is, unless the
/// counters cannot go up: the round counter rises by one, and every member
/// but the leader and the joiner is a contact.
pub open spec fn join_step(before: ViewStore, after: ViewStore, joiner: UserInfo, r: JoinStep) -> bool {
    let alone = before.current().membership.len() == 1;
    match r {
        JoinStep::Refused(why) => {
            &&& after.current() == before.current()
            &&& if alone && before.current().ids().contains(joiner.id) {
                why == Refusal::AlreadyMember
            } else {
                why == Refusal::Exhausted && exhausted(before.current())
            }
        },
        JoinStep::Committed(a) => {
            &&& alone
            &&& !before.current().ids().contains(joiner.id)
            &&& !exhausted(before.current())
            &&& after.current().view_id == before.current().view_id + 1
            &&& after.current().req_counter == before.current().req_counter
            &&& after.current().membership@ == before.current().membership@.push(joiner)
            &&& announces(a, after.current(), before.leader_id(), Operation::Add, joiner)
        },
        JoinStep::Proposed(p) => {
            &&& !alone
            &&& !exhausted(before.current())
            &&& after.current().view_id == before.current().view_id
            &&& after.current().req_counter == before.current().req_counter + 1
            &&& after.current().membership@ == before.current().membership@
            &&& p.round.request_id == before.current().req_counter + 1
            &&& p.round.base_view_id == before.current().view_id
            &&& p.round.operation == Operation::Add
            &&& p.round.target_peer == joiner
            &&& p.round.responses@.len() == 0
            &&& p.request@ == request_line(p.round)
            &&& p.contacts@ == others(before.current().membership@, before.leader_id(), joiner.id)
        },
    }
}

/// What `ViewStore::begin_deletion` makes of the store `before` for the
/// peer `target`: the store `after` and the result `r`.
pub open spec fn deletion_begun(
    before: ViewStore,
    after: ViewStore,
    target: u32,
    r: Result<Proposal, Refusal>,
) -> bool {
    &&& after.current().view_id == before.current().view_id
    &&& after.current().membership@ == before.current().membership@
    &&& match r {
        Err(why) => {
            &&& after.current() == before.current()
            &&& if !before.current().ids().contains(target) {
                why == Refusal::NotMember
            } else if target == before.leader_id() {
                why == Refusal::LeaderIsPermanent
            } else {
                why == Refusal::Exhausted && exhausted(before.current())
            }
        },
        Ok(p) => {
            &&& before.current().ids().contains(target)
            &&& target != before.leader_id()
            &&& !exhausted(before.current())
            &&& after.current().req_counter == before.current().req_counter + 1
            &&& p.round.request_id == before.current().req_counter + 1
            &&& p.round.base_view_id == before.current().view_id
            &&& p.round.operation == Operation::Del
            &&& p.round.target_peer == before.current().membership[position_of(
                before.current().ids(),
                target,
            )]
            &&& p.round.target_peer.id == target
            &&& p.round.responses@.len() == 0
            &&& p.request@ == request_line(p.round)
            &&& p.contacts@ == others(before.current().membership@, before.leader_id(), target)
        },
    }
}

/// What `ViewStore::resolve` makes of the store `before` for the round
/// `round`: the store `after` and the outcome `r`. The round commits if and
/// only if the commit rule holds; one that does not leaves the view as it
/// was.
pub open spec fn round_resolved(
    before: ViewStore,
    after: ViewStore,
    round: PendingRound,
    r: Outcome,
) -> bool {
    match r {
        Outcome::Aborted => {
            &&& !commits(before.current(), before.leader_id(), round)
            &&& after.current() == before.current()
        },
        Outcome::Committed(a) => {
            &&& commits(before.current(), before.leader_id(), round)
            &&& after.current().view_id == before.current().view_id + 1
            &&& after.current().req_counter == before.current().req_counter
            &&& after.current().membership@ == applied(
                before.current().membership@,
                round.operation,
                round.target_peer,
            )
            &&& announces(
                a,
                after.current(),
                before.leader_id(),
                round.operation,
                round.target_peer,
            )
        },
    }
}

impl ViewStore {
    #[verifier::type_invariant]
    spec fn inv(&self) -> bool {
        self.state.wf() && self.state.ids().contains(self.leader)
    }

    /// The identifier of the leader.
    pub closed spec fn leader_id(&self) -> u32 {
        self.leader
    }

    /// The current view.
    pub closed spec fn current(&self) -> PeerState {
        self.state
    }

    /// A store that holds view 0: the leader alone.
    pub fn new(leader: UserInfo) -> (r: ViewStore)
        ensures
            r.leader_id() == leader.id,
            r.current().view_id == 0,
            r.current().req_counter == 0,
            r.current().membership@ == seq![leader],
    {
        let id = leader.id;
        let state = PeerState::initial(leader);
        assert(state.ids()[0] == id);
        ViewStore { leader: id, state }
    }

    /// A store that holds the view `state` under the leader `leader`, if
    /// that is a view a leader can hold: no identifier occurs twice in it,
    /// and the leader is a member.
    pub fn with_view(leader: u32, state: PeerState) -> (r: Option<ViewStore>)
        ensures
            match r {
                Some(store) => state.wf() && state.ids().contains(leader) && store.leader_id()
                    == leader && store.current() == state,
                None => !(state.wf() && state.ids().contains(leader)),
            },
    {
        if has_duplicate_ids(&state.membership) || !state.contains(leader) {
            None
        } else {
            Some(ViewStore { leader, state })
        }
    }

    /// The identifier of the leader.
    pub fn leader(&self) -> (r: u32)
        ensures
            r == self.leader_id(),
    {
        self.leader
    }

    /// The current view. No identifier occurs twice in it, and the leader
    /// is a member.
    pub fn view(&self) -> (r: &PeerState)
        ensures
            *r == self.current(),
            r.wf(),
            r.ids().contains(self.leader_id()),
    {
        proof {
            use_type_invariant(self);
        }
        &self.state
    }

    /// The announcement of the current view after the change `op` of
    /// `target`.
    fn announce(&self, op: Operation, target: &UserInfo) -> (a: Announcement)
        ensures
            announces(a, self.current(), self.leader_id(), op, *target),
    {
        let members = self.state.member_ids();
        let line = Message::NewView {
            view_id: self.state.view_id,
            members: self.state.member_ids(),
        }.encode_line();
        let reply_to = match op {
            Operation::Add => Some(target.clone()),
            Operation::Del => None,
        };
        let recipients = members_except(&self.state.membership, self.leader, target.id);
        let report = view_change_line(self.leader, self.state.view_id, self.leader, &members);
        Announcement { view_id: self.state.view_id, members, line, reply_to, recipients, report }
    }

    /// Takes up the request of `joiner` to be added to the view.
    ///
    /// Where the leader is alone, the new view is committed at once,
    /// without a round; a joiner that is the leader itself is refused.
    /// Otherwise a round begins, whoever the joiner is: the round counter
    /// goes up by one and gives the round its number, and every member but
    /// the leader and the joiner is to be asked. The round of a joiner that
    /// is a member already does not commit when it is resolved. Any joiner
    /// is refused once the view identifier or the round counter has reached
    /// its last value.
    pub fn join(&mut self, joiner: UserInfo) -> (r: JoinStep)
        ensures
            final(self).leader_id() == old(self).leader_id(),
            join_step(*old(self), *final(self), joiner, r),
            r is Committed ==> is_commit(
                old(self).current(),
                final(self).current(),
                old(self).leader_id(),
            ),
    {
        proof {
            use_type_invariant(&*self);
        }
        let alone = self.state.membership.len() == 1;
        if alone && self.state.contains(joiner.id) {
            return JoinStep::Refused(Refusal::AlreadyMember);
        }
        if self.state.view_id == u32::MAX || self.state.req_counter == u32::MAX {
            return JoinStep::Refused(Refusal::Exhausted);
        }
        if alone {
            proof {
                lemma_ids_push(self.state.membership@, joiner);
            }
            let mut next = self.state.duplicate();
            next.membership.push(joiner.clone());
            next.view_id = next.view_id + 1;
            self.state = next;
            assert(self.state.membership@ == applied(
                old(self).state.membership@,
                Operation::Add,
                joiner,
            ));
            let a = self.announce(Operation::Add, &joiner);
            JoinStep::Committed(a)
        } else {
            self.state.req_counter = self.state.req_counter + 1;
            let request = Message::Req {
                req_id: self.state.req_counter,
                view_id: self.state.view_id,
                op: Operation::Add,
                target: joiner.id,
            }.encode_line();
            let contacts = members_except(&self.state.membership, self.leader, joiner.id);
            let round = PendingRound {
                request_id: self.state.req_counter,
                base_view_id: self.state.view_id,
                operation: Operation::Add,
                target_peer: joiner,
                responses: Vec::new(),
            };
            JoinStep::Proposed(Proposal { round, request, contacts })
        }
    }

    /// Begins the round that removes the member `target`.
    ///
    /// A peer that is no member is refused, and so is the leader itself,
    /// and any peer once the view identifier or the round counter has
    /// reached its last value. Otherwise the round counter goes up by one
    /// and gives the round its number, and every member but the leader and
    /// the target is to be asked.
    pub fn begin_deletion(&mut self, target: u32) -> (r: Result<Proposal, Refusal>)
        ensures
            final(self).leader_id() == old(self).leader_id(),
            deletion_begun(*old(self), *final(self), target, r),
    {
        proof {
            use_type_invariant(&*self);
        }
        let at = index_of(&self.state.membership, target);
        if at >= self.state.membership.len() {
            return Err(Refusal::NotMember);
        }
        if target == self.leader {
            return Err(Refusal::LeaderIsPermanent);
        }
        if self.state.view_id == u32::MAX || self.state.req_counter == u32::MAX {
            return Err(Refusal::Exhausted);
        }
        self.state.req_counter = self.state.req_counter + 1;
        let request = Message::Req {
            req_id: self.state.req_counter,
            view_id: self.state.view_id,
            op: Operation::Del,
            target,
        }.encode_line();
        let contacts = members_except(&self.state.membership, self.leader, target);
        let round = PendingRound {
            request_id: self.state.req_counter,
            base_view_id: self.state.view_id,
            operation: Operation::Del,
            target_peer: self.state.membership[at].clone(),
            responses: Vec::new(),
        };
        Ok(Proposal { round, request, contacts })
    }

    /// Ends a round by the commit rule.
    ///
    /// The round commits if and only if it was begun on the current view,
    /// its change can still be made, and every member other than the leader
    /// and the target is among its responses. On commit the view identifier
    /// goes up by one and the target joins or leaves the membership. A round
    /// that does not commit leaves the store as it was.
    pub fn resolve(&mut self, round: &PendingRound) -> (r: Outcome)
        ensures
            final(self).leader_id() == old(self).leader_id(),
            round_resolved(*old(self), *final(self), *round, r),
            r is Committed ==> is_commit(
                old(self).current(),
                final(self).current(),
                old(self).leader_id(),
            ),
    {
        proof {
            use_type_invariant(&*self);
        }
        let target = round.target_peer.id;
        if round.base_view_id != self.state.view_id || self.state.view_id == u32::MAX {
            return Outcome::Aborted;
        }
        let at = index_of(&self.state.membership, target);
        let member = at < self.state.membership.len();
        match round.operation {
            Operation::Add => {
                if member {
                    return Outcome::Aborted;
                }
            },
            Operation::Del => {
                if !member || target == self.leader {
                    return Outcome::Aborted;
                }
            },
        }
        if !all_acknowledged(&self.state.membership, self.leader, target, &round.responses) {
            return Outcome::Aborted;
        }
        let mut next = self.state.duplicate();
        match round.operation {
            Operation::Add => {
                proof {
                    lemma_ids_push(self.state.membership@, round.target_peer);
                }
                next.membership.push(round.target_peer.clone());
            },
            Operation::Del => {
                proof {
                    lemma_ids_remove(self.state.membership@, at as int);
                }
                next.membership.remove(at);
            },
        }
        next.view_id = next.view_id + 1;
        self.state = next;
        assert(self.state.membership@ == applied(
            old(self).state.membership@,
            round.operation,
            round.target_peer,
        ));
        let a = self.announce(round.operation, &round.target_peer);
        Outcome::Committed(a)
    }
}

/// The join coordinator: takes in the line that a joining process has
/// sent.
///
/// A line that is no `JOIN` with a readable identifier is passed over. The
/// identifier must be that of a process of the registry; the first entry
/// that carries it joins, by the rules of `ViewStore::join`.
pub fn join_listener_leader(store: &mut ViewStore, line: &str, registry: &Vec<UserInfo>) -> (r:
    JoinHandling)
    ensures
        final(store).leader_id() == old(store).leader_id(),
        match read_message(line@) {
            Some(Wire::Join { id }) => if ids(registry@).contains(id) {
                r matches JoinHandling::Step(step) && join_step(
                    *old(store),
                    *final(store),
                    registry[position_of(ids(registry@), id)],
                    step,
                )
            } else {
                r == JoinHandling::Unknown(id) && final(store).current() == old(store).current()
            },
            _ => r == JoinHandling::Ignored && final(store).current() == old(store).current(),
        },
{
    match Message::decode(line) {
        Some(Message::Join { id }) => match find_user_by_id(registry, id) {
            Some(joiner) => JoinHandling::Step(store.join(joiner)),
            None => JoinHandling::Unknown(id),
        },
        _ => JoinHandling::Ignored,
    }
}

/// The reply of the contact at position `i`: what was read from it, and
/// nothing where nothing was read or no reply is listed for it.
pub open spec fn reply_at(replies: Seq<Option<String>>, i: int) -> Option<Seq<char>> {
    if 0 <= i < replies.len() {
        match replies[i] {
            Some(t) => Some(t@),
            None => None,
        }
    } else {
        None
    }
}

/// The responses of a round after the replies of its contacts have been
/// taken in, one after the other: each contact whose reply acknowledges the
/// round is added, once.
pub open spec fn tally(round: PendingRound, contacts: Seq<u32>, replies: Seq<Option<String>>) -> Seq<
    u32,
>
    decreases contacts.len(),
{
    if contacts.len() == 0 {
        round.responses@
    } else {
        let rest = tally(round, contacts.drop_last(), replies);
        let i = contacts.len() - 1;
        if acknowledges(round, reply_at(replies, i)) && !rest.contains(contacts[i]) {
            rest.push(contacts[i])
        } else {
            rest
        }
    }
}

/// Takes in the replies of the contacts of a round, the reply at each
/// position being that of the contact at that position; `None` stands for
/// a contact that could not be reached or did not answer, and so does a
/// reply that is not listed. The result is the round, ready to be resolved.
pub fn run_round(proposal: Proposal, replies: &Vec<Option<String>>) -> (r: PendingRound)
    ensures
        r.request_id == proposal.round.request_id,
        r.base_view_id == proposal.round.base_view_id,
        r.operation == proposal.round.operation,
        r.target_peer == proposal.round.target_peer,
        r.responses@ == tally(proposal.round, ids(proposal.contacts@), replies@),
{
    let contacts = proposal.contacts;
    let mut round = proposal.round;
    let ghost start = round;
    let mut i: usize = 0;
    assert(ids(contacts@).take(0).len() == 0);
    while i < contacts.len()
        invariant
            i <= contacts.len(),
            round.request_id == start.request_id,
            round.base_view_id == start.base_view_id,
            round.operation == start.operation,
            round.target_peer == start.target_peer,
            round.responses@ == tally(start, ids(contacts@).take(i as int), replies@),
        decreases contacts.len() - i,
    {
        proof {
            let next = ids(contacts@).take(i + 1);
            assert(next.drop_last() == ids(contacts@).take(i as int));
            assert(next.last() == contacts@[i as int].id);
        }
        let reply: Option<&str> = if i < replies.len() {
            match &replies[i] {
                Some(t) => Some(t.as_str()),
                None => None,
            }
        } else {
            None
        };
        assert(match reply {
            Some(t) => Some(t@),
            None => None,
        } == reply_at(replies@, i as int));
        round.record(contacts[i].id, reply);
        i += 1;
    }
    assert(ids(contacts@).take(contacts.len() as int) == ids(contacts@));
    round
}

/// The members other than `a` and `b` are taken from the members in order:
/// `from` says from which position each comes.
proof fn lemma_others(members: Seq<UserInfo>, a: u32, b: u32) -> (from: Seq<int>)
    ensures
        from.len() == others(members, a, b).len(),
        forall|k: int|
            0 <= k < from.len() ==> 0 <= #[trigger] from[k] < members.len() && others(
                members,
                a,
                b,
            )[k] == members[from[k]] && members[from[k]].id != a && members[from[k]].id != b,
        forall|j: int, k: int| 0 <= j < k < from.len() ==> #[trigger] from[j] < #[trigger] from[k],
        forall|i: int|
            0 <= i < members.len() && members[i].id != a && members[i].id != b ==> #[trigger] from.contains(
                i,
            ),
    decreases members.len(),
{
    if members.len() == 0 {
        Seq::empty()
    } else {
        let front = members.drop_last();
        let prior = lemma_others(front, a, b);
        let last = members.len() - 1;
        let u = members.last();
        let from = if u.id != a && u.id != b {
            prior.push(last)
        } else {
            prior
        };
        assert forall|i: int|
            0 <= i < members.len() && members[i].id != a && members[i].id != b implies #[trigger] from.contains(
            i,
        ) by {
            if i < last {
                assert(front[i] == members[i]);
                assert(prior.contains(i));
                let k = choose|k: int| 0 <= k < prior.len() && prior[k] == i;
                assert(from[k] == i);
            } else {
                assert(from[prior.len() as int] == i);
            }
        }
        assert forall|k: int| 0 <= k < from.len() implies 0 <= #[trigger] from[k] < members.len()
            && others(members, a, b)[k] == members[from[k]] && members[from[k]].id != a
            && members[from[k]].id != b by {
            if k < prior.len() {
                assert(from[k] == prior[k]);
                assert(front[prior[k]] == members[prior[k]]);
            }
        }
        from
    }
}

/// What the responses hold after the replies have been taken in: what they
/// held before, and the contacts whose reply acknowledges the round.
proof fn lemma_tally(round: PendingRound, contacts: Seq<u32>, replies: Seq<Option<String>>)
    ensures
        forall|x: u32| #[trigger]
            tally(round, contacts, replies).contains(x) <==> round.responses@.contains(x)
                || exists|i: int|
                0 <= i < contacts.len() && #[trigger] contacts[i] == x && acknowledges(
                    round,
                    reply_at(replies, i),
                ),
    decreases contacts.len(),
{
    if contacts.len() > 0 {
        let front = contacts.drop_last();
        let last = contacts.len() - 1;
        lemma_tally(round, front, replies);
        let rest = tally(round, front, replies);
        let all = tally(round, contacts, replies);
        let adds = acknowledges(round, reply_at(replies, last)) && !rest.contains(contacts[last]);
        assert forall|x: u32| #[trigger]
            all.contains(x) <==> round.responses@.contains(x) || exists|i: int|
                0 <= i < contacts.len() && #[trigger] contacts[i] == x && acknowledges(
                    round,
                    reply_at(replies, i),
                ) by {
            if all.contains(x) {
                let k = choose|k: int| 0 <= k < all.len() && all[k] == x;
                if k < rest.len() {
                    assert(rest[k] == x);
                    assert(rest.contains(x));
                    if !round.responses@.contains(x) {
                        let i = choose|i: int|
                            0 <= i < front.len() && #[trigger] front[i] == x && acknowledges(
                                round,
                                reply_at(replies, i),
                            );
                        assert(contacts[i] == x);
                    }
                } else {
                    assert(contacts[last] == x);
                }
            }
            if round.responses@.contains(x) {
                assert(rest.contains(x));
                let k = choose|k: int| 0 <= k < rest.len() && rest[k] == x;
                assert(all[k] == x);
            }
            if exists|i: int|
                0 <= i < contacts.len() && #[trigger] contacts[i] == x && acknowledges(
                    round,
                    reply_at(replies, i),
                ) {
                let i = choose|i: int|
                    0 <= i < contacts.len() && #[trigger] contacts[i] == x && acknowledges(
                        round,
                        reply_at(replies, i),
                    );
                if i < last {
                    assert(front[i] == x);
                    assert(rest.contains(x));
                    let k = choose|k: int| 0 <= k < rest.len() && rest[k] == x;
                    assert(all[k] == x);
                } else if adds {
                    assert(all[rest.len() as int] == x);
                } else {
                    assert(rest.contains(x));
                    let k = choose|k: int| 0 <= k < rest.len() && rest[k] == x;
                    assert(all[k] == x);
                }
            }
        }
    }
}

/// Unanimity. A round that the leader has begun on its view, and to whose
/// contacts it has listened, meets the demand of the commit rule on the
/// responses if and only if every contact has sent back the `OK` of that
/// round: one contact that did not answer, or answered anything else, is
/// enough for the round not to commit.
pub proof fn lemma_unanimity(
    view: PeerState,
    leader: u32,
    round: PendingRound,
    replies: Seq<Option<String>>,
)
    requires
        view.wf(),
        round.responses@.len() == 0,
    ensures
        unanimous(
            view.ids(),
            leader,
            round.target_peer.id,
            tally(
                round,
                ids(others(view.membership@, leader, round.target_peer.id)),
                replies,
            ),
        ) <==> forall|i: int|
            0 <= i < others(view.membership@, leader, round.target_peer.id).len()
                ==> acknowledges(round, #[trigger] reply_at(replies, i)),
{
    let target = round.target_peer.id;
    let members = view.membership@;
    let contacts = ids(others(members, leader, target));
    let responses = tally(round, contacts, replies);
    let from = lemma_others(members, leader, target);
    lemma_tally(round, contacts, replies);
    assert forall|i: int, j: int| 0 <= i < j < contacts.len() implies contacts[i]
        != contacts[j] by {
        assert(from[i] < from[j]);
        assert(contacts[i] == view.ids()[from[i]]);
        assert(contacts[j] == view.ids()[from[j]]);
    }
    if forall|i: int| 0 <= i < contacts.len() ==> acknowledges(round, #[trigger] reply_at(replies, i)) {
        assert forall|m: int|
            0 <= m < view.ids().len() && view.ids()[m] != leader && view.ids()[m]
                != target implies responses.contains(#[trigger] view.ids()[m]) by {
            assert(members[m].id == view.ids()[m]);
            assert(from.contains(m));
            let k = choose|k: int| 0 <= k < from.len() && from[k] == m;
            assert(contacts[k] == view.ids()[m]);
            assert(acknowledges(round, reply_at(replies, k)));
        }
    }
    if unanimous(view.ids(), leader, target, responses) {
        assert forall|i: int| 0 <= i < contacts.len() implies acknowledges(
            round,
            #[trigger] reply_at(replies, i),
        ) by {
            let m = from[i];
            assert(view.ids()[m] == contacts[i]);
            assert(responses.contains(view.ids()[m]));
            let j = choose|j: int|
                0 <= j < contacts.len() && #[trigger] contacts[j] == contacts[i] && acknowledges(
                    round,
                    reply_at(replies, j),
                );
            assert(j == i);
        }
    }
}

/// `next` is `prev` after one committed change under the leader `leader`:
/// the view identifier is one higher, and one peer that could be added or
/// removed has been.
pub open spec fn is_commit(prev: PeerState, next: PeerState, leader: u32) -> bool {
    exists|op: Operation, target: UserInfo|
        #![trigger applied(prev.membership@, op, target)]
        admissible(prev.ids(), leader, op, target.id) && next.view_id == prev.view_id + 1
            && next.membership@ == applied(prev.membership@, op, target)
}

/// `h` is a run of committed views under the leader `leader`: it begins with
/// view 0, which holds the leader alone, and each view comes from the one
/// before it by one committed change.
pub open spec fn is_history(h: Seq<PeerState>, leader: u32) -> bool {
    &&& h.len() > 0
    &&& h[0].view_id == 0
    &&& h[0].ids() == seq![leader]
    &&& forall|i: int| 0 <= i < h.len() - 1 ==> is_commit(#[trigger] h[i], h[i + 1], leader)
}

/// `b` is `a` with one element more, which `a` did not hold, or with one
/// element less.
pub open spec fn differ_by_one(a: Seq<u32>, b: Seq<u32>) -> bool {
    ||| exists|x: u32| !a.contains(x) && b == #[trigger] a.push(x)
    ||| exists|p: int| 0 <= p < a.len() && b == #[trigger] a.remove(p)
}

/// Where `id` occurs, `position_of` is a position that holds it.
pub proof fn lemma_position_found(all: Seq<u32>, id: u32)
    requires
        all.contains(id),
    ensures
        0 <= position_of(all, id) < all.len(),
        all[position_of(all, id)] == id,
    decreases all.len(),
{
    if all[0] == id {
    } else {
        let t = all.drop_first();
        let i = choose|i: int| 0 <= i < all.len() && all[i] == id;
        assert(t[i - 1] == id);
        lemma_position_found(t, id);
        assert(t[position_of(t, id)] == all[position_of(t, id) + 1]);
    }
}

/// One committed change keeps what holds of every view, and changes the
/// membership by exactly one element.
pub proof fn lemma_commit_step(prev: PeerState, next: PeerState, leader: u32)
    requires
        prev.wf(),
        prev.ids().contains(leader),
        is_commit(prev, next, leader),
    ensures
        next.wf(),
        next.ids().contains(leader),
        next.view_id == prev.view_id + 1,
        differ_by_one(prev.ids(), next.ids()),
{
    let (op, target) = choose|op: Operation, target: UserInfo|
        #![trigger applied(prev.membership@, op, target)]
        admissible(prev.ids(), leader, op, target.id) && next.view_id == prev.view_id + 1
            && next.membership@ == applied(prev.membership@, op, target);
    match op {
        Operation::Add => {
            lemma_ids_push(prev.membership@, target);
            assert(next.ids() == prev.ids().push(target.id));
        },
        Operation::Del => {
            lemma_position_found(prev.ids(), target.id);
            let p = position_of(prev.ids(), target.id);
            lemma_ids_remove(prev.membership@, p);
            assert(next.ids() == prev.ids().remove(p));
        },
    }
}

/// Monotonicity. In a run of committed views that begins with view 0, the
/// view at position `i` has the identifier `i`, and each view differs from
/// the one before it by exactly one member, which has joined or left.
/// No view lists an identifier twice, and the leader is in each.
pub proof fn lemma_history_monotone(h: Seq<PeerState>, leader: u32)
    requires
        is_history(h, leader),
    ensures
        forall|i: int| 0 <= i < h.len() ==> (#[trigger] h[i]).view_id == i,
        forall|i: int| 0 <= i < h.len() ==> (#[trigger] h[i]).wf() && h[i].ids().contains(leader),
        forall|i: int|
            0 <= i < h.len() - 1 ==> differ_by_one((#[trigger] h[i]).ids(), h[i + 1].ids()),
    decreases h.len(),
{
    if h.len() == 1 {
        assert(h[0].ids()[0] == leader);
    } else {
        let front = h.drop_last();
        assert(is_history(front, leader)) by {
            assert(front[0] == h[0]);
            assert forall|i: int| 0 <= i < front.len() - 1 implies is_commit(
                #[trigger] front[i],
                front[i + 1],
                leader,
            ) by {
                assert(is_commit(h[i], h[i + 1], leader));
            }
        }
        lemma_history_monotone(front, leader);
        let n = h.len() - 1;
        assert(front[n - 1] == h[n - 1]);
        assert(is_commit(h[n - 1], h[n - 1 + 1], leader));
        lemma_commit_step(h[n - 1], h[n], leader);
        assert forall|i: int| 0 <= i < h.len() implies (#[trigger] h[i]).view_id == i && h[i].wf()
            && h[i].ids().contains(leader) by {
            if i < n {
                assert(front[i] == h[i]);
            }
        }
        assert forall|i: int| 0 <= i < h.len() - 1 implies differ_by_one(
            (#[trigger] h[i]).ids(),
            h[i + 1].ids(),
        ) by {
            if i < n - 1 {
                assert(front[i] == h[i] && front[i + 1] == h[i + 1]);
            }
        }
    }
}

/// Unanimity, the part of the replies. Of all the messages that a member
/// can send back as one line, exactly the `OK` that carries the round's own
/// request number and view identifier acknowledges the round.
pub proof fn lemma_acknowledges_exact(round: PendingRound, m: Wire)
    ensures
        acknowledges(round, Some(wire_text(m).push('\n'))) <==> m == (Wire::Ack {
            req_id: round.request_id,
            view_id: round.base_view_id,
        }),
{
    let ack = Wire::Ack { req_id: round.request_id, view_id: round.base_view_id };
    lemma_wire_text_trim(m);
    lemma_round_trip(m);
    lemma_round_trip(ack);
}

/// Unanimity, the part of the members. A round in which one member other
/// than the leader and the target is missing from the responses does not
/// commit.
pub proof fn lemma_one_missing_aborts(view: PeerState, leader: u32, round: PendingRound, m: u32)
    requires
        view.ids().contains(m),
        m != leader,
        m != round.target_peer.id,
        !round.responses@.contains(m),
    ensures
        !commits(view, leader, round),
{
    let i = choose|i: int| 0 <= i < view.ids().len() && view.ids()[i] == m;
    assert(view.ids()[i] == m);
}

} // verus!
