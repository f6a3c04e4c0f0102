//! The side of a process that does not lead: joining, acknowledging the
//! leader's proposals and adopting the views it announces.

use crate::identity::UserInfo;
use crate::leader::{announcement_line, ViewStore, LEADER_ID};
use crate::message::{
    lemma_new_view_round_trip, member_ids, read_message, wire_text, Message, Operation, Wire,
};
use crate::report::{unreachable_line, unreachable_report, view_change_line, view_report};
use crate::text::{chars_of, has_prefix, starts_with, strip_prefix, trim, trimmed, without_prefix};
use crate::view::{parse_view, read_view, unnamed, PeerState, ViewModel, ViewParseError};
use vstd::prelude::*;

verus! {

/// A process that follows a leader, with the view it last learned.
#[derive(Debug, PartialEq, Eq)]
pub struct Member {
    pub local_id: u32,
    pub leader: u32,
    /// The copy of the leader's view that this process holds.
    pub cached: PeerState,
}

/// What a member does with a line it has received.
#[derive(Debug, PartialEq, Eq)]
pub enum Reaction {
    /// The line is no proposal and no announcement: nothing is done.
    Ignored,
    /// The line is a proposal: `line` is to be sent back, and `notice`, if
    /// there is one, printed.
    Reply { line: String, notice: Option<String> },
    /// The line announces a view, which is now the cached view; `report` is
    /// to be printed.
    Adopted { report: String },
}

/// Why a process has not joined.
#[derive(Debug, PartialEq, Eq)]
pub enum JoinError {
    /// Nothing could be read from the leader; `notice` is to be printed.
    Unanswered { notice: String },
    /// The leader's answer is no announcement of a view. This is also how a
    /// connection reads that the leader has closed without an answer,
    /// because it refused the request or the round did not commit.
    NotNewView,
    /// The leader's answer announces a view that cannot be read.
    Malformed(ViewParseError),
}

/// A process that has joined, and its report of the view it entered.
#[derive(Debug, PartialEq, Eq)]
pub struct Joined {
    pub member: Member,
    pub report: String,
}

/// The notice that a member prints about a proposal: none for an addition,
/// and none at the leader; for a removal, that the target cannot be reached.
pub open spec fn proposal_notice(
    local_id: u32,
    leader: u32,
    view_id: u32,
    op: Operation,
    target: u32,
) -> Option<Seq<char>> {
    if op == Operation::Del && local_id != leader {
        Some(unreachable_report(local_id, view_id, leader, target))
    } else {
        None
    }
}

/// What an optional string holds.
pub open spec fn text_in(s: Option<String>) -> Option<Seq<char>> {
    match s {
        Some(t) => Some(t@),
        None => None,
    }
}

/// Which part of a process takes a fresh connection.
#[derive(Clone, Copy, Debug, PartialEq, Eq, Structural)]
pub enum Handler {
    /// The join coordinator, at the leader.
    Coordinator,
    /// The member's handler of proposals and announcements.
    Member,
    /// Nobody: a request to join that reached a process that does not lead.
    Dropped,
}

/// Decides by the first bytes of a fresh connection who takes it: what
/// begins with `JOIN:` goes to the join coordinator where the process
/// leads, and is dropped elsewhere; anything else goes to the member's
/// handler.
pub fn route_connection(first_bytes: &str, local_id: u32, leader: u32) -> (r: Handler)
    ensures
        r == (if !starts_with(first_bytes@, "JOIN:"@) {
            Handler::Member
        } else if local_id == leader {
            Handler::Coordinator
        } else {
            Handler::Dropped
        }),
{
    if !has_prefix(&chars_of(first_bytes), &chars_of("JOIN:")) {
        Handler::Member
    } else if local_id == leader {
        Handler::Coordinator
    } else {
        Handler::Dropped
    }
}

/// How a process enters the group.
pub enum Entry {
    /// The process leads: it holds view 0, in which it is alone.
    Leads(ViewStore),
    /// The process does not lead: it is to find the leader and send it
    /// `request`.
    Joins { request: String },
}

/// Decides how the process `me` enters the group: the process with the
/// leader's identifier creates view 0, any other asks to be added.
pub fn join_start(me: UserInfo) -> (r: Entry)
    ensures
        if me.id == LEADER_ID {
            &&& r matches Entry::Leads(store)
            &&& store.leader_id() == me.id
            &&& store.current().view_id == 0
            &&& store.current().req_counter == 0
            &&& store.current().membership@ == seq![me]
        } else {
            &&& r matches Entry::Joins { request }
            &&& request@ == wire_text(Wire::Join { id: me.id }).push('\n')
        },
{
    if me.id == LEADER_ID {
        Entry::Leads(ViewStore::new(me))
    } else {
        Entry::Joins { request: join_request(me.id) }
    }
}

/// The line by which the process `local_id` asks to be added to the view.
pub fn join_request(local_id: u32) -> (r: String)
    ensures
        r@ == wire_text(Wire::Join { id: local_id }).push('\n'),
{
    Message::Join { id: local_id }.encode_line()
}

/// Judges the leader's answer to a request to join; `None` stands for a
/// connection from which nothing could be read.
///
/// The answer must begin, once trimmed, with `NEWVIEW:`, and a view must
/// follow in one of its written forms. That view becomes the cached view of
/// the new member.
pub fn join_reply(local_id: u32, leader: u32, response: Option<&str>) -> (r: Result<
    Joined,
    JoinError,
>)
    ensures
        match response {
            None => r matches Err(JoinError::Unanswered { notice }) && notice@
                == unreachable_report(local_id, 0, leader, leader),
            Some(text) => match strip_prefix(trim(text@), "NEWVIEW:"@) {
                None => r matches Err(JoinError::NotNewView),
                Some(rest) => match parse_view(rest) {
                    Err(e) => r matches Err(JoinError::Malformed(why)) && why == e,
                    Ok(v) => r matches Ok(j) && j.member.local_id == local_id && j.member.leader
                        == leader && j.member.cached@ == v && j.report@ == view_report(
                        local_id,
                        v.view_id,
                        leader,
                        member_ids(v),
                    ),
                },
            },
        },
{
    match response {
        None => Err(JoinError::Unanswered { notice: unreachable_line(local_id, 0, leader, leader) }),
        Some(text) => {
            let t = trimmed(&chars_of(text));
            match without_prefix(&t, "NEWVIEW:") {
                None => Err(JoinError::NotNewView),
                Some(rest) => match read_view(&rest) {
                    Err(e) => Err(JoinError::Malformed(e)),
                    Ok(cached) => {
                        let members = cached.member_ids();
                        assert(members@ == member_ids(cached@));
                        let report = view_change_line(local_id, cached.view_id, leader, &members);
                        Ok(Joined { member: Member { local_id, leader, cached }, report })
                    },
                },
            }
        },
    }
}

impl Member {
    /// Handles one line received from another process.
    ///
    /// A proposal is acknowledged whatever it proposes: the reply carries
    /// its request number and view identifier. An announced view replaces
    /// the cached view. Any other line, and any line that cannot be read,
    /// is passed over.
    pub fn handle_line(&mut self, line: &str) -> (r: Reaction)
        ensures
            final(self).local_id == old(self).local_id,
            final(self).leader == old(self).leader,
            match read_message(line@) {
                Some(Wire::Req { req_id, view_id, op, target }) => {
                    &&& r matches Reaction::Reply { line: reply, notice }
                    &&& reply@ == wire_text(Wire::Ack { req_id, view_id }).push('\n')
                    &&& text_in(notice) == proposal_notice(
                        old(self).local_id,
                        old(self).leader,
                        view_id,
                        op,
                        target,
                    )
                    &&& final(self).cached == old(self).cached
                },
                Some(Wire::NewView { view_id, members }) => {
                    &&& r matches Reaction::Adopted { report }
                    &&& report@ == view_report(
                        old(self).local_id,
                        view_id,
                        old(self).leader,
                        members,
                    )
                    &&& final(self).cached.view_id == view_id
                    &&& final(self).cached.ids() == members
                    &&& final(self).cached.req_counter == 0
                },
                _ => r is Ignored && final(self).cached == old(self).cached,
            },
    {
        match Message::decode(line) {
            Some(Message::Req { req_id, view_id, op, target }) => {
                let reply = Message::Ack { req_id, view_id }.encode_line();
                let notice = match op {
                    Operation::Del => {
                        if self.local_id != self.leader {
                            Some(unreachable_line(self.local_id, view_id, self.leader, target))
                        } else {
                            None
                        }
                    },
                    Operation::Add => None,
                };
                Reaction::Reply { line: reply, notice }
            },
            Some(Message::NewView { view_id, members }) => {
                let report = view_change_line(self.local_id, view_id, self.leader, &members);
                self.cached = PeerState::from_ids(view_id, &members);
                Reaction::Adopted { report }
            },
            _ => Reaction::Ignored,
        }
    }
}

/// Convergence. The line by which the leader announces a committed view
/// reads, at a member, as the announcement of a view with the same
/// identifier and the same members in the same order; and the process that
/// has just joined finds that same view behind `NEWVIEW:`. So whoever
/// receives the line holds, after it, the leader's view.
pub proof fn lemma_convergence(view: PeerState)
    ensures
        read_message(announcement_line(view)) == Some(
            Wire::NewView { view_id: view.view_id, members: view.ids() },
        ),
        strip_prefix(trim(announcement_line(view)), "NEWVIEW:"@) matches Some(rest) && parse_view(
            rest,
        ) == Ok::<ViewModel, ViewParseError>(
            ViewModel { view_id: view.view_id, members: unnamed(view.ids()), req_counter: 0 },
        ),
        member_ids(
            ViewModel { view_id: view.view_id, members: unnamed(view.ids()), req_counter: 0 },
        ) == view.ids(),
{
    lemma_new_view_round_trip(view.view_id, view.ids());
    assert(member_ids(
        ViewModel { view_id: view.view_id, members: unnamed(view.ids()), req_counter: 0 },
    ) == view.ids());
}

} // verus!
