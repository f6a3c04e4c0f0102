//! A token that travels round a ring of processes, and the snapshot that a
//! process takes of itself and of its incoming channels while it does.

use crate::identity::{find_user_by_id, ids, position_of, UserInfo};
use crate::leader::holds;
use crate::text::{
    append_decimal, chars_of, cut, cut_at, decimal, has_prefix, read_u32, read_u64, slice_of,
    starts_with, text_of, trim_end, u32_of, u64_of,
};
use vstd::prelude::*;

verus! {

/// What a process knows of itself while the token travels and a snapshot
/// may be under way.
#[derive(Debug, PartialEq, Eq)]
pub struct Participant {
    pub id: u32,
    /// How often the token has been here.
    pub state: u64,
    /// Whether the token is here now.
    pub has_token: bool,
    /// Whether this process takes part in a snapshot.
    pub snapshot_started: bool,
    /// How many tokens have come in since the snapshot began or a channel
    /// was last closed.
    pub recorded: u64,
    /// The processes whose channel to this one is closed, each once.
    pub closed: Vec<u32>,
    /// How many channels come in: one from every other process.
    pub channels: usize,
}

/// What a process has captured of itself for a snapshot.
#[derive(Clone, Copy, Debug, PartialEq, Eq, Structural)]
pub struct Capture {
    pub state: u64,
    pub has_token: bool,
}

/// What a process does with a marker.
#[derive(Debug, PartialEq, Eq)]
pub enum MarkerStep {
    /// The marker is the process's own, or its channel is closed already.
    Ignored,
    /// The channel of the sender is closed now; `report` says so. Where the
    /// marker is the first one, `first` holds what the process has captured
    /// and is to send on with its own markers.
    Closed { first: Option<Capture>, report: String },
}

/// The identifier of the process before `my_id` in a ring of `count`
/// processes numbered from 1, if `my_id` is at least 1.
pub open spec fn predecessor_id(my_id: u32, count: nat) -> Option<nat> {
    if my_id == 0 {
        None
    } else if my_id == 1 {
        Some(count)
    } else {
        Some((my_id - 1) as nat)
    }
}

/// The identifier of the process after `my_id` in a ring of `count`
/// processes numbered from 1.
pub open spec fn successor_id(my_id: u32, count: nat) -> nat {
    if my_id == count {
        1
    } else {
        (my_id + 1) as nat
    }
}

/// The first process of `peers` with the identifier `id`, if `id` is the
/// identifier of one.
pub open spec fn peer_with(peers: Seq<UserInfo>, id: nat) -> Option<UserInfo> {
    if id <= u32::MAX && ids(peers).contains(id as u32) {
        Some(peers[position_of(ids(peers), id as u32)])
    } else {
        None
    }
}

/// The sender that a token line `token:<sender>` names: what stands behind
/// the first colon, read as a number, and 0 where it is none. A line
/// without a colon names no sender. White space at the end of the line does
/// not count.
pub open spec fn token_sender(line: Seq<char>) -> Option<u32> {
    match cut(trim_end(line), ':') {
        Some((_, rest)) => Some(
            match u32_of(rest) {
                Some(n) => n,
                None => 0,
            },
        ),
        None => None,
    }
}

/// The sender and the snapshot that a marker line
/// `marker:<sender>:<snapshot>` names: what stands between the first and
/// the second colon, and what stands behind the second, each read as a
/// number and 0 where it is none. A line with fewer than two colons names
/// nothing. White space at the end of the line does not count.
pub open spec fn marker_named(line: Seq<char>) -> Option<(u32, u64)> {
    match cut(trim_end(line), ':') {
        Some((_, rest)) => match cut(rest, ':') {
            Some((sender, snapshot)) => Some(
                (
                    match u32_of(sender) {
                        Some(n) => n,
                        None => 0,
                    },
                    match u64_of(snapshot) {
                        Some(n) => n,
                        None => 0,
                    },
                ),
            ),
            None => None,
        },
        None => None,
    }
}

/// The line that carries the token: `token:<sender>` and a line feed.
pub open spec fn token_text(sender: u32) -> Seq<char> {
    "token:"@ + decimal(sender as nat) + seq!['\n']
}

/// The line that carries a marker: `marker:<sender>:<snapshot>` and a line
/// feed.
pub open spec fn marker_text(sender: u32, snapshot_id: u64) -> Seq<char> {
    "marker:"@ + decimal(sender as nat) + seq![':'] + decimal(snapshot_id as nat) + seq!['\n']
}

/// The report of a token on its way:
/// `{id: <p>, sender: <s>, receiver: <r>, message:"token"}`.
pub open spec fn token_report(id: u32, sender: u32, receiver: u32) -> Seq<char> {
    "{id: "@ + decimal(id as nat) + ", sender: "@ + decimal(sender as nat) + ", receiver: "@
        + decimal(receiver as nat) + ", message:\"token\"}"@
}

/// The report of a process's state: `{id: <p>, state: <n>}`.
pub open spec fn state_report(id: u32, state: u64) -> Seq<char> {
    "{id: "@ + decimal(id as nat) + ", state: "@ + decimal(state as nat) + "}"@
}

/// The report of a process's place in the ring:
/// `{id: <p>, state: <n>, predecessor: <a>, successor: <b>}`.
pub open spec fn place_report(id: u32, state: u64, predecessor: u32, successor: u32) -> Seq<char> {
    "{id: "@ + decimal(id as nat) + ", state: "@ + decimal(state as nat) + ", predecessor: "@
        + decimal(predecessor as nat) + ", successor: "@ + decimal(successor as nat) + "}"@
}

/// The report of a step of a snapshot:
/// `{proc_id:<p>, snapshot_id:<s>, snapshot:"<step>"}`.
pub open spec fn snapshot_report(id: u32, snapshot_id: u64, step: Seq<char>) -> Seq<char> {
    "{proc_id:"@ + decimal(id as nat) + ", snapshot_id:"@ + decimal(snapshot_id as nat)
        + ", snapshot:\""@ + step + "\"}"@
}

/// The report of a marker sent: `{proc_id:<p>, snapshot_id:<s>,
/// sender:<p>, receiver:<r>, message:"marker", state:<n>,
/// has_token:"YES"}`, or `"NO"`.
pub open spec fn marker_report(id: u32, snapshot_id: u64, receiver: u32, c: Capture) -> Seq<char> {
    "{proc_id:"@ + decimal(id as nat) + ", snapshot_id:"@ + decimal(snapshot_id as nat)
        + ", sender:"@ + decimal(id as nat) + ", receiver:"@ + decimal(receiver as nat)
        + ", message:\"marker\", state:"@ + decimal(c.state as nat) + (if c.has_token {
        ", has_token:\"YES\"}"@
    } else {
        ", has_token:\"NO\"}"@
    })
}

/// `n` tokens, written `token, token, ...`.
pub open spec fn queue_text(n: nat) -> Seq<char>
    decreases n,
{
    if n == 0 {
        Seq::empty()
    } else if n == 1 {
        "token"@
    } else {
        queue_text((n - 1) as nat) + ", token"@
    }
}

/// The report of a closed channel: `{proc_id:<p>, snapshot_id:<s>,
/// snapshot:"channel closed", channel:"<from>-<p>", queue:[<tokens>]}`.
pub open spec fn closed_report(id: u32, snapshot_id: u64, from: u32, tokens: nat) -> Seq<char> {
    "{proc_id:"@ + decimal(id as nat) + ", snapshot_id:"@ + decimal(snapshot_id as nat)
        + ", snapshot:\"channel closed\", channel:\""@ + decimal(from as nat) + seq!['-']
        + decimal(id as nat) + "\", queue:["@ + queue_text(tokens) + "]}"@
}

/// One more, as long as the counter can hold it.
pub open spec fn bumped(n: u64) -> u64 {
    if n < u64::MAX {
        (n + 1) as u64
    } else {
        n
    }
}

/// The process before `my_user` in the ring of `peers`, which are numbered
/// from 1: the last one for the first, else the one with the identifier
/// one lower.
pub fn get_predecessor(my_user: &UserInfo, peers: &Vec<UserInfo>) -> (r: Option<UserInfo>)
    ensures
        r == (match predecessor_id(my_user.id, peers@.len()) {
            Some(id) => peer_with(peers@, id),
            None => None,
        }),
{
    if my_user.id == 0 {
        None
    } else if my_user.id == 1 {
        if peers.len() > u32::MAX as usize {
            None
        } else {
            find_peer(peers, peers.len() as u32)
        }
    } else {
        find_peer(peers, my_user.id - 1)
    }
}

/// The process after `my_user` in the ring of `peers`, which are numbered
/// from 1: the first one for the last, else the one with the identifier
/// one higher.
pub fn get_successor(my_user: &UserInfo, peers: &Vec<UserInfo>) -> (r: Option<UserInfo>)
    ensures
        r == peer_with(peers@, successor_id(my_user.id, peers@.len())),
{
    if my_user.id as usize == peers.len() {
        find_peer(peers, 1)
    } else if my_user.id == u32::MAX {
        None
    } else {
        find_peer(peers, my_user.id + 1)
    }
}

/// The first process of `peers` with the identifier `id`.
fn find_peer(peers: &Vec<UserInfo>, id: u32) -> (r: Option<UserInfo>)
    ensures
        r == peer_with(peers@, id as nat),
{
    find_user_by_id(peers, id)
}

/// `s` without the white space at its end.
fn without_trailing_space(line: &str) -> (r: Vec<char>)
    ensures
        r@ == trim_end(line@),
{
    let s = chars_of(line);
    let mut j: usize = s.len();
    assert(s@.take(j as int) == s@);
    while j > 0 && crate::text::char_is_space(s[j - 1])
        invariant
            j <= s.len(),
            trim_end(s@) == trim_end(s@.take(j as int)),
        decreases j,
    {
        assert(s@.take(j as int).drop_last() == s@.take(j - 1));
        j -= 1;
    }
    let r = crate::text::slice_of(&s, 0, j);
    assert(r@ == s@.take(j as int));
    r
}

/// Reads the sender out of a token line.
pub fn read_token(line: &str) -> (r: Option<u32>)
    ensures
        r == token_sender(line@),
{
    match cut_at(&without_trailing_space(line), ':') {
        Some((_, rest)) => Some(
            match read_u32(&rest) {
                Some(n) => n,
                None => 0,
            },
        ),
        None => None,
    }
}

/// Reads sender and snapshot out of a marker line.
pub fn read_marker(line: &str) -> (r: Option<(u32, u64)>)
    ensures
        r == marker_named(line@),
{
    match cut_at(&without_trailing_space(line), ':') {
        Some((_, rest)) => match cut_at(&rest, ':') {
            Some((sender, snapshot)) => Some(
                (
                    match read_u32(&sender) {
                        Some(n) => n,
                        None => 0,
                    },
                    match read_u64(&snapshot) {
                        Some(n) => n,
                        None => 0,
                    },
                ),
            ),
            None => None,
        },
        None => None,
    }
}

/// Writes the line that carries the token.
pub fn token_line(sender: u32) -> (r: String)
    ensures
        r@ == token_text(sender),
{
    let mut out = String::from_str("token:");
    append_decimal(&mut out, sender as u64);
    out.push('\n');
    assert(out@ == token_text(sender));
    out
}

/// Writes the line that carries a marker.
pub fn marker_line(sender: u32, snapshot_id: u64) -> (r: String)
    ensures
        r@ == marker_text(sender, snapshot_id),
{
    let mut out = String::from_str("marker:");
    append_decimal(&mut out, sender as u64);
    out.push(':');
    append_decimal(&mut out, snapshot_id);
    out.push('\n');
    assert(out@ == marker_text(sender, snapshot_id));
    out
}

/// Writes the report of a token on its way.
pub fn token_report_line(id: u32, sender: u32, receiver: u32) -> (r: String)
    ensures
        r@ == token_report(id, sender, receiver),
{
    let mut out = String::from_str("{id: ");
    append_decimal(&mut out, id as u64);
    out.append(", sender: ");
    append_decimal(&mut out, sender as u64);
    out.append(", receiver: ");
    append_decimal(&mut out, receiver as u64);
    out.append(", message:\"token\"}");
    out
}

/// Writes the report of a process's state.
pub fn state_report_line(id: u32, state: u64) -> (r: String)
    ensures
        r@ == state_report(id, state),
{
    let mut out = String::from_str("{id: ");
    append_decimal(&mut out, id as u64);
    out.append(", state: ");
    append_decimal(&mut out, state);
    out.append("}");
    out
}

/// Writes the report of a process's place in the ring.
pub fn place_report_line(id: u32, state: u64, predecessor: u32, successor: u32) -> (r: String)
    ensures
        r@ == place_report(id, state, predecessor, successor),
{
    let mut out = String::from_str("{id: ");
    append_decimal(&mut out, id as u64);
    out.append(", state: ");
    append_decimal(&mut out, state);
    out.append(", predecessor: ");
    append_decimal(&mut out, predecessor as u64);
    out.append(", successor: ");
    append_decimal(&mut out, successor as u64);
    out.append("}");
    out
}

/// Writes the report of a step of a snapshot.
fn snapshot_report_line(id: u32, snapshot_id: u64, step: &str) -> (r: String)
    ensures
        r@ == snapshot_report(id, snapshot_id, step@),
{
    let mut out = String::from_str("{proc_id:");
    append_decimal(&mut out, id as u64);
    out.append(", snapshot_id:");
    append_decimal(&mut out, snapshot_id);
    out.append(", snapshot:\"");
    out.append(step);
    out.append("\"}");
    out
}

/// Writes the report of a marker sent to `receiver`.
pub fn marker_report_line(id: u32, snapshot_id: u64, receiver: u32, c: Capture) -> (r: String)
    ensures
        r@ == marker_report(id, snapshot_id, receiver, c),
{
    let mut out = String::from_str("{proc_id:");
    append_decimal(&mut out, id as u64);
    out.append(", snapshot_id:");
    append_decimal(&mut out, snapshot_id);
    out.append(", sender:");
    append_decimal(&mut out, id as u64);
    out.append(", receiver:");
    append_decimal(&mut out, receiver as u64);
    out.append(", message:\"marker\", state:");
    append_decimal(&mut out, c.state);
    if c.has_token {
        out.append(", has_token:\"YES\"}");
    } else {
        out.append(", has_token:\"NO\"}");
    }
    out
}

/// Appends `n` tokens, written `token, token, ...`.
fn append_queue(out: &mut String, n: u64)
    ensures
        final(out)@ == old(out)@ + queue_text(n as nat),
{
    let mut i: u64 = 0;
    assert(old(out)@ + queue_text(0) == old(out)@);
    while i < n
        invariant
            i <= n,
            out@ == old(out)@ + queue_text(i as nat),
        decreases n - i,
    {
        let ghost before = out@;
        if i > 0 {
            out.append(", token");
            assert(before + ", token"@ == old(out)@ + (queue_text(i as nat) + ", token"@));
        } else {
            out.append("token");
            assert(queue_text(0).len() == 0);
            assert(before + "token"@ == old(out)@ + "token"@);
        }
        i += 1;
    }
}

/// Writes the report of a closed channel.
fn closed_report_line(id: u32, snapshot_id: u64, from: u32, tokens: u64) -> (r: String)
    ensures
        r@ == closed_report(id, snapshot_id, from, tokens as nat),
{
    let mut out = String::from_str("{proc_id:");
    append_decimal(&mut out, id as u64);
    out.append(", snapshot_id:");
    append_decimal(&mut out, snapshot_id);
    out.append(", snapshot:\"channel closed\", channel:\"");
    append_decimal(&mut out, from as u64);
    out.push('-');
    append_decimal(&mut out, id as u64);
    out.append("\", queue:[");
    append_queue(&mut out, tokens);
    out.append("]}");
    assert(out@ == closed_report(id, snapshot_id, from, tokens as nat));
    out
}

impl Participant {
    /// A process of a ring of `peer_count` processes, before any token or
    /// marker has come in. The token starts at the initiator.
    pub fn new(id: u32, state: u64, is_initiator: bool, peer_count: usize) -> (r: Participant)
        ensures
            r.id == id,
            r.state == state,
            r.has_token == is_initiator,
            !r.snapshot_started,
            r.recorded == 0,
            r.closed@.len() == 0,
            r.channels == (if peer_count > 0 {
                peer_count - 1
            } else {
                0
            }),
    {
        Participant {
            id,
            state,
            has_token: is_initiator,
            snapshot_started: false,
            recorded: 0,
            closed: Vec::new(),
            channels: if peer_count > 0 {
                peer_count - 1
            } else {
                0
            },
        }
    }

    /// The token has come in from `sender`: it is here now and has been
    /// here once more; while a snapshot is under way it is recorded. The
    /// result reports the token and then the state.
    pub fn receive_token(&mut self, sender: u32) -> (r: (String, String))
        ensures
            final(self).id == old(self).id,
            final(self).has_token,
            final(self).state == bumped(old(self).state),
            final(self).recorded == (if old(self).snapshot_started {
                bumped(old(self).recorded)
            } else {
                old(self).recorded
            }),
            final(self).snapshot_started == old(self).snapshot_started,
            final(self).closed == old(self).closed,
            final(self).channels == old(self).channels,
            r.0@ == token_report(old(self).id, sender, old(self).id),
            r.1@ == state_report(old(self).id, final(self).state),
    {
        self.has_token = true;
        if self.snapshot_started && self.recorded < u64::MAX {
            self.recorded = self.recorded + 1;
        }
        if self.state < u64::MAX {
            self.state = self.state + 1;
        }
        (token_report_line(self.id, sender, self.id), state_report_line(self.id, self.state))
    }

    /// The token goes on to `successor`: it is here no longer. The result
    /// is the line to send and the report of it.
    pub fn forward_token(&mut self, successor: u32) -> (r: (String, String))
        ensures
            final(self).id == old(self).id,
            !final(self).has_token,
            final(self).state == old(self).state,
            final(self).recorded == old(self).recorded,
            final(self).snapshot_started == old(self).snapshot_started,
            final(self).closed == old(self).closed,
            final(self).channels == old(self).channels,
            r.0@ == token_text(old(self).id),
            r.1@ == token_report(old(self).id, old(self).id, successor),
    {
        self.has_token = false;
        (token_line(self.id), token_report_line(self.id, self.id, successor))
    }

    /// What the process captures of itself for a snapshot.
    pub fn capture(&self) -> (r: Capture)
        ensures
            r == (Capture { state: self.state, has_token: self.has_token }),
    {
        Capture { state: self.state, has_token: self.has_token }
    }

    /// The process begins a snapshot of its own. The result reports it.
    pub fn start_snapshot(&mut self, snapshot_id: u64) -> (r: String)
        ensures
            final(self).snapshot_started,
            final(self).id == old(self).id,
            final(self).state == old(self).state,
            final(self).has_token == old(self).has_token,
            final(self).recorded == old(self).recorded,
            final(self).closed == old(self).closed,
            final(self).channels == old(self).channels,
            r@ == snapshot_report(old(self).id, snapshot_id, "started"@),
    {
        self.snapshot_started = true;
        snapshot_report_line(self.id, snapshot_id, "started")
    }

    /// A marker of the snapshot `snapshot_id` has come in from `sender`.
    ///
    /// The process's own marker is passed over, and so is a marker on a
    /// channel that is closed. Any other marker closes the channel of its
    /// sender: the tokens recorded since are the channel's queue, and the
    /// record starts anew. Where the process took no part in a snapshot
    /// yet, it does from now on, and captures itself.
    pub fn receive_marker(&mut self, sender: u32, snapshot_id: u64) -> (r: MarkerStep)
        ensures
            final(self).id == old(self).id,
            final(self).state == old(self).state,
            final(self).has_token == old(self).has_token,
            final(self).channels == old(self).channels,
            if sender == old(self).id || old(self).closed@.contains(sender) {
                r is Ignored && *final(self) == *old(self)
            } else {
                &&& final(self).closed@ == old(self).closed@.push(sender)
                &&& final(self).snapshot_started
                &&& final(self).recorded == 0
                &&& r matches MarkerStep::Closed { first, report }
                &&& first == (if old(self).snapshot_started {
                    None
                } else {
                    Some(Capture { state: old(self).state, has_token: old(self).has_token })
                })
                &&& report@ == closed_report(
                    old(self).id,
                    snapshot_id,
                    sender,
                    old(self).recorded as nat,
                )
            },
    {
        if sender == self.id || holds(&self.closed, sender) {
            return MarkerStep::Ignored;
        }
        self.closed.push(sender);
        let first = if self.snapshot_started {
            None
        } else {
            self.snapshot_started = true;
            Some(self.capture())
        };
        let report = closed_report_line(self.id, snapshot_id, sender, self.recorded);
        self.recorded = 0;
        MarkerStep::Closed { first, report }
    }

    /// Tells whether every incoming channel is closed. Where it is, the
    /// snapshot is complete.
    pub fn is_complete(&self) -> (r: bool)
        ensures
            r == (self.closed@.len() == self.channels),
    {
        self.closed.len() == self.channels
    }

    /// Writes the report of a complete snapshot.
    pub fn complete_report(&self, snapshot_id: u64) -> (r: String)
        ensures
            r@ == snapshot_report(self.id, snapshot_id, "complete"@),
    {
        snapshot_report_line(self.id, snapshot_id, "complete")
    }
}

/// The channel leads from `sender` to `receiver`.
pub open spec fn joins(channel: (UserInfo, UserInfo), sender: UserInfo, receiver: UserInfo) -> bool {
    channel.0@ == sender@ && channel.1@ == receiver@
}

/// The position of the first channel that leads from `sender` to
/// `receiver`.
pub fn get_channel(channels: &Vec<(UserInfo, UserInfo)>, sender: &UserInfo, receiver: &UserInfo) -> (r:
    Option<usize>)
    ensures
        match r {
            Some(i) => i < channels.len() && joins(channels[i as int], *sender, *receiver)
                && forall|j: int| 0 <= j < i ==> !joins(#[trigger] channels[j], *sender, *receiver),
            None => forall|j: int|
                0 <= j < channels.len() ==> !joins(#[trigger] channels[j], *sender, *receiver),
        },
{
    let mut i: usize = 0;
    while i < channels.len()
        invariant
            i <= channels.len(),
            forall|j: int| 0 <= j < i ==> !joins(#[trigger] channels[j], *sender, *receiver),
        decreases channels.len() - i,
    {
        if channels[i].0.id == sender.id && channels[i].0.name == sender.name && channels[i].1.id
            == receiver.id && channels[i].1.name == receiver.name {
            return Some(i);
        }
        i += 1;
    }
    None
}

/// The start of a run: which processes of the list are known to be up.
#[derive(Debug, PartialEq, Eq)]
pub struct Startup {
    /// For each process of the list, whether it is known to be up.
    pub online: Vec<bool>,
}

/// What a process does with a datagram while it waits for the others.
#[derive(Debug, PartialEq, Eq)]
pub enum StartupStep {
    /// A ping: `reply` is to be sent back.
    Reply { reply: String },
    /// A pong: its sender is up.
    Marked,
    /// Neither.
    Unknown,
}

/// The names of a list of strings.
pub open spec fn names(v: Seq<String>) -> Seq<Seq<char>> {
    Seq::new(v.len(), |i: int| v[i]@)
}

/// The marks after the process named `who` turned out to be up.
pub open spec fn marked(online: Seq<bool>, peers: Seq<Seq<char>>, who: Seq<char>) -> Seq<bool> {
    Seq::new(online.len(), |i: int| online[i] || (i < peers.len() && peers[i] == who))
}

/// The names that are not marked, in order.
pub open spec fn unmarked(online: Seq<bool>, peers: Seq<Seq<char>>) -> Seq<Seq<char>>
    decreases peers.len(),
{
    if peers.len() == 0 {
        Seq::empty()
    } else {
        let rest = unmarked(online, peers.drop_last());
        let i = peers.len() - 1;
        if i < online.len() && !online[i] {
            rest.push(peers.last())
        } else {
            rest
        }
    }
}

impl Startup {
    /// The start of the process named `my_name`: of the processes of the
    /// list, only itself is known to be up.
    pub fn new(peers: &Vec<String>, my_name: &String) -> (r: Startup)
        ensures
            r.online@ == marked(Seq::new(peers@.len(), |i: int| false), names(peers@), my_name@),
    {
        let mut online: Vec<bool> = Vec::new();
        let mut i: usize = 0;
        while i < peers.len()
            invariant
                i <= peers.len(),
                online@.len() == i,
                forall|j: int| 0 <= j < i ==> online@[j] == (peers@[j]@ == my_name@),
            decreases peers.len() - i,
        {
            online.push(peers[i] == *my_name);
            i += 1;
        }
        assert(online@ == marked(
            Seq::new(peers@.len(), |i: int| false),
            names(peers@),
            my_name@,
        ));
        Startup { online }
    }

    /// The processes to ping: those not known to be up.
    pub fn waiting_for(&self, peers: &Vec<String>) -> (r: Vec<String>)
        ensures
            names(r@) == unmarked(self.online@, names(peers@)),
    {
        let mut out: Vec<String> = Vec::new();
        let mut i: usize = 0;
        assert(names(peers@).take(0).len() == 0);
        assert(names(out@) == Seq::<Seq<char>>::empty());
        while i < peers.len()
            invariant
                i <= peers.len(),
                names(out@) == unmarked(self.online@, names(peers@).take(i as int)),
            decreases peers.len() - i,
        {
            proof {
                let next = names(peers@).take(i + 1);
                assert(next.drop_last() == names(peers@).take(i as int));
                assert(next.last() == peers@[i as int]@);
            }
            if i < self.online.len() && !self.online[i] {
                let ghost before = names(out@);
                out.push(peers[i].clone());
                assert(names(out@) == before.push(peers@[i as int]@));
            }
            i += 1;
        }
        assert(names(peers@).take(peers.len() as int) == names(peers@));
        out
    }

    /// Tells whether every process of the list is known to be up.
    pub fn ready(&self) -> (r: bool)
        ensures
            r == forall|i: int| 0 <= i < self.online@.len() ==> self.online@[i],
    {
        let mut i: usize = 0;
        while i < self.online.len()
            invariant
                i <= self.online.len(),
                forall|j: int| 0 <= j < i ==> self.online@[j],
            decreases self.online.len() - i,
        {
            if !self.online[i] {
                return false;
            }
            i += 1;
        }
        true
    }

    /// Takes in one datagram.
    ///
    /// What begins with `ping:` is answered with `pong:` and the process's
    /// own name. What begins with `pong:` names, behind the colon, a
    /// process that is up: every entry of the list with that name is
    /// marked. Anything else is unknown.
    pub fn failsafe_startup(&mut self, peers: &Vec<String>, my_name: &str, datagram: &str) -> (r:
        StartupStep)
        ensures
            if starts_with(datagram@, "ping:"@) {
                &&& r matches StartupStep::Reply { reply }
                &&& reply@ == "pong:"@ + my_name@
                &&& final(self).online@ == old(self).online@
            } else if starts_with(datagram@, "pong:"@) {
                &&& r is Marked
                &&& final(self).online@ == marked(
                    old(self).online@,
                    names(peers@),
                    datagram@.skip("pong:"@.len() as int),
                )
            } else {
                r is Unknown && final(self).online@ == old(self).online@
            },
    {
        let d = chars_of(datagram);
        let pong = chars_of("pong:");
        if has_prefix(&d, &chars_of("ping:")) {
            let mut reply = String::from_str("pong:");
            reply.append(my_name);
            StartupStep::Reply { reply }
        } else if has_prefix(&d, &pong) {
            let who = text_of(&slice_of(&d, pong.len(), d.len()));
            assert(who@ == datagram@.skip("pong:"@.len() as int));
            let mut i: usize = 0;
            while i < self.online.len()
                invariant
                    i <= self.online.len(),
                    self.online@.len() == old(self).online@.len(),
                    forall|j: int|
                        0 <= j < i ==> self.online@[j] == (old(self).online@[j] || (j < peers.len()
                            && peers@[j]@ == who@)),
                    forall|j: int| i <= j < self.online.len() ==> self.online@[j] == old(
                        self,
                    ).online@[j],
                decreases self.online.len() - i,
            {
                if i < peers.len() && peers[i] == who {
                    self.online.set(i, true);
                }
                i += 1;
            }
            assert(self.online@ == marked(old(self).online@, names(peers@), who@));
            StartupStep::Marked
        } else {
            StartupStep::Unknown
        }
    }
}

} // verus!
