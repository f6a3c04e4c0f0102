//! Notices about a node's neighbours in a ring overlay, as text.

use crate::text::{
    append_decimal, chars_of, decimal, has_prefix, has_subtext, mentions, read_u64, rows,
    slice_of, split, split_on, starts_with, strip_prefix, strip_repeated, text_of, trim, trimmed,
    u64_of, without_prefix, without_repeated,
};
use vstd::prelude::*;

verus! {

/// The successor that a notice `Predecessor: <p>, Successor: <s>` names: the
/// notice has two comma-separated parts and the second, trimmed, begins with
/// `Successor:`.
pub open spec fn successor_named(msg: Seq<char>) -> Option<Seq<char>> {
    let tokens = split(trim(msg), ',');
    if tokens.len() == 2 {
        match strip_prefix(trim(tokens[1]), "Successor:"@) {
            Some(rest) => Some(trim(rest)),
            None => None,
        }
    } else {
        None
    }
}

/// The predecessor that a notice `Predecessor: <p>, Successor: <s>` names:
/// the notice has two comma-separated parts which, trimmed, begin with
/// `Predecessor:` and `Successor:`.
pub open spec fn predecessor_named(msg: Seq<char>) -> Option<Seq<char>> {
    let tokens = split(trim(msg), ',');
    if tokens.len() == 2 && starts_with(trim(tokens[1]), "Successor:"@) {
        match strip_prefix(trim(tokens[0]), "Predecessor:"@) {
            Some(rest) => Some(trim(rest)),
            None => None,
        }
    } else {
        None
    }
}

/// The neighbours that a reply `JOIN_REPLY: predecessor=<p>, successor=<s>`
/// names. The part between the first and the second colon is read; it has
/// two comma-separated parts which, trimmed, begin with `predecessor=` and
/// `successor=`.
pub open spec fn neighbours_named(reply: Seq<char>) -> Option<(Seq<char>, Seq<char>)> {
    let parts = split(trim(reply), ':');
    if parts.len() < 2 {
        None
    } else {
        let tokens = split(trim(parts[1]), ',');
        if tokens.len() != 2 {
            None
        } else {
            match strip_prefix(trim(tokens[0]), "predecessor="@) {
                None => None,
                Some(p) => match strip_prefix(trim(tokens[1]), "successor="@) {
                    None => None,
                    Some(s) => Some((trim(p), trim(s))),
                },
            }
        }
    }
}

/// Reads the successor out of a neighbour notice. The first component of
/// the result is the word `successor`.
pub fn parse_successor(msg: &str) -> (r: Option<(String, String)>)
    ensures
        match r {
            Some((which, peer)) => which@ == "successor"@ && successor_named(msg@) == Some(peer@),
            None => successor_named(msg@) is None,
        },
{
    let line = trimmed(&chars_of(msg));
    let tokens = split_on(&line, ',');
    assert(rows(tokens@).len() == tokens.len());
    if tokens.len() != 2 {
        return None;
    }
    assert(rows(tokens@)[1] == tokens[1]@);
    let second = trimmed(&tokens[1]);
    match without_prefix(&second, "Successor:") {
        Some(rest) => {
            let peer = text_of(&trimmed(&rest));
            Some((String::from_str("successor"), peer))
        },
        None => None,
    }
}

/// Reads the predecessor out of a neighbour notice. The first component of
/// the result is the word `predecessor`.
pub fn parse_update(msg: &str) -> (r: Option<(String, String)>)
    ensures
        match r {
            Some((which, peer)) => which@ == "predecessor"@ && predecessor_named(msg@) == Some(
                peer@,
            ),
            None => predecessor_named(msg@) is None,
        },
{
    let line = trimmed(&chars_of(msg));
    let tokens = split_on(&line, ',');
    assert(rows(tokens@).len() == tokens.len());
    if tokens.len() != 2 {
        return None;
    }
    assert(rows(tokens@)[0] == tokens[0]@);
    assert(rows(tokens@)[1] == tokens[1]@);
    let first = trimmed(&tokens[0]);
    let second = trimmed(&tokens[1]);
    if !has_prefix(&second, &chars_of("Successor:")) {
        return None;
    }
    match without_prefix(&first, "Predecessor:") {
        Some(rest) => {
            let peer = text_of(&trimmed(&rest));
            Some((String::from_str("predecessor"), peer))
        },
        None => None,
    }
}

/// Reads predecessor and successor out of the reply to a join request.
pub fn parse_join_reply(reply: &str) -> (r: Option<(String, String)>)
    ensures
        match r {
            Some((pred, succ)) => neighbours_named(reply@) == Some((pred@, succ@)),
            None => neighbours_named(reply@) is None,
        },
{
    let line = trimmed(&chars_of(reply));
    let parts = split_on(&line, ':');
    assert(rows(parts@).len() == parts.len());
    if parts.len() < 2 {
        return None;
    }
    assert(rows(parts@)[1] == parts[1]@);
    let content = trimmed(&parts[1]);
    let tokens = split_on(&content, ',');
    assert(rows(tokens@).len() == tokens.len());
    if tokens.len() != 2 {
        return None;
    }
    assert(rows(tokens@)[0] == tokens[0]@);
    assert(rows(tokens@)[1] == tokens[1]@);
    let first = trimmed(&tokens[0]);
    let second = trimmed(&tokens[1]);
    match without_prefix(&first, "predecessor=") {
        None => None,
        Some(p) => match without_prefix(&second, "successor=") {
            None => None,
            Some(s) => Some((text_of(&trimmed(&p)), text_of(&trimmed(&s)))),
        },
    }
}

/// The nodes of the ring by ascending number.
pub struct Ring {
    peers: Vec<u64>,
}

/// What the newcomer and its neighbours are told when a node joins.
#[derive(Debug, PartialEq, Eq)]
pub struct Admission {
    /// The node before the newcomer, if the newcomer is not alone.
    pub predecessor: Option<u64>,
    /// The node after the newcomer, if the newcomer is not alone.
    pub successor: Option<u64>,
    /// A notice for the predecessor, the newcomer and the successor, in
    /// that order, each with the node it is for.
    pub updates: Vec<(u64, String)>,
}

/// What the ring's entry point makes of a message.
#[derive(Debug, PartialEq, Eq)]
pub enum Incoming {
    /// The node with this number asks to join.
    Join(u64),
    /// A client's request, to be handed to the first node.
    Request,
    /// The message is refused with this answer.
    Refused(String),
}

/// The numbers are in ascending order.
pub open spec fn ascending(s: Seq<u64>) -> bool {
    forall|i: int, j: int| 0 <= i < j < s.len() ==> s[i] <= s[j]
}

/// How many numbers at the front of `s` are below `x`.
pub open spec fn rank(s: Seq<u64>, x: u64) -> int
    decreases s.len(),
{
    if s.len() == 0 || s[0] >= x {
        0
    } else {
        1 + rank(s.drop_first(), x)
    }
}

/// The node before the position `i` of the ring, which closes on itself.
pub open spec fn before(s: Seq<u64>, i: int) -> u64 {
    if i == 0 {
        s.last()
    } else {
        s[i - 1]
    }
}

/// The node after the position `i` of the ring, which closes on itself.
pub open spec fn after(s: Seq<u64>, i: int) -> u64 {
    if i == s.len() - 1 {
        s[0]
    } else {
        s[i + 1]
    }
}

/// The notice that tells a node its neighbours:
/// `Predecessor: n<p>, Successor: n<s>`.
pub open spec fn neighbour_notice(pred: u64, succ: u64) -> Seq<char> {
    "Predecessor: n"@ + decimal(pred as nat) + ", Successor: n"@ + decimal(succ as nat)
}

/// The notice for the node `p` of the ring `s`, by the first position at
/// which `p` stands.
pub open spec fn notice_for(s: Seq<u64>, p: u64) -> (u64, Seq<char>) {
    (p, neighbour_notice(before(s, rank(s, p)), after(s, rank(s, p))))
}

/// What a vector of notices holds.
pub open spec fn notices(v: Seq<(u64, String)>) -> Seq<(u64, Seq<char>)> {
    Seq::new(v.len(), |i: int| (v[i].0, v[i].1@))
}

/// How a neighbour is written: `n<number>`, or `None` where there is none.
pub open spec fn neighbour_name(n: Option<u64>) -> Seq<char> {
    match n {
        Some(k) => seq!['n'] + decimal(k as nat),
        None => "None"@,
    }
}

/// The reply to a node that has joined:
/// `JOIN_REPLY: predecessor=<p>, successor=<s>` and a line feed.
pub open spec fn join_reply_text(pred: Option<u64>, succ: Option<u64>) -> Seq<char> {
    "JOIN_REPLY: predecessor="@ + neighbour_name(pred) + ", successor="@ + neighbour_name(succ)
        + seq!['\n']
}

/// What the entry point makes of a message, with the answers as text.
pub open spec fn incoming_of(message: Seq<char>) -> Result<Option<u64>, Seq<char>> {
    if starts_with(message, "JOIN:"@) {
        let name = trim(strip_repeated(message, "JOIN:"@));
        if name.len() > 0 && name[0] == 'n' {
            match u64_of(name.skip(1)) {
                Some(k) => Ok(Some(k)),
                None => Err("ERROR: Invalid peer number\n"@),
            }
        } else {
            Err("ERROR: Peer name must start with 'n'\n"@)
        }
    } else if starts_with(message, "REQUEST:"@) {
        Ok(None)
    } else {
        Err("ERROR: Unknown message format\n"@)
    }
}

/// What an `Incoming` holds, in the shape of `incoming_of`.
pub open spec fn incoming_view(i: Incoming) -> Result<Option<u64>, Seq<char>> {
    match i {
        Incoming::Join(k) => Ok(Some(k)),
        Incoming::Request => Ok(None),
        Incoming::Refused(t) => Err(t@),
    }
}

/// The number of the node whose host is named `n<number>`, and 0 for any
/// other name.
pub open spec fn node_number_of(name: Seq<char>) -> u64 {
    if name.len() > 0 && name[0] == 'n' {
        match u64_of(name.skip(1)) {
            Some(k) => k,
            None => 0,
        }
    } else {
        0
    }
}

/// The rank of `x` is a position up to which all numbers are below `x`, and
/// at which the numbers end or one that is not below `x` stands.
pub proof fn lemma_rank(s: Seq<u64>, x: u64)
    ensures
        0 <= rank(s, x) <= s.len(),
        forall|j: int| 0 <= j < rank(s, x) ==> s[j] < x,
        rank(s, x) < s.len() ==> s[rank(s, x)] >= x,
    decreases s.len(),
{
    if s.len() == 0 || s[0] >= x {
    } else {
        let t = s.drop_first();
        lemma_rank(t, x);
        assert forall|j: int| 0 <= j < rank(s, x) implies s[j] < x by {
            if j > 0 {
                assert(s[j] == t[j - 1]);
            }
        }
        if rank(s, x) < s.len() {
            assert(s[rank(s, x)] == t[rank(t, x)]);
        }
    }
}

/// The rank of `x` is the one such position.
pub proof fn lemma_rank_is(s: Seq<u64>, x: u64, k: int)
    requires
        0 <= k <= s.len(),
        forall|j: int| 0 <= j < k ==> s[j] < x,
        k == s.len() || s[k] >= x,
    ensures
        rank(s, x) == k,
    decreases s.len(),
{
    if s.len() == 0 || s[0] >= x {
    } else {
        let t = s.drop_first();
        assert forall|j: int| 0 <= j < k - 1 implies t[j] < x by {
            assert(t[j] == s[j + 1]);
        }
        lemma_rank_is(t, x, k - 1);
    }
}

/// Reads a number after the letter `n`.
fn read_node(name: &Vec<char>) -> (r: Option<Option<u64>>)
    ensures
        r == (if name@.len() > 0 && name@[0] == 'n' {
            Some(u64_of(name@.skip(1)))
        } else {
            None
        }),
{
    if name.len() > 0 && name[0] == 'n' {
        let digits = slice_of(name, 1, name.len());
        assert(digits@ == name@.skip(1));
        Some(read_u64(&digits))
    } else {
        None
    }
}

/// The number of the node whose host is named `name`.
pub fn node_number(name: &str) -> (r: u64)
    ensures
        r == node_number_of(name@),
{
    match read_node(&chars_of(name)) {
        Some(Some(k)) => k,
        _ => 0,
    }
}

/// Decides what the entry point of the ring does with a message.
pub fn read_incoming(message: &str) -> (r: Incoming)
    ensures
        incoming_view(r) == incoming_of(message@),
{
    let m = chars_of(message);
    let join = chars_of("JOIN:");
    if has_prefix(&m, &join) {
        let name = trimmed(&without_repeated(&m, &join));
        match read_node(&name) {
            Some(Some(k)) => Incoming::Join(k),
            Some(None) => Incoming::Refused(String::from_str("ERROR: Invalid peer number\n")),
            None => Incoming::Refused(String::from_str("ERROR: Peer name must start with 'n'\n")),
        }
    } else if has_prefix(&m, &chars_of("REQUEST:")) {
        Incoming::Request
    } else {
        Incoming::Refused(String::from_str("ERROR: Unknown message format\n"))
    }
}

/// Appends how a neighbour is written.
fn append_neighbour(out: &mut String, n: Option<u64>)
    ensures
        final(out)@ == old(out)@ + neighbour_name(n),
{
    match n {
        Some(k) => {
            out.push('n');
            append_decimal(out, k);
            assert(old(out)@.push('n') + decimal(k as nat) == old(out)@ + (seq!['n'] + decimal(
                k as nat,
            )));
        },
        None => {
            out.append("None");
        },
    }
}

/// Writes the reply to a node that has joined.
pub fn join_reply_line(pred: Option<u64>, succ: Option<u64>) -> (r: String)
    ensures
        r@ == join_reply_text(pred, succ),
{
    let mut out = String::from_str("JOIN_REPLY: predecessor=");
    append_neighbour(&mut out, pred);
    out.append(", successor=");
    append_neighbour(&mut out, succ);
    out.push('\n');
    assert(out@ == join_reply_text(pred, succ));
    out
}

/// Writes the notice that tells a node its neighbours.
fn notice_line(pred: u64, succ: u64) -> (r: String)
    ensures
        r@ == neighbour_notice(pred, succ),
{
    let mut out = String::from_str("Predecessor: n");
    append_decimal(&mut out, pred);
    out.append(", Successor: n");
    append_decimal(&mut out, succ);
    out
}

impl Ring {
    #[verifier::type_invariant]
    spec fn inv(&self) -> bool {
        ascending(self.peers@)
    }

    /// The numbers of the nodes, in ascending order.
    pub closed spec fn nodes(&self) -> Seq<u64> {
        self.peers@
    }

    /// A ring without nodes.
    pub fn new() -> (r: Ring)
        ensures
            r.nodes().len() == 0,
    {
        Ring { peers: Vec::new() }
    }

    /// The numbers of the nodes, in ascending order.
    pub fn members(&self) -> (r: Vec<u64>)
        ensures
            r@ == self.nodes(),
            ascending(r@),
    {
        proof {
            use_type_invariant(self);
        }
        let mut out: Vec<u64> = Vec::new();
        let mut i: usize = 0;
        while i < self.peers.len()
            invariant
                i <= self.peers.len(),
                out@ == self.peers@.take(i as int),
            decreases self.peers.len() - i,
        {
            out.push(self.peers[i]);
            assert(self.peers@.take(i + 1) == self.peers@.take(i as int).push(
                self.peers@[i as int],
            ));
            i += 1;
        }
        assert(self.peers@.take(self.peers.len() as int) == self.peers@);
        out
    }

    /// The notice for the node `p`, by the first position at which it
    /// stands.
    fn notice(&self, p: u64) -> (r: (u64, String))
        requires
            self.nodes().contains(p),
        ensures
            (r.0, r.1@) == notice_for(self.nodes(), p),
    {
        let n = self.peers.len();
        let mut k: usize = 0;
        while k < n && self.peers[k] < p
            invariant
                k <= n == self.peers.len(),
                forall|j: int| 0 <= j < k ==> self.peers@[j] < p,
            decreases n - k,
        {
            k += 1;
        }
        proof {
            lemma_rank_is(self.peers@, p, k as int);
            let j = choose|j: int| 0 <= j < self.peers@.len() && self.peers@[j] == p;
            assert(k <= j);
        }
        let pred = if k == 0 {
            self.peers[n - 1]
        } else {
            self.peers[k - 1]
        };
        let succ = if k >= n - 1 {
            self.peers[0]
        } else {
            self.peers[k + 1]
        };
        (p, notice_line(pred, succ))
    }

    /// Takes the node `new_peer` into the ring, which stays in ascending
    /// order: the newcomer stands behind the nodes with lower numbers.
    ///
    /// A newcomer that is alone has no neighbours and nobody is told
    /// anything. Otherwise its neighbours are the nodes before and after
    /// it in the ring, which closes on itself, and the predecessor, the
    /// newcomer and the successor are each told their own neighbours.
    pub fn add_peer(&mut self, new_peer: u64) -> (r: Admission)
        ensures
            final(self).nodes() == old(self).nodes().insert(
                rank(old(self).nodes(), new_peer),
                new_peer,
            ),
            if old(self).nodes().len() == 0 {
                r.predecessor is None && r.successor is None && r.updates@.len() == 0
            } else {
                let ring = final(self).nodes();
                let at = rank(old(self).nodes(), new_peer);
                &&& r.predecessor == Some(before(ring, at))
                &&& r.successor == Some(after(ring, at))
                &&& notices(r.updates@) == seq![
                    notice_for(ring, before(ring, at)),
                    notice_for(ring, new_peer),
                    notice_for(ring, after(ring, at)),
                ]
            },
    {
        proof {
            use_type_invariant(&*self);
            lemma_rank(self.peers@, new_peer);
        }
        let ghost prior = self.peers@;
        let n = self.peers.len();
        let mut next: Vec<u64> = Vec::new();
        let mut at: usize = 0;
        let mut i: usize = 0;
        while i < n && self.peers[i] < new_peer
            invariant
                i <= n == self.peers.len(),
                next@ == self.peers@.take(i as int),
                forall|j: int| 0 <= j < i ==> self.peers@[j] < new_peer,
            decreases n - i,
        {
            next.push(self.peers[i]);
            assert(self.peers@.take(i + 1) == self.peers@.take(i as int).push(
                self.peers@[i as int],
            ));
            i += 1;
        }
        proof {
            lemma_rank_is(self.peers@, new_peer, i as int);
        }
        at = i;
        next.push(new_peer);
        while i < n
            invariant
                at <= i <= n == self.peers.len(),
                next@ == self.peers@.take(at as int).push(new_peer) + self.peers@.subrange(
                    at as int,
                    i as int,
                ),
            decreases n - i,
        {
            next.push(self.peers[i]);
            assert(self.peers@.subrange(at as int, i + 1) == self.peers@.subrange(
                at as int,
                i as int,
            ).push(self.peers@[i as int]));
            i += 1;
        }
        proof {
            assert(next@ == prior.insert(at as int, new_peer));
            assert forall|a: int, b: int| 0 <= a < b < next@.len() implies next@[a] <= next@[b] by {
                let x = if a < at {
                    prior[a]
                } else if a == at {
                    new_peer
                } else {
                    prior[a - 1]
                };
                let y = if b < at {
                    prior[b]
                } else if b == at {
                    new_peer
                } else {
                    prior[b - 1]
                };
                assert(next@[a] == x && next@[b] == y);
                if b > at && a < at {
                    assert(prior[a] <= prior[b - 1]);
                }
                if a == at && b > at {
                    assert(prior[at as int] <= prior[b - 1]);
                }
            }
        }
        self.peers = next;
        let len = self.peers.len();
        if len == 1 {
            return Admission { predecessor: None, successor: None, updates: Vec::new() };
        }
        let pred = if at == 0 {
            self.peers[len - 1]
        } else {
            self.peers[at - 1]
        };
        let succ = if at == len - 1 {
            self.peers[0]
        } else {
            self.peers[at + 1]
        };
        let mut updates: Vec<(u64, String)> = Vec::new();
        assert(self.peers@[at as int] == new_peer);
        updates.push(self.notice(pred));
        updates.push(self.notice(new_peer));
        updates.push(self.notice(succ));
        assert(notices(updates@) == seq![
            notice_for(self.peers@, pred),
            notice_for(self.peers@, new_peer),
            notice_for(self.peers@, succ),
        ]);
        Admission { predecessor: Some(pred), successor: Some(succ), updates }
    }
}

/// What kind of message a node has received from the ring's entry point.
#[derive(Clone, Copy, Debug, PartialEq, Eq, Structural)]
pub enum NoticeKind {
    /// The reply to the node's own request to join.
    JoinReply,
    /// A change of the node's predecessor.
    Update,
    /// The node's neighbours, both.
    Neighbours,
    /// A client's request.
    Request,
    /// Nothing the node knows.
    Other,
}

/// The kind of a message, by how it begins and what it mentions; the first
/// of the kinds that fits.
pub open spec fn kind_of(message: Seq<char>) -> NoticeKind {
    if starts_with(message, "JOIN_REPLY:"@) {
        NoticeKind::JoinReply
    } else if starts_with(message, "UPDATE:"@) {
        NoticeKind::Update
    } else if has_subtext(message, "Predecessor:"@) && has_subtext(message, "Successor:"@) {
        NoticeKind::Neighbours
    } else if starts_with(message, "REQUEST:"@) {
        NoticeKind::Request
    } else {
        NoticeKind::Other
    }
}

/// Tells what kind of message a node has received.
pub fn classify_notice(message: &str) -> (r: NoticeKind)
    ensures
        r == kind_of(message@),
{
    let m = chars_of(message);
    if has_prefix(&m, &chars_of("JOIN_REPLY:")) {
        NoticeKind::JoinReply
    } else if has_prefix(&m, &chars_of("UPDATE:")) {
        NoticeKind::Update
    } else if mentions(message, "Predecessor:") && mentions(message, "Successor:") {
        NoticeKind::Neighbours
    } else if has_prefix(&m, &chars_of("REQUEST:")) {
        NoticeKind::Request
    } else {
        NoticeKind::Other
    }
}

} // verus!
