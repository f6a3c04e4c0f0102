//! The roles of a single-decree consensus round, the acceptor's rule and
//! what a proposer learns from an acknowledgement.

use crate::text::{
    chars_of, cut, cut_at, has_prefix, is_sorting, rows, same_text, sort_texts, split, split_on,
    starts_with, strip_repeated, text_of, trim, trimmed, without_repeated,
};
use vstd::prelude::*;

verus! {

/// The part a process plays in a consensus round.
#[derive(Clone, Copy, Debug, PartialEq, Eq, Structural)]
pub enum Role {
    Learner,
    Acceptor,
    Proposer,
}

/// One message of a consensus round.
#[derive(Debug, PartialEq, Eq)]
pub struct PaxosMessage {
    pub peer_id: u32,
    pub action: String,
    pub message_type: String,
    pub message_value: String,
    pub proposal_num: u32,
}

/// What a process remembers of the round: the highest proposal it has
/// promised to, and the proposal and value it has accepted, if any.
#[derive(Debug, PartialEq, Eq)]
pub struct PaxosState {
    pub promised_proposal: u32,
    pub accepted_proposal: Option<u32>,
    pub accepted_value: Option<String>,
}

/// What an optional string holds.
pub open spec fn held(s: Option<String>) -> Option<Seq<char>> {
    match s {
        Some(t) => Some(t@),
        None => None,
    }
}

/// The kind of answer an acceptor gives to a message of kind `kind` with
/// proposal number `n`, having promised to `promised`: it acknowledges a
/// `prepare` or an `accept` whose number is not below its promise, rejects
/// a lower one, and knows no other kind.
pub open spec fn answer_kind(kind: Seq<char>, n: u32, promised: u32) -> Seq<char> {
    if kind == "prepare"@ {
        if n >= promised {
            "prepare_ack"@
        } else {
            "reject_prepare"@
        }
    } else if kind == "accept"@ {
        if n >= promised {
            "accept_ack"@
        } else {
            "reject_accept"@
        }
    } else {
        "unknown"@
    }
}

/// The promise of an acceptor after a message: raised to the number of an
/// acknowledged `prepare` or `accept`.
pub open spec fn promise_after(kind: Seq<char>, n: u32, promised: u32) -> u32 {
    if (kind == "prepare"@ || kind == "accept"@) && n >= promised {
        n
    } else {
        promised
    }
}

/// Whether the message makes the acceptor accept its value.
pub open spec fn is_accepted(kind: Seq<char>, n: u32, promised: u32) -> bool {
    kind == "accept"@ && n >= promised
}

/// A state for which nothing has been promised or accepted.
pub fn fresh_state() -> (r: PaxosState)
    ensures
        r.promised_proposal == 0,
        r.accepted_proposal is None,
        r.accepted_value is None,
{
    PaxosState { promised_proposal: 0, accepted_proposal: None, accepted_value: None }
}

/// The acceptor's rule: takes in one message and gives the answer to send.
///
/// The answer carries the acceptor's identifier, the action `sent` and the
/// number of the message. Its value is the value the acceptor has accepted,
/// after this message, if it has accepted one; else the value of the
/// message for a `prepare`, and nothing for any other message.
pub fn acceptor_reply(state: &mut PaxosState, my_id: u32, msg: &PaxosMessage) -> (reply:
    PaxosMessage)
    ensures
        reply.peer_id == my_id,
        reply.action@ == "sent"@,
        reply.proposal_num == msg.proposal_num,
        reply.message_type@ == answer_kind(
            msg.message_type@,
            msg.proposal_num,
            old(state).promised_proposal,
        ),
        final(state).promised_proposal == promise_after(
            msg.message_type@,
            msg.proposal_num,
            old(state).promised_proposal,
        ),
        if is_accepted(msg.message_type@, msg.proposal_num, old(state).promised_proposal) {
            final(state).accepted_proposal == Some(msg.proposal_num) && held(
                final(state).accepted_value,
            ) == Some(msg.message_value@)
        } else {
            final(state).accepted_proposal == old(state).accepted_proposal && final(state).accepted_value == old(state).accepted_value
        },
        reply.message_value@ == (match held(final(state).accepted_value) {
            Some(v) => v,
            None => if msg.message_type@ == "prepare"@ {
                msg.message_value@
            } else {
                Seq::<char>::empty()
            },
        }),
{
    proof {
        reveal_strlit("prepare");
        reveal_strlit("accept");
        assert("prepare"@.len() != "accept"@.len());
    }
    let is_prepare = msg.message_type == String::from_str("prepare");
    let is_accept = msg.message_type == String::from_str("accept");
    let reply_type = if is_prepare {
        if msg.proposal_num >= state.promised_proposal {
            state.promised_proposal = msg.proposal_num;
            String::from_str("prepare_ack")
        } else {
            String::from_str("reject_prepare")
        }
    } else if is_accept {
        if msg.proposal_num >= state.promised_proposal {
            state.promised_proposal = msg.proposal_num;
            state.accepted_proposal = Some(msg.proposal_num);
            state.accepted_value = Some(msg.message_value.clone());
            String::from_str("accept_ack")
        } else {
            String::from_str("reject_accept")
        }
    } else {
        String::from_str("unknown")
    };
    let reply_value = match &state.accepted_value {
        Some(v) => v.clone(),
        None => if is_prepare {
            msg.message_value.clone()
        } else {
            String::new()
        },
    };
    PaxosMessage {
        peer_id: my_id,
        action: String::from_str("sent"),
        message_type: reply_type,
        message_value: reply_value,
        proposal_num: msg.proposal_num,
    }
}

/// What a proposer learns from an answer to its `accept`: an `accept_ack`
/// replaces what it holds as accepted if it holds nothing yet or the answer
/// carries a higher number. Any other answer changes nothing.
pub fn learn_accept(state: &mut PaxosState, reply: &PaxosMessage)
    ensures
        final(state).promised_proposal == old(state).promised_proposal,
        if reply.message_type@ == "accept_ack"@ && (match old(state).accepted_proposal {
            Some(n) => reply.proposal_num > n,
            None => true,
        }) {
            final(state).accepted_proposal == Some(reply.proposal_num) && held(
                final(state).accepted_value,
            ) == Some(reply.message_value@)
        } else {
            final(state).accepted_proposal == old(state).accepted_proposal && final(state).accepted_value == old(state).accepted_value
        },
{
    if reply.message_type == String::from_str("accept_ack") {
        let newer = match state.accepted_proposal {
            Some(n) => reply.proposal_num > n,
            None => true,
        };
        if newer {
            state.accepted_proposal = Some(reply.proposal_num);
            state.accepted_value = Some(reply.message_value.clone());
        }
    }
}

/// Tells whether an answer to a `prepare` is a promise.
pub fn is_promise(reply: &PaxosMessage) -> (r: bool)
    ensures
        r == (reply.message_type@ == "prepare_ack"@),
{
    reply.message_type == String::from_str("prepare_ack")
}

/// What a process is to do in a round, as the list of hosts says.
#[derive(Debug, PartialEq, Eq)]
pub struct Assignment {
    /// The number of the process's line among the lines that are not
    /// empty, counted from 1; 0 where the process is not listed.
    pub id: u32,
    pub role: Role,
    /// The hosts that play the other part in the process's rounds, in
    /// ascending order.
    pub partners: Vec<String>,
}

/// The lines that are not empty once trimmed, trimmed.
pub open spec fn entries(lines: Seq<Seq<char>>) -> Seq<Seq<char>>
    decreases lines.len(),
{
    if lines.len() == 0 {
        Seq::empty()
    } else {
        let rest = entries(lines.drop_last());
        let e = trim(lines.last());
        if e.len() > 0 {
            rest.push(e)
        } else {
            rest
        }
    }
}

/// The entry `host:roles` is that of the host `name`.
pub open spec fn is_entry_of(e: Seq<char>, name: Seq<char>) -> bool {
    match cut(e, ':') {
        Some((host, _)) => trim(host) == name,
        None => false,
    }
}

/// The position of the first entry of the host `name`, or the number of
/// entries if there is none.
pub open spec fn own_position(all: Seq<Seq<char>>, name: Seq<char>) -> int
    decreases all.len(),
{
    if all.len() == 0 || is_entry_of(all[0], name) {
        0
    } else {
        1 + own_position(all.drop_first(), name)
    }
}

/// The fields of `s` between occurrences of `d`, each trimmed.
pub open spec fn trimmed_fields(s: Seq<char>, d: char) -> Seq<Seq<char>> {
    Seq::new(split(s, d).len(), |i: int| trim(split(s, d)[i]))
}

/// The roles that an entry `host:roles` lists, and none for an entry
/// without a colon.
pub open spec fn roles_in(e: Seq<char>) -> Seq<Seq<char>> {
    match cut(e, ':') {
        Some((_, roles)) => trimmed_fields(roles, ','),
        None => Seq::empty(),
    }
}

/// The round numbers of the roles that begin with `word`: what follows the
/// word, repeated or not, where anything follows.
pub open spec fn round_numbers(roles: Seq<Seq<char>>, word: Seq<char>) -> Seq<Seq<char>>
    decreases roles.len(),
{
    if roles.len() == 0 {
        Seq::empty()
    } else {
        let rest = round_numbers(roles.drop_last(), word);
        let r = roles.last();
        if starts_with(r, word) && strip_repeated(r, word).len() > 0 {
            rest.push(strip_repeated(r, word))
        } else {
            rest
        }
    }
}

/// One of the roles is `word` followed by one of the round numbers.
pub open spec fn plays(roles: Seq<Seq<char>>, word: Seq<char>, numbers: Seq<Seq<char>>) -> bool {
    exists|i: int, j: int|
        #![trigger numbers[i], roles[j]]
        0 <= i < numbers.len() && 0 <= j < roles.len() && roles[j] == word + numbers[i]
}

/// The hosts other than `name` that play the part `word` in one of the
/// rounds `numbers`, in the order of their entries.
pub open spec fn partners_of(
    all: Seq<Seq<char>>,
    name: Seq<char>,
    word: Seq<char>,
    numbers: Seq<Seq<char>>,
) -> Seq<Seq<char>>
    decreases all.len(),
{
    if all.len() == 0 {
        Seq::empty()
    } else {
        let rest = partners_of(all.drop_last(), name, word, numbers);
        match cut(all.last(), ':') {
            Some((host, roles)) => if trim(host) != name && plays(
                trimmed_fields(roles, ','),
                word,
                numbers,
            ) {
                rest.push(trim(host))
            } else {
                rest
            },
            None => rest,
        }
    }
}

/// The roles that the list gives the host `name`: those of its first
/// entry.
pub open spec fn own_roles(all: Seq<Seq<char>>, name: Seq<char>) -> Seq<Seq<char>> {
    if own_position(all, name) < all.len() {
        roles_in(all[own_position(all, name)])
    } else {
        Seq::empty()
    }
}

/// The part that the host `name` plays: proposer where it proposes in some
/// round, else acceptor where it accepts in some round, else learner.
pub open spec fn role_of(all: Seq<Seq<char>>, name: Seq<char>) -> Role {
    if round_numbers(own_roles(all, name), "proposer"@).len() > 0 {
        Role::Proposer
    } else if round_numbers(own_roles(all, name), "acceptor"@).len() > 0 {
        Role::Acceptor
    } else {
        Role::Learner
    }
}

/// The hosts that play the other part in the rounds of the host `name`, in
/// the order of their entries: the acceptors of the rounds in which it
/// proposes, or the proposers of the rounds in which it accepts.
pub open spec fn counterparts(all: Seq<Seq<char>>, name: Seq<char>) -> Seq<Seq<char>> {
    match role_of(all, name) {
        Role::Proposer => partners_of(
            all,
            name,
            "acceptor"@,
            round_numbers(own_roles(all, name), "proposer"@),
        ),
        Role::Acceptor => partners_of(
            all,
            name,
            "proposer"@,
            round_numbers(own_roles(all, name), "acceptor"@),
        ),
        Role::Learner => Seq::empty(),
    }
}

/// The identifier of the host `name`: the number of its first entry,
/// counted from 1, where it has one and the number fits; else 0.
pub open spec fn own_id(all: Seq<Seq<char>>, name: Seq<char>) -> u32 {
    if own_position(all, name) < all.len() && own_position(all, name) < u32::MAX {
        (own_position(all, name) + 1) as u32
    } else {
        0
    }
}

/// What a vector of strings holds.
pub open spec fn names(v: Seq<String>) -> Seq<Seq<char>> {
    Seq::new(v.len(), |i: int| v[i]@)
}

/// `own_position` is the one position before which no entry is that of
/// `name` and at which the entries end or one of `name` stands.
proof fn lemma_own_position(all: Seq<Seq<char>>, name: Seq<char>, k: int)
    requires
        0 <= k <= all.len(),
        forall|j: int| 0 <= j < k ==> !is_entry_of(#[trigger] all[j], name),
        k == all.len() || is_entry_of(all[k], name),
    ensures
        own_position(all, name) == k,
    decreases all.len(),
{
    if all.len() == 0 || is_entry_of(all[0], name) {
    } else {
        let t = all.drop_first();
        assert forall|j: int| 0 <= j < k - 1 implies !is_entry_of(#[trigger] t[j], name) by {
            assert(t[j] == all[j + 1]);
        }
        lemma_own_position(t, name, k - 1);
    }
}

/// The lines of a text that are not empty once trimmed, trimmed.
fn read_entries(content: &Vec<char>) -> (r: Vec<Vec<char>>)
    ensures
        rows(r@) == entries(split(content@, '\n')),
{
    let lines = split_on(content, '\n');
    let mut out: Vec<Vec<char>> = Vec::new();
    let mut i: usize = 0;
    assert(rows(lines@).take(0).len() == 0);
    assert(rows(out@) == Seq::<Seq<char>>::empty());
    while i < lines.len()
        invariant
            i <= lines.len(),
            rows(out@) == entries(rows(lines@).take(i as int)),
        decreases lines.len() - i,
    {
        proof {
            let next = rows(lines@).take(i + 1);
            assert(next.drop_last() == rows(lines@).take(i as int));
            assert(next.last() == lines[i as int]@);
        }
        let e = trimmed(&lines[i]);
        if e.len() > 0 {
            let ghost before = rows(out@);
            out.push(e);
            assert(rows(out@) == before.push(e@));
        }
        i += 1;
    }
    assert(rows(lines@).take(lines.len() as int) == rows(lines@));
    out
}

/// The fields of `s` between occurrences of `d`, each trimmed.
fn read_trimmed_fields(s: &Vec<char>, d: char) -> (r: Vec<Vec<char>>)
    ensures
        rows(r@) == trimmed_fields(s@, d),
{
    let fields = split_on(s, d);
    let mut out: Vec<Vec<char>> = Vec::new();
    let mut i: usize = 0;
    while i < fields.len()
        invariant
            i <= fields.len(),
            rows(fields@) == split(s@, d),
            out.len() == i,
            forall|j: int| 0 <= j < i ==> (#[trigger] out@[j])@ == trim(split(s@, d)[j]),
        decreases fields.len() - i,
    {
        assert(rows(fields@)[i as int] == fields[i as int]@);
        out.push(trimmed(&fields[i]));
        i += 1;
    }
    assert(rows(fields@).len() == fields.len());
    assert(rows(out@) == trimmed_fields(s@, d));
    out
}

/// The roles that an entry lists.
fn read_roles(e: &Vec<char>) -> (r: Vec<Vec<char>>)
    ensures
        rows(r@) == roles_in(e@),
{
    match cut_at(e, ':') {
        Some((_, roles)) => read_trimmed_fields(&roles, ','),
        None => {
            let out: Vec<Vec<char>> = Vec::new();
            assert(rows(out@) == Seq::<Seq<char>>::empty());
            out
        },
    }
}

/// Tells whether an entry is that of the host `name`.
fn entry_is_of(e: &Vec<char>, name: &Vec<char>) -> (r: bool)
    ensures
        r == is_entry_of(e@, name@),
{
    match cut_at(e, ':') {
        Some((host, _)) => same_text(&trimmed(&host), name),
        None => false,
    }
}

/// The round numbers of the roles that begin with `word`.
fn read_round_numbers(roles: &Vec<Vec<char>>, word: &Vec<char>) -> (r: Vec<Vec<char>>)
    ensures
        rows(r@) == round_numbers(rows(roles@), word@),
{
    let mut out: Vec<Vec<char>> = Vec::new();
    let mut i: usize = 0;
    assert(rows(roles@).take(0).len() == 0);
    assert(rows(out@) == Seq::<Seq<char>>::empty());
    while i < roles.len()
        invariant
            i <= roles.len(),
            rows(out@) == round_numbers(rows(roles@).take(i as int), word@),
        decreases roles.len() - i,
    {
        proof {
            let next = rows(roles@).take(i + 1);
            assert(next.drop_last() == rows(roles@).take(i as int));
            assert(next.last() == roles[i as int]@);
        }
        if has_prefix(&roles[i], word) {
            let number = without_repeated(&roles[i], word);
            if number.len() > 0 {
                let ghost before = rows(out@);
                out.push(number);
                assert(rows(out@) == before.push(number@));
            }
        }
        i += 1;
    }
    assert(rows(roles@).take(roles.len() as int) == rows(roles@));
    out
}

/// Tells whether one of the roles is `word` followed by one of the round
/// numbers.
fn does_play(roles: &Vec<Vec<char>>, word: &Vec<char>, numbers: &Vec<Vec<char>>) -> (r: bool)
    ensures
        r == plays(rows(roles@), word@, rows(numbers@)),
{
    let mut i: usize = 0;
    while i < numbers.len()
        invariant
            i <= numbers.len(),
            forall|a: int, b: int|
                #![trigger rows(numbers@)[a], rows(roles@)[b]]
                0 <= a < i && 0 <= b < roles.len() ==> rows(roles@)[b] != word@ + rows(
                    numbers@,
                )[a],
        decreases numbers.len() - i,
    {
        let mut wanted: Vec<char> = Vec::new();
        let mut k: usize = 0;
        while k < word.len()
            invariant
                k <= word.len(),
                wanted@ == word@.take(k as int),
            decreases word.len() - k,
        {
            wanted.push(word[k]);
            assert(word@.take(k + 1) == word@.take(k as int).push(word@[k as int]));
            k += 1;
        }
        assert(word@.take(word.len() as int) == word@);
        k = 0;
        while k < numbers[i].len()
            invariant
                i < numbers.len(),
                k <= numbers[i as int].len(),
                wanted@ == word@ + numbers[i as int]@.take(k as int),
            decreases numbers[i as int].len() - k,
        {
            wanted.push(numbers[i][k]);
            assert(numbers[i as int]@.take(k + 1) == numbers[i as int]@.take(k as int).push(
                numbers[i as int]@[k as int],
            ));
            k += 1;
        }
        assert(numbers[i as int]@.take(numbers[i as int].len() as int) == numbers[i as int]@);
        assert(wanted@ == word@ + rows(numbers@)[i as int]);
        let mut j: usize = 0;
        while j < roles.len()
            invariant
                j <= roles.len(),
                i < numbers.len(),
                wanted@ == word@ + rows(numbers@)[i as int],
                forall|b: int| 0 <= b < j ==> (#[trigger] rows(roles@)[b]) != wanted@,
            decreases roles.len() - j,
        {
            if same_text(&roles[j], &wanted) {
                assert(rows(roles@)[j as int] == word@ + rows(numbers@)[i as int]);
                return true;
            }
            j += 1;
        }
        i += 1;
    }
    false
}

/// The hosts other than `name` that play the part `word` in one of the
/// rounds `numbers`.
fn read_partners(
    all: &Vec<Vec<char>>,
    name: &Vec<char>,
    word: &Vec<char>,
    numbers: &Vec<Vec<char>>,
) -> (r: Vec<Vec<char>>)
    ensures
        rows(r@) == partners_of(rows(all@), name@, word@, rows(numbers@)),
{
    let mut out: Vec<Vec<char>> = Vec::new();
    let mut i: usize = 0;
    assert(rows(all@).take(0).len() == 0);
    assert(rows(out@) == Seq::<Seq<char>>::empty());
    while i < all.len()
        invariant
            i <= all.len(),
            rows(out@) == partners_of(rows(all@).take(i as int), name@, word@, rows(numbers@)),
        decreases all.len() - i,
    {
        proof {
            let next = rows(all@).take(i + 1);
            assert(next.drop_last() == rows(all@).take(i as int));
            assert(next.last() == all[i as int]@);
        }
        match cut_at(&all[i], ':') {
            Some((host, roles)) => {
                let host = trimmed(&host);
                if !same_text(&host, name) && does_play(
                    &read_trimmed_fields(&roles, ','),
                    word,
                    numbers,
                ) {
                    let ghost before = rows(out@);
                    out.push(host);
                    assert(rows(out@) == before.push(host@));
                }
            },
            None => {},
        }
        i += 1;
    }
    assert(rows(all@).take(all.len() as int) == rows(all@));
    out
}

/// Reads from the list of hosts what the host `name` is to do.
///
/// The list has one entry `host:role,role,...` to a line; empty lines do
/// not count. A role is `proposer` or `acceptor` followed by the number of a
/// round.
pub fn assign_role(content: &str, name: &str) -> (r: Assignment)
    ensures
        r.id == own_id(entries(split(content@, '\n')), name@),
        r.role == role_of(entries(split(content@, '\n')), name@),
        exists|order: Seq<int>|
            is_sorting(
                names(r.partners@),
                counterparts(entries(split(content@, '\n')), name@),
                order,
            ),
{
    let all = read_entries(&chars_of(content));
    let me = chars_of(name);
    let mut at: usize = 0;
    while at < all.len() && !entry_is_of(&all[at], &me)
        invariant
            at <= all.len(),
            forall|j: int| 0 <= j < at ==> !is_entry_of(#[trigger] rows(all@)[j], me@),
        decreases all.len() - at,
    {
        assert(rows(all@)[at as int] == all[at as int]@);
        at += 1;
    }
    proof {
        if at < all.len() {
            assert(rows(all@)[at as int] == all[at as int]@);
        }
        lemma_own_position(rows(all@), me@, at as int);
    }
    let id: u32 = if at < all.len() && at < u32::MAX as usize {
        (at + 1) as u32
    } else {
        0
    };
    let roles = if at < all.len() {
        read_roles(&all[at])
    } else {
        let none: Vec<Vec<char>> = Vec::new();
        assert(rows(none@) == Seq::<Seq<char>>::empty());
        none
    };
    assert(rows(roles@) == own_roles(rows(all@), me@));
    let proposer = chars_of("proposer");
    let acceptor = chars_of("acceptor");
    let proposes = read_round_numbers(&roles, &proposer);
    let accepts = read_round_numbers(&roles, &acceptor);
    assert(rows(proposes@).len() == proposes.len());
    assert(rows(accepts@).len() == accepts.len());
    let (role, found) = if proposes.len() > 0 {
        (Role::Proposer, read_partners(&all, &me, &acceptor, &proposes))
    } else if accepts.len() > 0 {
        (Role::Acceptor, read_partners(&all, &me, &proposer, &accepts))
    } else {
        let none: Vec<Vec<char>> = Vec::new();
        assert(rows(none@) == Seq::<Seq<char>>::empty());
        (Role::Learner, none)
    };
    assert(rows(found@) == counterparts(rows(all@), me@));
    let sorted = sort_texts(&found);
    let ghost order = choose|order: Seq<int>| is_sorting(rows(sorted@), rows(found@), order);
    let mut partners: Vec<String> = Vec::new();
    let mut i: usize = 0;
    while i < sorted.len()
        invariant
            i <= sorted.len(),
            partners.len() == i,
            forall|j: int| 0 <= j < i ==> (#[trigger] partners@[j])@ == sorted@[j]@,
        decreases sorted.len() - i,
    {
        partners.push(text_of(&sorted[i]));
        i += 1;
    }
    let r = Assignment { id, role, partners };
    proof {
        assert(names(r.partners@) == rows(sorted@));
        assert(is_sorting(
            names(r.partners@),
            counterparts(entries(split(content@, '\n')), name@),
            order,
        ));
    }
    r
}

} // verus!
