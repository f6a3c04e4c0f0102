//! The messages of the protocol and their text on the wire.

use crate::text::{
    append_decimal, chars_of, decimal, has_prefix, is_digit, lemma_decimal,
    lemma_decimal_round_trip, lemma_digits_exclude, lemma_split_head, lemma_split_single,
    lemma_trim_bare, read_u32, rows, same_text, split, split_on, starts_with, strip_prefix, trim,
    trimmed, u32_of, without_prefix,
};
use crate::view::{
    append_id_list, id_list, lemma_id_list_shape, lemma_short_form_round_trip, parse_short,
    parse_view, read_short, unnamed, ViewModel, ViewParseError,
};
use vstd::prelude::*;

verus! {

/// A change to the membership: one peer joins or one peer leaves.
#[derive(Clone, Copy, Debug, PartialEq, Eq, Structural)]
pub enum Operation {
    Add,
    Del,
}

/// One message between two processes.
#[derive(Debug, PartialEq, Eq)]
pub enum Message {
    /// A process asks the leader to add it to the view.
    Join { id: u32 },
    /// The leader proposes a change to the view `view_id`.
    Req { req_id: u32, view_id: u32, op: Operation, target: u32 },
    /// A member acknowledges the proposal `req_id` on the view `view_id`.
    Ack { req_id: u32, view_id: u32 },
    /// The leader announces a committed view.
    NewView { view_id: u32, members: Vec<u32> },
    /// A process shows that it is alive.
    Heartbeat { sender: u32 },
    /// The answer to a heartbeat.
    Alive,
}

/// What a `Message` holds, as plain values.
pub enum Wire {
    Join { id: u32 },
    Req { req_id: u32, view_id: u32, op: Operation, target: u32 },
    Ack { req_id: u32, view_id: u32 },
    NewView { view_id: u32, members: Seq<u32> },
    Heartbeat { sender: u32 },
    Alive,
}

impl View for Message {
    type V = Wire;

    open spec fn view(&self) -> Wire {
        match *self {
            Message::Join { id } => Wire::Join { id },
            Message::Req { req_id, view_id, op, target } => Wire::Req {
                req_id,
                view_id,
                op,
                target,
            },
            Message::Ack { req_id, view_id } => Wire::Ack { req_id, view_id },
            Message::NewView { view_id, members } => Wire::NewView { view_id, members: members@ },
            Message::Heartbeat { sender } => Wire::Heartbeat { sender },
            Message::Alive => Wire::Alive,
        }
    }
}

/// The word that stands for an operation on the wire.
pub open spec fn operation_word(op: Operation) -> Seq<char> {
    match op {
        Operation::Add => "ADD"@,
        Operation::Del => "DEL"@,
    }
}

/// The operation that a word stands for.
pub open spec fn operation_of(word: Seq<char>) -> Option<Operation> {
    if word == "ADD"@ {
        Some(Operation::Add)
    } else if word == "DEL"@ {
        Some(Operation::Del)
    } else {
        None
    }
}

/// The text of a message, without the line end.
pub open spec fn wire_text(m: Wire) -> Seq<char> {
    match m {
        Wire::Join { id } => "JOIN:"@ + decimal(id as nat),
        Wire::Req { req_id, view_id, op, target } => "REQ:"@ + decimal(req_id as nat) + seq![':']
            + decimal(view_id as nat) + seq![':'] + operation_word(op) + seq![':'] + decimal(
            target as nat,
        ),
        Wire::Ack { req_id, view_id } => "OK:"@ + decimal(req_id as nat) + seq![':'] + decimal(
            view_id as nat,
        ),
        Wire::NewView { view_id, members } => "NEWVIEW:"@ + decimal(view_id as nat) + seq![':']
            + id_list(members),
        Wire::Heartbeat { sender } => "HEARTBEAT:"@ + decimal(sender as nat),
        Wire::Alive => "ALIVE"@,
    }
}

/// The identifiers of the members of a view, in order.
pub open spec fn member_ids(v: ViewModel) -> Seq<u32> {
    Seq::new(v.members.len(), |i: int| v.members[i].1)
}

/// The message that colon-separated fields write, by their first field.
pub open spec fn read_fields(parts: Seq<Seq<char>>) -> Option<Wire> {
    if parts.len() == 2 && parts[0] == "JOIN"@ {
        match u32_of(parts[1]) {
            Some(id) => Some(Wire::Join { id }),
            None => None,
        }
    } else if parts.len() == 2 && parts[0] == "HEARTBEAT"@ {
        match u32_of(parts[1]) {
            Some(sender) => Some(Wire::Heartbeat { sender }),
            None => None,
        }
    } else if parts.len() == 3 && parts[0] == "OK"@ {
        match (u32_of(parts[1]), u32_of(parts[2])) {
            (Some(req_id), Some(view_id)) => Some(Wire::Ack { req_id, view_id }),
            _ => None,
        }
    } else if parts.len() == 5 && parts[0] == "REQ"@ {
        match (u32_of(parts[1]), u32_of(parts[2]), operation_of(parts[3]), u32_of(parts[4])) {
            (Some(req_id), Some(view_id), Some(op), Some(target)) => Some(
                Wire::Req { req_id, view_id, op, target },
            ),
            _ => None,
        }
    } else {
        None
    }
}

/// The message that a received text writes, if it writes one.
///
/// A text that begins with `ALIVE` is the answer to a heartbeat. Any other
/// text is trimmed. After `NEWVIEW:` stands a view in its short form, the
/// view identifier, a colon and the identifiers of the members. The other
/// messages are fields separated by colons: a tag, then numbers in base ten
/// and, in a proposal, `ADD` or `DEL`.
pub open spec fn read_message(line: Seq<char>) -> Option<Wire> {
    if starts_with(line, "ALIVE"@) {
        Some(Wire::Alive)
    } else {
        match strip_prefix(trim(line), "NEWVIEW:"@) {
            Some(rest) => match parse_short(rest) {
                Ok(v) => Some(Wire::NewView { view_id: v.view_id, members: member_ids(v) }),
                Err(_) => None,
            },
            None => read_fields(split(trim(line), ':')),
        }
    }
}

/// Reads the operation that a word stands for.
fn read_operation(word: &Vec<char>) -> (r: Option<Operation>)
    ensures
        r == operation_of(word@),
{
    if same_text(word, &chars_of("ADD")) {
        Some(Operation::Add)
    } else if same_text(word, &chars_of("DEL")) {
        Some(Operation::Del)
    } else {
        None
    }
}

/// Reads the message that colon-separated fields write.
fn decode_fields(parts: &Vec<Vec<char>>) -> (r: Option<Message>)
    ensures
        match r {
            Some(m) => read_fields(rows(parts@)) == Some(m@),
            None => read_fields(rows(parts@)) is None,
        },
{
    let n = parts.len();
    assert(rows(parts@).len() == n);
    assert(forall|i: int| 0 <= i < n ==> rows(parts@)[i] == parts[i]@);
    if n == 2 && same_text(&parts[0], &chars_of("JOIN")) {
        match read_u32(&parts[1]) {
            Some(id) => Some(Message::Join { id }),
            None => None,
        }
    } else if n == 2 && same_text(&parts[0], &chars_of("HEARTBEAT")) {
        match read_u32(&parts[1]) {
            Some(sender) => Some(Message::Heartbeat { sender }),
            None => None,
        }
    } else if n == 3 && same_text(&parts[0], &chars_of("OK")) {
        match (read_u32(&parts[1]), read_u32(&parts[2])) {
            (Some(req_id), Some(view_id)) => Some(Message::Ack { req_id, view_id }),
            _ => None,
        }
    } else if n == 5 && same_text(&parts[0], &chars_of("REQ")) {
        match (
            read_u32(&parts[1]),
            read_u32(&parts[2]),
            read_operation(&parts[3]),
            read_u32(&parts[4]),
        ) {
            (Some(req_id), Some(view_id), Some(op), Some(target)) => Some(
                Message::Req { req_id, view_id, op, target },
            ),
            _ => None,
        }
    } else {
        None
    }
}

impl Message {
    /// The text of the message, without a line end.
    pub fn encode(&self) -> (r: String)
        ensures
            r@ == wire_text(self@),
    {
        match self {
            Message::Join { id } => {
                let mut out = String::from_str("JOIN:");
                append_decimal(&mut out, *id as u64);
                out
            },
            Message::Req { req_id, view_id, op, target } => {
                let mut out = String::from_str("REQ:");
                append_decimal(&mut out, *req_id as u64);
                out.push(':');
                append_decimal(&mut out, *view_id as u64);
                out.push(':');
                match op {
                    Operation::Add => out.append("ADD"),
                    Operation::Del => out.append("DEL"),
                }
                out.push(':');
                append_decimal(&mut out, *target as u64);
                out
            },
            Message::Ack { req_id, view_id } => {
                let mut out = String::from_str("OK:");
                append_decimal(&mut out, *req_id as u64);
                out.push(':');
                append_decimal(&mut out, *view_id as u64);
                out
            },
            Message::NewView { view_id, members } => {
                let mut out = String::from_str("NEWVIEW:");
                append_decimal(&mut out, *view_id as u64);
                out.push(':');
                append_id_list(&mut out, members);
                out
            },
            Message::Heartbeat { sender } => {
                let mut out = String::from_str("HEARTBEAT:");
                append_decimal(&mut out, *sender as u64);
                out
            },
            Message::Alive => String::from_str("ALIVE"),
        }
    }

    /// The text of the message as one line of a stream: with a line feed at
    /// its end.
    pub fn encode_line(&self) -> (r: String)
        ensures
            r@ == wire_text(self@).push('\n'),
    {
        let mut out = self.encode();
        out.push('\n');
        out
    }

    /// Reads a received text as a message. A text that writes none gives
    /// `None`.
    pub fn decode(line: &str) -> (r: Option<Message>)
        ensures
            match r {
                Some(m) => read_message(line@) == Some(m@),
                None => read_message(line@) is None,
            },
    {
        let raw = chars_of(line);
        if has_prefix(&raw, &chars_of("ALIVE")) {
            return Some(Message::Alive);
        }
        let t = trimmed(&raw);
        match without_prefix(&t, "NEWVIEW:") {
            Some(rest) => match read_short(&rest) {
                Ok(st) => {
                    let members = st.member_ids();
                    assert(members@ == member_ids(st@));
                    Some(Message::NewView { view_id: st.view_id, members })
                },
                Err(_) => None,
            },
            None => decode_fields(&split_on(&t, ':')),
        }
    }
}

/// A line whose text begins with a letter other than `A` and `N`, and ends
/// with no white space, is read by its colon-separated fields, with or
/// without a line feed behind it.
proof fn lemma_read_by_fields(text: Seq<char>)
    requires
        text.len() > 0,
        text[0] == 'J' || text[0] == 'R' || text[0] == 'O' || text[0] == 'H',
        is_digit(text.last()),
    ensures
        read_message(text) == read_fields(split(text, ':')),
        read_message(text.push('\n')) == read_fields(split(text, ':')),
{
    reveal_strlit("ALIVE");
    reveal_strlit("NEWVIEW:");
    lemma_trim_bare(text);
    let line = text.push('\n');
    assert(line[0] == text[0]);
    if starts_with(text, "ALIVE"@) {
        assert(text.take(5)[0] == text[0]);
    }
    if starts_with(line, "ALIVE"@) {
        assert(line.take(5)[0] == line[0]);
    }
    if starts_with(text, "NEWVIEW:"@) {
        assert(text.take(8)[0] == text[0]);
    }
}

/// The fields of a tag, a colon and a number.
proof fn lemma_fields_one(tag: Seq<char>, a: nat)
    requires
        !tag.contains(':'),
    ensures
        split(tag + seq![':'] + decimal(a), ':') == seq![tag, decimal(a)],
        is_digit((tag + seq![':'] + decimal(a)).last()),
{
    lemma_decimal(a);
    lemma_digits_exclude(decimal(a), ':');
    lemma_split_head(tag, decimal(a), ':');
    lemma_split_single(decimal(a), ':');
    assert(seq![tag] + seq![decimal(a)] == seq![tag, decimal(a)]);
    assert((tag + seq![':'] + decimal(a)).last() == decimal(a).last());
}

/// The fields of a tag and two numbers, with colons between them.
proof fn lemma_fields_two(tag: Seq<char>, a: nat, b: nat)
    requires
        !tag.contains(':'),
    ensures
        split(tag + seq![':'] + decimal(a) + seq![':'] + decimal(b), ':') == seq![
            tag,
            decimal(a),
            decimal(b),
        ],
        is_digit((tag + seq![':'] + decimal(a) + seq![':'] + decimal(b)).last()),
{
    let rest = decimal(a) + seq![':'] + decimal(b);
    let whole = tag + seq![':'] + decimal(a) + seq![':'] + decimal(b);
    lemma_decimal(a);
    lemma_decimal(b);
    lemma_digits_exclude(decimal(a), ':');
    lemma_fields_one(decimal(a), b);
    assert(whole == tag + seq![':'] + rest);
    lemma_split_head(tag, rest, ':');
    assert(seq![tag] + seq![decimal(a), decimal(b)] == seq![tag, decimal(a), decimal(b)]);
    assert(whole.last() == decimal(b).last());
}

/// Joining to the right what was joined to the left.
proof fn lemma_regroup(p: Seq<char>, a: Seq<char>, b: Seq<char>, c: Seq<char>)
    ensures
        p + a + b + c == p + (a + b + c),
{
    assert(p + a + b + c =~= p + (a + b + c));
}

/// The fields of a proposal.
proof fn lemma_fields_proposal(tag: Seq<char>, a: nat, b: nat, word: Seq<char>, c: nat)
    requires
        !tag.contains(':'),
        !word.contains(':'),
    ensures
        split(
            tag + seq![':'] + decimal(a) + seq![':'] + decimal(b) + seq![':'] + word + seq![':']
                + decimal(c),
            ':',
        ) == seq![tag, decimal(a), decimal(b), word, decimal(c)],
        is_digit(
            (tag + seq![':'] + decimal(a) + seq![':'] + decimal(b) + seq![':'] + word + seq![':']
                + decimal(c)).last(),
        ),
{
    let colon = seq![':'];
    let r3 = word + colon + decimal(c);
    let r2 = decimal(b) + colon + r3;
    let r1 = decimal(a) + colon + r2;
    let whole = tag + colon + decimal(a) + colon + decimal(b) + colon + word + colon + decimal(c);
    assert(whole == tag + colon + r1) by {
        lemma_regroup(tag + colon + decimal(a) + colon + decimal(b) + colon, word, colon, decimal(c));
        lemma_regroup(tag + colon + decimal(a) + colon, decimal(b), colon, r3);
        lemma_regroup(tag + colon, decimal(a), colon, r2);
    }
    lemma_decimal(c);
    assert(split(r3, ':') == seq![word, decimal(c)] && is_digit(r3.last())) by {
        lemma_fields_one(word, c);
    }
    assert(split(r2, ':') == seq![decimal(b), word, decimal(c)]) by {
        lemma_decimal(b);
        lemma_digits_exclude(decimal(b), ':');
        lemma_split_head(decimal(b), r3, ':');
        assert(seq![decimal(b)] + seq![word, decimal(c)] =~= seq![decimal(b), word, decimal(c)]);
    }
    assert(split(r1, ':') == seq![decimal(a), decimal(b), word, decimal(c)]) by {
        lemma_decimal(a);
        lemma_digits_exclude(decimal(a), ':');
        lemma_split_head(decimal(a), r2, ':');
        assert(seq![decimal(a)] + seq![decimal(b), word, decimal(c)] =~= seq![
            decimal(a),
            decimal(b),
            word,
            decimal(c),
        ]);
    }
    assert(split(whole, ':') == seq![tag, decimal(a), decimal(b), word, decimal(c)]) by {
        lemma_split_head(tag, r1, ':');
        assert(seq![tag] + seq![decimal(a), decimal(b), word, decimal(c)] =~= seq![
            tag,
            decimal(a),
            decimal(b),
            word,
            decimal(c),
        ]);
    }
    assert(whole.last() == decimal(c).last());
}

/// An announced view is read back as it was written, with or without a line
/// feed behind it: as a message, and as the view that stands behind
/// `NEWVIEW:` in the trimmed line.
pub proof fn lemma_new_view_round_trip(view_id: u32, members: Seq<u32>)
    ensures
        read_message(wire_text(Wire::NewView { view_id, members })) == Some(
            Wire::NewView { view_id, members },
        ),
        read_message(wire_text(Wire::NewView { view_id, members }).push('\n')) == Some(
            Wire::NewView { view_id, members },
        ),
        strip_prefix(
            trim(wire_text(Wire::NewView { view_id, members }).push('\n')),
            "NEWVIEW:"@,
        ) == Some(decimal(view_id as nat) + seq![':'] + id_list(members)),
        parse_view(decimal(view_id as nat) + seq![':'] + id_list(members)) == Ok::<
            ViewModel,
            ViewParseError,
        >(ViewModel { view_id, members: unnamed(members), req_counter: 0 }),
{
    reveal_strlit("ALIVE");
    reveal_strlit("NEWVIEW:");
    let rest = decimal(view_id as nat) + seq![':'] + id_list(members);
    let text = wire_text(Wire::NewView { view_id, members });
    let line = text.push('\n');
    assert(text == "NEWVIEW:"@ + rest);
    lemma_decimal(view_id as nat);
    lemma_id_list_shape(members);
    assert(text[0] == 'N');
    assert(line[0] == 'N');
    assert(text.last() == rest.last());
    if members.len() > 0 {
        assert(rest.last() == id_list(members).last());
    } else {
        assert(rest.last() == ':');
    }
    lemma_trim_bare(text);
    if starts_with(text, "ALIVE"@) {
        assert(text.take(5)[0] == text[0]);
    }
    if starts_with(line, "ALIVE"@) {
        assert(line.take(5)[0] == line[0]);
    }
    assert(text.take(8) == "NEWVIEW:"@);
    assert(text.skip(8) == rest);
    lemma_short_form_round_trip(view_id, members);
    let v = ViewModel { view_id, members: unnamed(members), req_counter: 0 };
    assert(member_ids(v) == members);
}

/// The text of a message neither begins nor ends with white space: it is
/// its own trimmed form, and stays so with a line feed behind it.
pub proof fn lemma_wire_text_trim(m: Wire)
    ensures
        trim(wire_text(m)) == wire_text(m),
        trim(wire_text(m).push('\n')) == wire_text(m),
{
    reveal_strlit("ALIVE");
    reveal_strlit("JOIN:");
    reveal_strlit("HEARTBEAT:");
    reveal_strlit("OK:");
    reveal_strlit("REQ:");
    reveal_strlit("NEWVIEW:");
    let text = wire_text(m);
    match m {
        Wire::Alive => {},
        Wire::Join { id } => {
            lemma_decimal(id as nat);
            assert(text[0] == 'J');
            assert(text.last() == decimal(id as nat).last());
        },
        Wire::Heartbeat { sender } => {
            lemma_decimal(sender as nat);
            assert(text[0] == 'H');
            assert(text.last() == decimal(sender as nat).last());
        },
        Wire::Ack { req_id, view_id } => {
            lemma_decimal(view_id as nat);
            assert(text[0] == 'O');
            assert(text.last() == decimal(view_id as nat).last());
        },
        Wire::Req { req_id, view_id, op, target } => {
            lemma_decimal(target as nat);
            assert(text[0] == 'R');
            assert(text.last() == decimal(target as nat).last());
        },
        Wire::NewView { view_id, members } => {
            lemma_id_list_shape(members);
            assert(text[0] == 'N');
            if members.len() > 0 {
                assert(text.last() == id_list(members).last());
            } else {
                assert(text.last() == ':');
            }
        },
    }
    lemma_trim_bare(text);
}

/// Every message is read back as it was written, with or without a line
/// feed behind it.
pub proof fn lemma_round_trip(m: Wire)
    ensures
        read_message(wire_text(m)) == Some(m),
        read_message(wire_text(m).push('\n')) == Some(m),
{
    reveal_strlit("ALIVE");
    reveal_strlit("JOIN:");
    reveal_strlit("JOIN");
    reveal_strlit("HEARTBEAT:");
    reveal_strlit("HEARTBEAT");
    reveal_strlit("OK:");
    reveal_strlit("OK");
    reveal_strlit("REQ:");
    reveal_strlit("REQ");
    reveal_strlit("ADD");
    reveal_strlit("DEL");
    match m {
        Wire::Alive => {
            let text = "ALIVE"@;
            assert(text.push('\n').take(5) == text);
            assert(text.take(5) == text);
        },
        Wire::Join { id } => {
            let text = wire_text(m);
            assert("JOIN:"@ == "JOIN"@ + seq![':']);
            assert(text == "JOIN"@ + seq![':'] + decimal(id as nat));
            lemma_fields_one("JOIN"@, id as nat);
            lemma_read_by_fields(text);
            lemma_decimal_round_trip(id as nat, u32::MAX as nat);
        },
        Wire::Heartbeat { sender } => {
            let text = wire_text(m);
            assert("HEARTBEAT:"@ == "HEARTBEAT"@ + seq![':']);
            assert(text == "HEARTBEAT"@ + seq![':'] + decimal(sender as nat));
            lemma_fields_one("HEARTBEAT"@, sender as nat);
            lemma_read_by_fields(text);
            lemma_decimal_round_trip(sender as nat, u32::MAX as nat);
            assert("HEARTBEAT"@ != "JOIN"@);
        },
        Wire::Ack { req_id, view_id } => {
            let text = wire_text(m);
            assert("OK:"@ == "OK"@ + seq![':']);
            assert(text == "OK"@ + seq![':'] + decimal(req_id as nat) + seq![':'] + decimal(
                view_id as nat,
            ));
            lemma_fields_two("OK"@, req_id as nat, view_id as nat);
            lemma_read_by_fields(text);
            lemma_decimal_round_trip(req_id as nat, u32::MAX as nat);
            lemma_decimal_round_trip(view_id as nat, u32::MAX as nat);
        },
        Wire::Req { req_id, view_id, op, target } => {
            let text = wire_text(m);
            let word = operation_word(op);
            assert("REQ:"@ == "REQ"@ + seq![':']);
            assert(text == "REQ"@ + seq![':'] + decimal(req_id as nat) + seq![':'] + decimal(
                view_id as nat,
            ) + seq![':'] + word + seq![':'] + decimal(target as nat));
            assert("ADD"@ != "DEL"@) by {
                assert("ADD"@[0] != "DEL"@[0]);
            }
            assert(operation_of(word) == Some(op));
            lemma_fields_proposal("REQ"@, req_id as nat, view_id as nat, word, target as nat);
            lemma_read_by_fields(text);
            lemma_decimal_round_trip(req_id as nat, u32::MAX as nat);
            lemma_decimal_round_trip(view_id as nat, u32::MAX as nat);
            lemma_decimal_round_trip(target as nat, u32::MAX as nat);
        },
        Wire::NewView { view_id, members } => {
            lemma_new_view_round_trip(view_id, members);
        },
    }
}

} // verus!
