//! An object store spread over the nodes of a ring: the lines of the store
//! file, the requests of clients, and the rule by which a node answers a
//! request itself or hands it on.

use crate::text::{
    append_decimal, chars_of, decimal, first_index, find_char, read_u64, rows, same_text, slice_of,
    split, split_on, strip_prefix, text_of, trim, trimmed, u64_of, without_prefix,
};
use vstd::prelude::*;

verus! {

/// One stored object: who stored it, and its identifier.
#[derive(Clone, Copy, Debug, PartialEq, Eq, Structural)]
pub struct Object {
    pub client_id: u64,
    pub object_id: u64,
}

/// What a client asks for.
#[derive(Debug, PartialEq, Eq)]
pub struct Request {
    /// The operation as written, `STORE` or `RETRIEVE` where it is known.
    pub op: String,
    pub object_id: u64,
    pub client_id: u64,
}

impl View for Request {
    type V = (Seq<char>, u64, u64);

    open spec fn view(&self) -> (Seq<char>, u64, u64) {
        (self.op@, self.object_id, self.client_id)
    }
}

/// What a node does with a request.
#[derive(Debug, PartialEq, Eq)]
pub enum Handling {
    /// The object is to be stored here, and `reply` sent once it is.
    Store { object: Object, reply: String },
    /// `reply` is the answer.
    Answer { reply: String },
    /// The request belongs to a node further along the ring: it is to be
    /// handed to `successor`.
    Forward { successor: String },
}

/// What a `Handling` holds, as plain values.
pub enum Decision {
    Store { object: Object, reply: Seq<char> },
    Answer { reply: Seq<char> },
    Forward { successor: Seq<char> },
}

impl View for Handling {
    type V = Decision;

    open spec fn view(&self) -> Decision {
        match *self {
            Handling::Store { object, reply } => Decision::Store { object, reply: reply@ },
            Handling::Answer { reply } => Decision::Answer { reply: reply@ },
            Handling::Forward { successor } => Decision::Forward { successor: successor@ },
        }
    }
}

/// The object that a line of the store file names: the trimmed line is two
/// numbers with `::` between them.
pub open spec fn object_named(line: Seq<char>) -> Option<Object> {
    let t = trim(line);
    let i = first_index(t, ':') as int;
    if i + 1 < t.len() && t[i + 1] == ':' {
        match (u64_of(t.take(i)), u64_of(t.skip(i + 2))) {
            (Some(client_id), Some(object_id)) => Some(Object { client_id, object_id }),
            _ => None,
        }
    } else {
        None
    }
}

/// The number that a field writes, and 0 where it writes none.
pub open spec fn number_or_zero(s: Seq<char>) -> u64 {
    match u64_of(s) {
        Some(n) => n,
        None => 0,
    }
}

/// The request after one more `key=value` part has been read. A part that
/// is not one key and one value changes nothing, and neither does an
/// unknown key; key and value are trimmed.
pub open spec fn with_part(r: (Seq<char>, u64, u64), part: Seq<char>) -> (Seq<char>, u64, u64) {
    let kv = split(part, '=');
    if kv.len() != 2 {
        r
    } else if trim(kv[0]) == "op"@ {
        (trim(kv[1]), r.1, r.2)
    } else if trim(kv[0]) == "objectID"@ {
        (r.0, number_or_zero(trim(kv[1])), r.2)
    } else if trim(kv[0]) == "clientID"@ {
        (r.0, r.1, number_or_zero(trim(kv[1])))
    } else {
        r
    }
}

/// The request that comma-separated parts write: later parts override
/// earlier ones; what no part gives is empty or 0.
pub open spec fn request_of(parts: Seq<Seq<char>>) -> (Seq<char>, u64, u64)
    decreases parts.len(),
{
    if parts.len() == 0 {
        (Seq::empty(), 0, 0)
    } else {
        with_part(request_of(parts.drop_last()), parts.last())
    }
}

/// The request that a line `REQUEST: key=value, ...` writes. A line that,
/// trimmed, does not begin with `REQUEST:` writes the empty request.
pub open spec fn request_named(line: Seq<char>) -> (Seq<char>, u64, u64) {
    match strip_prefix(trim(line), "REQUEST:"@) {
        Some(content) => request_of(split(content, ',')),
        None => request_of(split(Seq::empty(), ',')),
    }
}

/// The answer about one object: `<head>: objectID=<o>, clientID=<c>,
/// peerID=n<p>` and a line feed.
pub open spec fn object_answer(head: Seq<char>, object_id: u64, client_id: u64, peer: u64) -> Seq<
    char,
> {
    head + ": objectID="@ + decimal(object_id as nat) + ", clientID="@ + decimal(client_id as nat)
        + ", peerID=n"@ + decimal(peer as nat) + seq!['\n']
}

/// Tells whether `objects` holds the object `wanted`.
pub open spec fn is_stored(objects: Seq<Object>, wanted: Object) -> bool {
    objects.contains(wanted)
}

/// The answer of a node that is to hand a request on and cannot reach its
/// successor: `ERROR: Failed to connect to successor <name> after <n>
/// attempts` and a line feed.
pub open spec fn unreachable_answer(successor: Seq<char>, attempts: u32) -> Seq<char> {
    "ERROR: Failed to connect to successor "@ + successor + " after "@ + decimal(attempts as nat)
        + " attempts\n"@
}

/// What the node `my_id`, which holds `objects` and has the successor
/// `successor`, if any, does with the request `r`. A request for an object
/// whose identifier is above the node's own goes on to the successor, and
/// is an error where there is none; nothing is stored here. Any other is
/// answered here: a `STORE` stores, a `RETRIEVE` tells whether the object
/// is held, any other operation is an error.
pub open spec fn handling_of(
    r: (Seq<char>, u64, u64),
    my_id: u64,
    objects: Seq<Object>,
    successor: Option<Seq<char>>,
) -> Decision {
    let object = Object { client_id: r.2, object_id: r.1 };
    if r.1 > my_id {
        match successor {
            Some(name) => Decision::Forward { successor: name },
            None => Decision::Answer { reply: "ERROR: No successor to forward request\n"@ },
        }
    } else if r.0 == "STORE"@ {
        Decision::Store { object, reply: object_answer("OBJ STORED"@, r.1, r.2, my_id) }
    } else if r.0 == "RETRIEVE"@ {
        if is_stored(objects, object) {
            Decision::Answer { reply: object_answer("OBJ RETRIEVED"@, r.1, r.2, my_id) }
        } else {
            Decision::Answer { reply: object_answer("OBJ NOT FOUND"@, r.1, r.2, my_id) }
        }
    } else {
        Decision::Answer { reply: "ERROR: Unknown operation\n"@ }
    }
}

/// What an optional name holds.
pub open spec fn name_in(s: Option<&str>) -> Option<Seq<char>> {
    match s {
        Some(t) => Some(t@),
        None => None,
    }
}

/// Reads one line of the store file.
pub fn parse_object_line(line: &str) -> (r: Option<Object>)
    ensures
        r == object_named(line@),
{
    let t = trimmed(&chars_of(line));
    assert(t@.skip(0) == t@);
    let i = find_char(&t, 0, ':');
    if i < t.len() && i + 1 < t.len() && t[i + 1] == ':' {
        let first = slice_of(&t, 0, i);
        let second = slice_of(&t, i + 2, t.len());
        assert(first@ == t@.take(i as int));
        assert(second@ == t@.skip(i + 2));
        match (read_u64(&first), read_u64(&second)) {
            (Some(client_id), Some(object_id)) => Some(Object { client_id, object_id }),
            _ => None,
        }
    } else {
        None
    }
}

/// A number read from a field, and 0 where the field writes none.
fn read_or_zero(s: &Vec<char>) -> (r: u64)
    ensures
        r == number_or_zero(s@),
{
    match read_u64(s) {
        Some(n) => n,
        None => 0,
    }
}

/// Reads the request that a line writes.
pub fn parse_request(line: &str) -> (r: Request)
    ensures
        r@ == request_named(line@),
{
    let t = trimmed(&chars_of(line));
    let content = match without_prefix(&t, "REQUEST:") {
        Some(c) => c,
        None => Vec::new(),
    };
    let parts = split_on(&content, ',');
    let mut op: Vec<char> = Vec::new();
    let mut object_id: u64 = 0;
    let mut client_id: u64 = 0;
    let mut i: usize = 0;
    assert(rows(parts@).take(0).len() == 0);
    while i < parts.len()
        invariant
            i <= parts.len(),
            (op@, object_id, client_id) == request_of(rows(parts@).take(i as int)),
        decreases parts.len() - i,
    {
        proof {
            let next = rows(parts@).take(i + 1);
            assert(next.drop_last() == rows(parts@).take(i as int));
            assert(next.last() == parts[i as int]@);
        }
        let kv = split_on(&parts[i], '=');
        assert(rows(kv@).len() == kv.len());
        if kv.len() == 2 {
            assert(rows(kv@)[0] == kv[0]@);
            assert(rows(kv@)[1] == kv[1]@);
            let key = trimmed(&kv[0]);
            let value = trimmed(&kv[1]);
            if same_text(&key, &chars_of("op")) {
                op = value;
            } else if same_text(&key, &chars_of("objectID")) {
                object_id = read_or_zero(&value);
            } else if same_text(&key, &chars_of("clientID")) {
                client_id = read_or_zero(&value);
            }
        }
        i += 1;
    }
    assert(rows(parts@).take(parts.len() as int) == rows(parts@));
    Request { op: text_of(&op), object_id, client_id }
}

/// Tells whether `objects` holds `wanted`.
pub fn holds_object(objects: &Vec<Object>, wanted: Object) -> (r: bool)
    ensures
        r == is_stored(objects@, wanted),
{
    let mut i: usize = 0;
    while i < objects.len()
        invariant
            i <= objects.len(),
            forall|j: int| 0 <= j < i ==> objects@[j] != wanted,
        decreases objects.len() - i,
    {
        if objects[i].client_id == wanted.client_id && objects[i].object_id == wanted.object_id {
            assert(objects@[i as int] == wanted);
            return true;
        }
        i += 1;
    }
    false
}

/// Writes the answer about one object.
fn answer_line(head: &str, object_id: u64, client_id: u64, peer: u64) -> (r: String)
    ensures
        r@ == object_answer(head@, object_id, client_id, peer),
{
    let mut out = String::from_str(head);
    out.append(": objectID=");
    append_decimal(&mut out, object_id);
    out.append(", clientID=");
    append_decimal(&mut out, client_id);
    out.append(", peerID=n");
    append_decimal(&mut out, peer);
    out.push('\n');
    assert(seq!['\n'] == Seq::<char>::empty().push('\n'));
    assert(out@ == object_answer(head@, object_id, client_id, peer));
    out
}

/// Decides what the node `my_id`, which holds `objects` and has the
/// successor `successor`, if any, does with a request.
pub fn handle_request(
    request: &str,
    my_id: u64,
    objects: &Vec<Object>,
    successor: Option<&str>,
) -> (r: Handling)
    ensures
        r@ == handling_of(request_named(request@), my_id, objects@, name_in(successor)),
{
    let req = parse_request(request);
    let object = Object { client_id: req.client_id, object_id: req.object_id };
    if req.object_id > my_id {
        match successor {
            Some(name) => Handling::Forward { successor: String::from_str(name) },
            None => Handling::Answer {
                reply: String::from_str("ERROR: No successor to forward request\n"),
            },
        }
    } else if req.op == String::from_str("STORE") {
        Handling::Store {
            object,
            reply: answer_line("OBJ STORED", req.object_id, req.client_id, my_id),
        }
    } else if req.op == String::from_str("RETRIEVE") {
        if holds_object(objects, object) {
            Handling::Answer {
                reply: answer_line("OBJ RETRIEVED", req.object_id, req.client_id, my_id),
            }
        } else {
            Handling::Answer {
                reply: answer_line("OBJ NOT FOUND", req.object_id, req.client_id, my_id),
            }
        }
    } else {
        Handling::Answer { reply: String::from_str("ERROR: Unknown operation\n") }
    }
}

/// Writes the answer of a node that could not reach its successor in
/// `attempts` attempts.
pub fn unreachable_line(successor: &str, attempts: u32) -> (r: String)
    ensures
        r@ == unreachable_answer(successor@, attempts),
{
    let mut out = String::from_str("ERROR: Failed to connect to successor ");
    out.append(successor);
    out.append(" after ");
    append_decimal(&mut out, attempts as u64);
    out.append(" attempts\n");
    out
}

/// The line by which a client asks: `REQUEST: reqID=<r>, op=<op>,
/// objectID=<o>, clientID=<c>` and a line feed.
pub open spec fn request_text(req_id: u64, op: Seq<char>, object_id: u64, client_id: u64) -> Seq<
    char,
> {
    "REQUEST: reqID="@ + decimal(req_id as nat) + ", op="@ + op + ", objectID="@ + decimal(
        object_id as nat,
    ) + ", clientID="@ + decimal(client_id as nat) + seq!['\n']
}

/// Writes the line by which a client asks.
pub fn request_line(req_id: u64, op: &str, object_id: u64, client_id: u64) -> (r: String)
    ensures
        r@ == request_text(req_id, op@, object_id, client_id),
{
    let mut out = String::from_str("REQUEST: reqID=");
    append_decimal(&mut out, req_id);
    out.append(", op=");
    out.append(op);
    out.append(", objectID=");
    append_decimal(&mut out, object_id);
    out.append(", clientID=");
    append_decimal(&mut out, client_id);
    out.push('\n');
    assert(out@ == request_text(req_id, op@, object_id, client_id));
    out
}

} // verus!
