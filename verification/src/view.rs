//! The membership view and its two written forms.

use crate::identity::{identities, ids, UserInfo};
use crate::text::{
    append_decimal, chars_of, cut, cut_at, decimal, has_char, has_prefix, is_digit,
    lemma_decimal, lemma_decimal_round_trip, lemma_digits_exclude, lemma_split_head,
    lemma_split_single, lemma_split_tail, lemma_trim_bare, read_u32, rows, slice_of, split,
    split_on, starts_with, text_of, trim, trimmed, u32_of,
};
use vstd::prelude::*;

verus! {

/// The agreed membership at one point in logical time. `req_counter` numbers
/// the update rounds of the process that leads; elsewhere it stays 0.
#[derive(Debug, PartialEq, Eq)]
pub struct PeerState {
    pub view_id: u32,
    pub membership: Vec<UserInfo>,
    pub req_counter: u32,
}

/// What a `PeerState` holds, as plain values.
pub struct ViewModel {
    pub view_id: u32,
    pub members: Seq<(Seq<char>, u32)>,
    pub req_counter: u32,
}

impl View for PeerState {
    type V = ViewModel;

    open spec fn view(&self) -> ViewModel {
        ViewModel {
            view_id: self.view_id,
            members: identities(self.membership@),
            req_counter: self.req_counter,
        }
    }
}

/// Why a text is not a written view.
#[derive(Clone, Copy, Debug, PartialEq, Eq, Structural)]
pub enum ViewParseError {
    /// The long form does not have exactly two parts around `;`.
    ExpectedPair,
    /// The first part of the long form does not begin with `view_id=`.
    MissingViewId,
    /// The view identifier is not a number.
    BadViewId,
    /// The second part of the long form does not begin with `membership=`.
    MissingMembership,
    /// An entry of the long form is not `name:id`.
    BadMember,
    /// The identifier of an entry of the long form is not a number.
    BadMemberId,
    /// The short form has no `:`.
    ExpectedList,
    /// An entry of the short form is not a number.
    BadListedId,
}

/// The name given to a member whose written form carries only its
/// identifier.
pub open spec fn placeholder_name() -> Seq<char> {
    "unknown"@
}

/// Identifiers in base ten, separated by commas.
pub open spec fn id_list(all: Seq<u32>) -> Seq<char>
    decreases all.len(),
{
    if all.len() == 0 {
        Seq::empty()
    } else if all.len() == 1 {
        decimal(all[0] as nat)
    } else {
        id_list(all.drop_last()) + seq![','] + decimal(all.last() as nat)
    }
}

/// One member of the long form: `name:id`.
pub open spec fn entry(m: (Seq<char>, u32)) -> Seq<char> {
    m.0 + seq![':'] + decimal(m.1 as nat)
}

/// Members of the long form, separated by commas.
pub open spec fn entry_list(members: Seq<(Seq<char>, u32)>) -> Seq<char>
    decreases members.len(),
{
    if members.len() == 0 {
        Seq::empty()
    } else if members.len() == 1 {
        entry(members[0])
    } else {
        entry_list(members.drop_last()) + seq![','] + entry(members.last())
    }
}

/// The long form of a view: `view_id=<n>;membership=<name>:<id>,...`. The
/// round counter is not part of it.
pub open spec fn long_form(v: ViewModel) -> Seq<char> {
    "view_id="@ + decimal(v.view_id as nat) + ";membership="@ + entry_list(v.members)
}

/// The members that the fields of a short form list. Each field is trimmed;
/// an empty one is passed over; any other must be a number.
pub open spec fn listed_members(fields: Seq<Seq<char>>) -> Option<Seq<(Seq<char>, u32)>>
    decreases fields.len(),
{
    if fields.len() == 0 {
        Some(Seq::empty())
    } else {
        match listed_members(fields.drop_last()) {
            None => None,
            Some(ms) => {
                let e = trim(fields.last());
                if e.len() == 0 {
                    Some(ms)
                } else {
                    match u32_of(e) {
                        Some(id) => Some(ms.push((placeholder_name(), id))),
                        None => None,
                    }
                }
            },
        }
    }
}

/// The member that an entry `name:id` of the long form names.
pub open spec fn named_member(e: Seq<char>) -> Result<(Seq<char>, u32), ViewParseError> {
    let info = split(e, ':');
    if info.len() != 2 {
        Err(ViewParseError::BadMember)
    } else {
        match u32_of(trim(info[1])) {
            Some(id) => Ok((info[0], id)),
            None => Err(ViewParseError::BadMemberId),
        }
    }
}

/// The members that the fields of a long form name, or what is wrong with
/// the first field that names none. Each field is trimmed; an empty one is
/// passed over.
pub open spec fn named_members(fields: Seq<Seq<char>>) -> Result<
    Seq<(Seq<char>, u32)>,
    ViewParseError,
>
    decreases fields.len(),
{
    if fields.len() == 0 {
        Ok(Seq::empty())
    } else {
        match named_members(fields.drop_last()) {
            Err(e) => Err(e),
            Ok(ms) => {
                let e = trim(fields.last());
                if e.len() == 0 {
                    Ok(ms)
                } else {
                    match named_member(e) {
                        Ok(m) => Ok(ms.push(m)),
                        Err(e) => Err(e),
                    }
                }
            },
        }
    }
}

/// The view that a short form `<view_id>:<id>,<id>,...` writes.
pub open spec fn parse_short(s: Seq<char>) -> Result<ViewModel, ViewParseError> {
    match cut(s, ':') {
        None => Err(ViewParseError::ExpectedList),
        Some((head, rest)) => match u32_of(trim(head)) {
            None => Err(ViewParseError::BadViewId),
            Some(view_id) => match listed_members(split(trim(rest), ',')) {
                None => Err(ViewParseError::BadListedId),
                Some(members) => Ok(ViewModel { view_id, members, req_counter: 0 }),
            },
        },
    }
}

/// The view that a long form `view_id=<n>;membership=<name>:<id>,...`
/// writes.
pub open spec fn parse_long(s: Seq<char>) -> Result<ViewModel, ViewParseError> {
    let parts = split(s, ';');
    if parts.len() != 2 {
        Err(ViewParseError::ExpectedPair)
    } else if !starts_with(trim(parts[0]), "view_id="@) {
        Err(ViewParseError::MissingViewId)
    } else {
        match u32_of(trim(trim(parts[0]).skip("view_id="@.len() as int))) {
            None => Err(ViewParseError::BadViewId),
            Some(view_id) => if !starts_with(trim(parts[1]), "membership="@) {
                Err(ViewParseError::MissingMembership)
            } else {
                match named_members(
                    split(trim(parts[1]).skip("membership="@.len() as int), ','),
                ) {
                    Err(e) => Err(e),
                    Ok(members) => Ok(ViewModel { view_id, members, req_counter: 0 }),
                }
            },
        }
    }
}

/// The view that a text writes. A text that holds both `=` and `;` is read
/// as a long form, any other as a short form.
pub open spec fn parse_view(s: Seq<char>) -> Result<ViewModel, ViewParseError> {
    if s.contains('=') && s.contains(';') {
        parse_long(s)
    } else {
        parse_short(s)
    }
}

/// Appends identifiers in base ten, separated by commas.
pub fn append_id_list(out: &mut String, all: &Vec<u32>)
    ensures
        final(out)@ == old(out)@ + id_list(all@),
{
    let mut i: usize = 0;
    assert(old(out)@ + id_list(all@.take(0)) == old(out)@);
    while i < all.len()
        invariant
            i <= all.len(),
            out@ == old(out)@ + id_list(all@.take(i as int)),
        decreases all.len() - i,
    {
        let ghost before = out@;
        if i > 0 {
            out.push(',');
        }
        append_decimal(out, all[i] as u64);
        proof {
            let next = all@.take(i + 1);
            assert(next.drop_last() == all@.take(i as int));
            if i > 0 {
                assert(before.push(',') + decimal(all[i as int] as nat) == old(out)@ + (id_list(
                    all@.take(i as int),
                ) + seq![','] + decimal(all[i as int] as nat)));
            } else {
                assert(id_list(all@.take(0)).len() == 0);
                assert(before + decimal(all[0] as nat) == old(out)@ + decimal(all[0] as nat));
            }
        }
        i += 1;
    }
    assert(all@.take(all.len() as int) == all@);
}

/// Reads the members that the fields of a short form list.
fn read_listed(fields: &Vec<Vec<char>>) -> (r: Option<Vec<UserInfo>>)
    ensures
        match r {
            Some(ms) => listed_members(rows(fields@)) == Some(identities(ms@)),
            None => listed_members(rows(fields@)) is None,
        },
{
    let mut out: Vec<UserInfo> = Vec::new();
    let mut i: usize = 0;
    assert(rows(fields@).take(0).len() == 0);
    assert(identities(out@) == Seq::<(Seq<char>, u32)>::empty());
    while i < fields.len()
        invariant
            i <= fields.len(),
            listed_members(rows(fields@).take(i as int)) == Some(identities(out@)),
        decreases fields.len() - i,
    {
        let ghost next = rows(fields@).take(i + 1);
        assert(next.drop_last() == rows(fields@).take(i as int));
        assert(next.last() == fields[i as int]@);
        let e = trimmed(&fields[i]);
        if e.len() > 0 {
            match read_u32(&e) {
                Some(id) => {
                    let ghost before = identities(out@);
                    out.push(UserInfo { name: String::from_str("unknown"), id });
                    assert(identities(out@) == before.push((placeholder_name(), id)));
                },
                None => {
                    proof {
                        lemma_listed_prefix(rows(fields@), i + 1);
                    }
                    return None;
                },
            }
        }
        i += 1;
    }
    assert(rows(fields@).take(fields.len() as int) == rows(fields@));
    Some(out)
}

/// Once a prefix of the fields lists no members, no longer run of them does.
proof fn lemma_listed_prefix(fields: Seq<Seq<char>>, k: int)
    requires
        0 <= k <= fields.len(),
        listed_members(fields.take(k)) is None,
    ensures
        listed_members(fields) is None,
    decreases fields.len() - k,
{
    if k < fields.len() {
        assert(fields.take(k + 1).drop_last() == fields.take(k));
        lemma_listed_prefix(fields, k + 1);
    } else {
        assert(fields.take(k) == fields);
    }
}

/// Once a prefix of the fields fails to name members, every longer run of
/// them fails in the same way.
proof fn lemma_named_prefix(fields: Seq<Seq<char>>, k: int)
    requires
        0 <= k <= fields.len(),
        named_members(fields.take(k)) is Err,
    ensures
        named_members(fields) == named_members(fields.take(k)),
    decreases fields.len() - k,
{
    if k < fields.len() {
        assert(fields.take(k + 1).drop_last() == fields.take(k));
        lemma_named_prefix(fields, k + 1);
    } else {
        assert(fields.take(k) == fields);
    }
}

/// Reads the member that an entry `name:id` names.
fn read_named_member(e: &Vec<char>) -> (r: Result<UserInfo, ViewParseError>)
    ensures
        match r {
            Ok(u) => named_member(e@) == Ok::<(Seq<char>, u32), ViewParseError>(u@),
            Err(err) => named_member(e@) == Err::<(Seq<char>, u32), ViewParseError>(err),
        },
{
    let info = split_on(e, ':');
    assert(rows(info@).len() == info.len());
    if info.len() != 2 {
        return Err(ViewParseError::BadMember);
    }
    assert(rows(info@)[0] == info[0]@);
    assert(rows(info@)[1] == info[1]@);
    match read_u32(&trimmed(&info[1])) {
        Some(id) => Ok(UserInfo { name: text_of(&info[0]), id }),
        None => Err(ViewParseError::BadMemberId),
    }
}

/// Reads the members that the fields of a long form name.
fn read_named(fields: &Vec<Vec<char>>) -> (r: Result<Vec<UserInfo>, ViewParseError>)
    ensures
        match r {
            Ok(ms) => named_members(rows(fields@)) == Ok::<
                Seq<(Seq<char>, u32)>,
                ViewParseError,
            >(identities(ms@)),
            Err(e) => named_members(rows(fields@)) == Err::<
                Seq<(Seq<char>, u32)>,
                ViewParseError,
            >(e),
        },
{
    let mut out: Vec<UserInfo> = Vec::new();
    let mut i: usize = 0;
    assert(rows(fields@).take(0).len() == 0);
    assert(identities(out@) == Seq::<(Seq<char>, u32)>::empty());
    while i < fields.len()
        invariant
            i <= fields.len(),
            named_members(rows(fields@).take(i as int)) == Ok::<
                Seq<(Seq<char>, u32)>,
                ViewParseError,
            >(identities(out@)),
        decreases fields.len() - i,
    {
        let ghost next = rows(fields@).take(i + 1);
        assert(next.drop_last() == rows(fields@).take(i as int));
        assert(next.last() == fields[i as int]@);
        let e = trimmed(&fields[i]);
        if e.len() > 0 {
            match read_named_member(&e) {
                Ok(u) => {
                    let ghost before = identities(out@);
                    out.push(u);
                    assert(identities(out@) == before.push(u@));
                },
                Err(err) => {
                    proof {
                        lemma_named_prefix(rows(fields@), i + 1);
                    }
                    return Err(err);
                },
            }
        }
        i += 1;
    }
    assert(rows(fields@).take(fields.len() as int) == rows(fields@));
    Ok(out)
}

/// Reads a view in its short form.
pub fn read_short(s: &Vec<char>) -> (r: Result<PeerState, ViewParseError>)
    ensures
        match r {
            Ok(st) => parse_short(s@) == Ok::<ViewModel, ViewParseError>(st@),
            Err(e) => parse_short(s@) == Err::<ViewModel, ViewParseError>(e),
        },
{
    match cut_at(s, ':') {
        None => Err(ViewParseError::ExpectedList),
        Some((head, rest)) => match read_u32(&trimmed(&head)) {
            None => Err(ViewParseError::BadViewId),
            Some(view_id) => match read_listed(&split_on(&trimmed(&rest), ',')) {
                None => Err(ViewParseError::BadListedId),
                Some(membership) => Ok(PeerState { view_id, membership, req_counter: 0 }),
            },
        },
    }
}

/// Reads a view in its long form.
fn read_long(s: &Vec<char>) -> (r: Result<PeerState, ViewParseError>)
    ensures
        match r {
            Ok(st) => parse_long(s@) == Ok::<ViewModel, ViewParseError>(st@),
            Err(e) => parse_long(s@) == Err::<ViewModel, ViewParseError>(e),
        },
{
    let parts = split_on(s, ';');
    assert(rows(parts@).len() == parts.len());
    if parts.len() != 2 {
        return Err(ViewParseError::ExpectedPair);
    }
    assert(rows(parts@)[0] == parts[0]@);
    assert(rows(parts@)[1] == parts[1]@);
    let view_part = trimmed(&parts[0]);
    let view_key = chars_of("view_id=");
    if !has_prefix(&view_part, &view_key) {
        return Err(ViewParseError::MissingViewId);
    }
    let number = slice_of(&view_part, view_key.len(), view_part.len());
    assert(number@ == view_part@.skip(view_key.len() as int));
    let view_id = match read_u32(&trimmed(&number)) {
        Some(n) => n,
        None => {
            return Err(ViewParseError::BadViewId);
        },
    };
    let member_part = trimmed(&parts[1]);
    let member_key = chars_of("membership=");
    if !has_prefix(&member_part, &member_key) {
        return Err(ViewParseError::MissingMembership);
    }
    let list = slice_of(&member_part, member_key.len(), member_part.len());
    assert(list@ == member_part@.skip(member_key.len() as int));
    match read_named(&split_on(&list, ',')) {
        Err(e) => Err(e),
        Ok(membership) => Ok(PeerState { view_id, membership, req_counter: 0 }),
    }
}

/// Reads a view from its characters, in either form.
pub fn read_view(s: &Vec<char>) -> (r: Result<PeerState, ViewParseError>)
    ensures
        match r {
            Ok(st) => parse_view(s@) == Ok::<ViewModel, ViewParseError>(st@),
            Err(e) => parse_view(s@) == Err::<ViewModel, ViewParseError>(e),
        },
{
    if has_char(s, '=') && has_char(s, ';') {
        read_long(s)
    } else {
        read_short(s)
    }
}

impl PeerState {
    /// The identifiers of the members, in order.
    pub open spec fn ids(&self) -> Seq<u32> {
        ids(self.membership@)
    }

    /// No identifier occurs twice among the members.
    pub open spec fn wf(&self) -> bool {
        self.ids().no_duplicates()
    }

    /// View 0: the leader alone.
    pub fn initial(leader: UserInfo) -> (r: PeerState)
        ensures
            r.view_id == 0,
            r.req_counter == 0,
            r.membership@ == seq![leader],
            r.wf(),
    {
        let mut membership: Vec<UserInfo> = Vec::new();
        membership.push(leader);
        PeerState { view_id: 0, membership, req_counter: 0 }
    }

    /// The view `view_id` of the members `all`, each under the placeholder
    /// name.
    pub fn from_ids(view_id: u32, all: &Vec<u32>) -> (r: PeerState)
        ensures
            r.view_id == view_id,
            r.req_counter == 0,
            r.ids() == all@,
            forall|i: int| 0 <= i < r.membership.len() ==> r.membership[i].name@ == placeholder_name(),
    {
        let mut membership: Vec<UserInfo> = Vec::new();
        let mut i: usize = 0;
        while i < all.len()
            invariant
                i <= all.len(),
                ids(membership@) == all@.take(i as int),
                forall|j: int|
                    0 <= j < membership.len() ==> membership[j].name@ == placeholder_name(),
            decreases all.len() - i,
        {
            let ghost before = ids(membership@);
            membership.push(UserInfo { name: String::from_str("unknown"), id: all[i] });
            assert(ids(membership@) == before.push(all@[i as int]));
            assert(all@.take(i + 1) == all@.take(i as int).push(all@[i as int]));
            i += 1;
        }
        assert(all@.take(all.len() as int) == all@);
        PeerState { view_id, membership, req_counter: 0 }
    }

    /// Tells whether `id` is a member.
    pub fn contains(&self, id: u32) -> (r: bool)
        ensures
            r == self.ids().contains(id),
    {
        let mut i: usize = 0;
        while i < self.membership.len()
            invariant
                i <= self.membership.len(),
                forall|j: int| 0 <= j < i ==> self.ids()[j] != id,
            decreases self.membership.len() - i,
        {
            if self.membership[i].id == id {
                assert(self.ids()[i as int] == id);
                return true;
            }
            i += 1;
        }
        false
    }

    /// The identifiers of the members, in order.
    pub fn member_ids(&self) -> (r: Vec<u32>)
        ensures
            r@ == self.ids(),
    {
        let mut out: Vec<u32> = Vec::new();
        let mut i: usize = 0;
        while i < self.membership.len()
            invariant
                i <= self.membership.len(),
                out@ == self.ids().take(i as int),
            decreases self.membership.len() - i,
        {
            out.push(self.membership[i].id);
            assert(self.ids().take(i + 1) == self.ids().take(i as int).push(self.ids()[i as int]));
            i += 1;
        }
        assert(self.ids().take(self.membership.len() as int) == self.ids());
        out
    }

    /// A copy of the view.
    pub fn duplicate(&self) -> (r: PeerState)
        ensures
            r.view_id == self.view_id,
            r.req_counter == self.req_counter,
            r.membership@ == self.membership@,
    {
        let mut membership: Vec<UserInfo> = Vec::new();
        let mut i: usize = 0;
        while i < self.membership.len()
            invariant
                i <= self.membership.len(),
                membership@ == self.membership@.take(i as int),
            decreases self.membership.len() - i,
        {
            membership.push(self.membership[i].clone());
            assert(self.membership@.take(i + 1) == self.membership@.take(i as int).push(
                self.membership@[i as int],
            ));
            i += 1;
        }
        assert(self.membership@.take(self.membership.len() as int) == self.membership@);
        PeerState { view_id: self.view_id, membership, req_counter: self.req_counter }
    }

    /// The long form of the view.
    pub fn to_text(&self) -> (r: String)
        ensures
            r@ == long_form(self@),
    {
        let mut out = String::from_str("view_id=");
        append_decimal(&mut out, self.view_id as u64);
        out.append(";membership=");
        let ghost head = out@;
        let mut i: usize = 0;
        assert(identities(self.membership@).take(0).len() == 0);
        assert(head + entry_list(identities(self.membership@).take(0)) == head);
        while i < self.membership.len()
            invariant
                i <= self.membership.len(),
                out@ == head + entry_list(identities(self.membership@).take(i as int)),
            decreases self.membership.len() - i,
        {
            let ghost before = out@;
            let ghost m = self.membership@[i as int]@;
            if i > 0 {
                out.push(',');
            }
            out.append(self.membership[i].name.as_str());
            out.push(':');
            append_decimal(&mut out, self.membership[i].id as u64);
            proof {
                let all = identities(self.membership@);
                let next = all.take(i + 1);
                assert(next.drop_last() == all.take(i as int));
                assert(next.last() == m);
                if i > 0 {
                    assert((before.push(',') + m.0).push(':') + decimal(m.1 as nat) == head + (
                    entry_list(all.take(i as int)) + seq![','] + entry(m)));
                } else {
                    assert(entry_list(all.take(0)).len() == 0);
                    assert((before + m.0).push(':') + decimal(m.1 as nat) == head + entry(m));
                }
            }
            i += 1;
        }
        assert(identities(self.membership@).take(self.membership.len() as int) == identities(
            self.membership@,
        ));
        out
    }

    /// Reads a view from either of its written forms.
    pub fn from_str(s: &str) -> (r: Result<PeerState, ViewParseError>)
        ensures
            match r {
                Ok(st) => parse_view(s@) == Ok::<ViewModel, ViewParseError>(st@),
                Err(e) => parse_view(s@) == Err::<ViewModel, ViewParseError>(e),
            },
    {
        read_view(&chars_of(s))
    }
}

/// The members that a list of identifiers stands for: each under the
/// placeholder name.
pub open spec fn unnamed(all: Seq<u32>) -> Seq<(Seq<char>, u32)> {
    Seq::new(all.len(), |i: int| (placeholder_name(), all[i]))
}

/// The identifiers in base ten, one text each.
pub open spec fn written_ids(all: Seq<u32>) -> Seq<Seq<char>> {
    Seq::new(all.len(), |i: int| decimal(all[i] as nat))
}

/// A written list of identifiers holds digits and commas only, and a list
/// that is not empty begins and ends with a digit.
pub proof fn lemma_id_list_shape(all: Seq<u32>)
    ensures
        forall|i: int|
            0 <= i < id_list(all).len() ==> is_digit(#[trigger] id_list(all)[i]) || id_list(
                all,
            )[i] == ',',
        all.len() == 0 ==> id_list(all).len() == 0,
        all.len() > 0 ==> id_list(all).len() > 0 && is_digit(id_list(all)[0]) && is_digit(
            id_list(all).last(),
        ),
    decreases all.len(),
{
    if all.len() == 0 {
    } else if all.len() == 1 {
        lemma_decimal(all[0] as nat);
    } else {
        lemma_id_list_shape(all.drop_last());
        lemma_decimal(all.last() as nat);
        let head = id_list(all.drop_last());
        let word = decimal(all.last() as nat);
        let whole = id_list(all);
        assert(whole == head + seq![','] + word);
        assert forall|i: int| 0 <= i < whole.len() implies is_digit(#[trigger] whole[i])
            || whole[i] == ',' by {
            if i < head.len() {
                assert(whole[i] == head[i]);
            } else if i > head.len() {
                assert(whole[i] == word[i - head.len() - 1]);
            }
        }
        assert(whole[0] == head[0]);
        assert(whole.last() == word.last());
    }
}

/// The fields of a written list of identifiers are the identifiers in base
/// ten.
pub proof fn lemma_id_list_fields(all: Seq<u32>)
    requires
        all.len() > 0,
    ensures
        split(id_list(all), ',') == written_ids(all),
    decreases all.len(),
{
    lemma_decimal(all.last() as nat);
    lemma_digits_exclude(decimal(all.last() as nat), ',');
    if all.len() == 1 {
        lemma_split_single(decimal(all[0] as nat), ',');
        assert(written_ids(all) == seq![decimal(all[0] as nat)]);
    } else {
        lemma_id_list_fields(all.drop_last());
        lemma_split_tail(id_list(all.drop_last()), decimal(all.last() as nat), ',');
        assert(written_ids(all) == written_ids(all.drop_last()).push(decimal(all.last() as nat)));
    }
}

/// Identifiers in base ten are read back as those identifiers.
pub proof fn lemma_listed_written(all: Seq<u32>)
    ensures
        listed_members(written_ids(all)) == Some(unnamed(all)),
    decreases all.len(),
{
    if all.len() == 0 {
        assert(unnamed(all) == Seq::<(Seq<char>, u32)>::empty());
    } else {
        lemma_listed_written(all.drop_last());
        let word = decimal(all.last() as nat);
        lemma_decimal(all.last() as nat);
        lemma_trim_bare(word);
        lemma_decimal_round_trip(all.last() as nat, u32::MAX as nat);
        assert(written_ids(all).drop_last() == written_ids(all.drop_last()));
        assert(written_ids(all).last() == word);
        assert(unnamed(all) == unnamed(all.drop_last()).push((placeholder_name(), all.last())));
    }
}

/// The short form of a view, written as the view identifier, a colon and
/// the list of member identifiers, is read back as that view, its members
/// under the placeholder name.
pub proof fn lemma_short_form_round_trip(view_id: u32, all: Seq<u32>)
    ensures
        parse_short(decimal(view_id as nat) + seq![':'] + id_list(all)) == Ok::<
            ViewModel,
            ViewParseError,
        >(ViewModel { view_id, members: unnamed(all), req_counter: 0 }),
        parse_view(decimal(view_id as nat) + seq![':'] + id_list(all)) == parse_short(
            decimal(view_id as nat) + seq![':'] + id_list(all),
        ),
{
    let number = decimal(view_id as nat);
    let list = id_list(all);
    let s = number + seq![':'] + list;
    lemma_decimal(view_id as nat);
    lemma_id_list_shape(all);
    assert(!s.contains('=')) by {
        if s.contains('=') {
            let i = choose|i: int| 0 <= i < s.len() && s[i] == '=';
            if i < number.len() {
                assert(s[i] == number[i]);
                assert(is_digit(number[i]));
            } else if i > number.len() {
                assert(s[i] == list[i - number.len() - 1]);
            }
        }
    }
    lemma_digits_exclude(number, ':');
    lemma_split_head(number, list, ':');
    lemma_trim_bare(number);
    lemma_decimal_round_trip(view_id as nat, u32::MAX as nat);
    if all.len() == 0 {
        assert(trim(list) == list);
        assert(split(list, ',') == seq![list]);
        assert(seq![list].drop_last() == Seq::<Seq<char>>::empty());
        assert(listed_members(seq![list].drop_last()) == Some(
            Seq::<(Seq<char>, u32)>::empty(),
        ));
        assert(unnamed(all) == Seq::<(Seq<char>, u32)>::empty());
    } else {
        lemma_trim_bare(list);
        lemma_id_list_fields(all);
        lemma_listed_written(all);
    }
}

} // verus!
