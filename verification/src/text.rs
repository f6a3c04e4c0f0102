//! Character-level text handling: trimming, splitting, prefixes and decimal
//! numbers, each with a model over `Seq<char>`.

use vstd::prelude::*;

verus! {

/// `String::push` appends one character to the end of the string.
pub assume_specification[ String::push ](s: &mut String, c: char)
    ensures
        final(s)@ == old(s)@.push(c),
;

/// Whether `c` carries the Unicode `White_Space` property.
pub open spec fn is_space(c: char) -> bool {
    let n = c as u32;
    ||| 0x09 <= n <= 0x0D
    ||| n == 0x20
    ||| n == 0x85
    ||| n == 0xA0
    ||| n == 0x1680
    ||| 0x2000 <= n <= 0x200A
    ||| n == 0x2028
    ||| n == 0x2029
    ||| n == 0x202F
    ||| n == 0x205F
    ||| n == 0x3000
}

/// `s` without its leading white space.
pub open spec fn trim_start(s: Seq<char>) -> Seq<char>
    decreases s.len(),
{
    if s.len() > 0 && is_space(s[0]) {
        trim_start(s.drop_first())
    } else {
        s
    }
}

/// `s` without its trailing white space.
pub open spec fn trim_end(s: Seq<char>) -> Seq<char>
    decreases s.len(),
{
    if s.len() > 0 && is_space(s.last()) {
        trim_end(s.drop_last())
    } else {
        s
    }
}

/// `s` without leading and trailing white space.
pub open spec fn trim(s: Seq<char>) -> Seq<char> {
    trim_end(trim_start(s))
}

/// Whether `s` begins with `p`.
pub open spec fn starts_with(s: Seq<char>, p: Seq<char>) -> bool {
    p.len() <= s.len() && s.take(p.len() as int) == p
}

/// `s` after the prefix `p`, if `s` begins with `p`.
pub open spec fn strip_prefix(s: Seq<char>, p: Seq<char>) -> Option<Seq<char>> {
    if starts_with(s, p) {
        Some(s.skip(p.len() as int))
    } else {
        None
    }
}

/// The position of the first `d` in `s`, or the length of `s` if there is
/// none.
pub open spec fn first_index(s: Seq<char>, d: char) -> nat
    decreases s.len(),
{
    if s.len() == 0 || s[0] == d {
        0
    } else {
        1 + first_index(s.drop_first(), d)
    }
}

/// The fields of `s` between occurrences of `d`. There is always at least
/// one field; `n` delimiters give `n + 1` fields, some of them perhaps empty.
pub open spec fn split(s: Seq<char>, d: char) -> Seq<Seq<char>>
    decreases s.len(),
{
    let i = first_index(s, d);
    if i >= s.len() {
        seq![s]
    } else {
        seq![s.take(i as int)] + split(s.skip(i as int + 1), d)
    }
}

/// What a vector of fields holds, as sequences.
pub open spec fn rows(v: Seq<Vec<char>>) -> Seq<Seq<char>> {
    Seq::new(v.len(), |i: int| v[i]@)
}

/// The two parts of `s` around its first `d`, if `d` occurs in `s`.
pub open spec fn cut(s: Seq<char>, d: char) -> Option<(Seq<char>, Seq<char>)> {
    let i = first_index(s, d);
    if i < s.len() {
        Some((s.take(i as int), s.skip(i as int + 1)))
    } else {
        None
    }
}

/// Whether `c` is one of `0` to `9`.
pub open spec fn is_digit(c: char) -> bool {
    '0' <= c && c <= '9'
}

/// The number that the digit `c` stands for.
pub open spec fn digit_value(c: char) -> nat {
    (c as u32 - '0' as u32) as nat
}

/// The character for a number below ten.
pub open spec fn digit_char(d: nat) -> char {
    if d == 0 {
        '0'
    } else if d == 1 {
        '1'
    } else if d == 2 {
        '2'
    } else if d == 3 {
        '3'
    } else if d == 4 {
        '4'
    } else if d == 5 {
        '5'
    } else if d == 6 {
        '6'
    } else if d == 7 {
        '7'
    } else if d == 8 {
        '8'
    } else {
        '9'
    }
}

/// Whether every character of `s` is a digit.
pub open spec fn all_digits(s: Seq<char>) -> bool {
    forall|i: int| 0 <= i < s.len() ==> is_digit(#[trigger] s[i])
}

/// The number that a run of digits writes in base ten.
pub open spec fn decimal_value(s: Seq<char>) -> nat
    decreases s.len(),
{
    if s.len() == 0 {
        0
    } else {
        decimal_value(s.drop_last()) * 10 + digit_value(s.last())
    }
}

/// `s` without one leading plus sign.
pub open spec fn unsigned_digits(s: Seq<char>) -> Seq<char> {
    if s.len() > 0 && s[0] == '+' {
        s.drop_first()
    } else {
        s
    }
}

/// The number that `s` writes, if `s` is an optional plus sign followed by
/// one or more digits whose value does not exceed `max`.
pub open spec fn parse_number(s: Seq<char>, max: nat) -> Option<nat> {
    let body = unsigned_digits(s);
    if body.len() > 0 && all_digits(body) && decimal_value(body) <= max {
        Some(decimal_value(body))
    } else {
        None
    }
}

/// The `u32` that `s` writes, if it writes one.
pub open spec fn u32_of(s: Seq<char>) -> Option<u32> {
    match parse_number(s, u32::MAX as nat) {
        Some(n) => Some(n as u32),
        None => None,
    }
}

/// The `u64` that `s` writes, if it writes one.
pub open spec fn u64_of(s: Seq<char>) -> Option<u64> {
    match parse_number(s, u64::MAX as nat) {
        Some(n) => Some(n as u64),
        None => None,
    }
}

/// The shortest base-ten writing of `n`.
pub open spec fn decimal(n: nat) -> Seq<char>
    decreases n,
{
    if n < 10 {
        seq![digit_char(n)]
    } else {
        decimal(n / 10).push(digit_char(n % 10))
    }
}

/// Tells whether a character is white space.
pub fn char_is_space(c: char) -> (r: bool)
    ensures
        r == is_space(c),
{
    let n: u32 = c as u32;
    (0x09 <= n && n <= 0x0D) || n == 0x20 || n == 0x85 || n == 0xA0 || n == 0x1680 || (0x2000 <= n
        && n <= 0x200A) || n == 0x2028 || n == 0x2029 || n == 0x202F || n == 0x205F || n == 0x3000
}

/// The characters of a string slice, in order.
pub fn chars_of(s: &str) -> (r: Vec<char>)
    ensures
        r@ == s@,
{
    let mut out: Vec<char> = Vec::new();
    let it = s.chars();
    for c in iter: it
        invariant
            out@ == iter.seq().take(iter.index()),
    {
        out.push(c);
    }
    out
}

/// A string made of the given characters.
pub fn text_of(v: &Vec<char>) -> (r: String)
    ensures
        r@ == v@,
{
    let mut s = String::new();
    let mut i: usize = 0;
    while i < v.len()
        invariant
            i <= v.len(),
            s@ == v@.take(i as int),
        decreases v.len() - i,
    {
        s.push(v[i]);
        i += 1;
    }
    s
}

/// A copy of the characters of `s` from position `from` up to `to`.
pub(crate) fn slice_of(s: &Vec<char>, from: usize, to: usize) -> (r: Vec<char>)
    requires
        from <= to <= s.len(),
    ensures
        r@ == s@.subrange(from as int, to as int),
{
    let mut out: Vec<char> = Vec::new();
    let mut i: usize = from;
    while i < to
        invariant
            from <= i <= to <= s.len(),
            out@ == s@.subrange(from as int, i as int),
        decreases to - i,
    {
        out.push(s[i]);
        i += 1;
    }
    out
}

/// Tells whether two texts hold the same characters.
pub fn same_text(a: &Vec<char>, b: &Vec<char>) -> (r: bool)
    ensures
        r == (a@ == b@),
{
    if a.len() != b.len() {
        return false;
    }
    let mut i: usize = 0;
    while i < a.len()
        invariant
            i <= a.len(),
            a.len() == b.len(),
            a@.take(i as int) == b@.take(i as int),
        decreases a.len() - i,
    {
        if a[i] != b[i] {
            return false;
        }
        assert(a@.take(i + 1) == a@.take(i as int).push(a@[i as int]));
        assert(b@.take(i + 1) == b@.take(i as int).push(b@[i as int]));
        i += 1;
    }
    assert(a@.take(a.len() as int) == a@);
    assert(b@.take(b.len() as int) == b@);
    true
}

/// Tells whether `s` begins with `p`.
pub fn has_prefix(s: &Vec<char>, p: &Vec<char>) -> (r: bool)
    ensures
        r == starts_with(s@, p@),
{
    if p.len() > s.len() {
        return false;
    }
    let mut i: usize = 0;
    while i < p.len()
        invariant
            i <= p.len() <= s.len(),
            s@.take(i as int) == p@.take(i as int),
        decreases p.len() - i,
    {
        if s[i] != p[i] {
            assert(s@.take(p.len() as int)[i as int] != p@[i as int]);
            return false;
        }
        assert(s@.take(i + 1) == s@.take(i as int).push(s@[i as int]));
        assert(p@.take(i + 1) == p@.take(i as int).push(p@[i as int]));
        i += 1;
    }
    assert(p@.take(p.len() as int) == p@);
    true
}

/// Tells whether `c` occurs in `s`.
pub fn has_char(s: &Vec<char>, c: char) -> (r: bool)
    ensures
        r == s@.contains(c),
{
    let mut i: usize = 0;
    while i < s.len()
        invariant
            i <= s.len(),
            forall|j: int| 0 <= j < i ==> s@[j] != c,
        decreases s.len() - i,
    {
        if s[i] == c {
            return true;
        }
        i += 1;
    }
    false
}

/// `s` after the prefix `p`, if `s` begins with `p`.
pub fn without_prefix(s: &Vec<char>, p: &str) -> (r: Option<Vec<char>>)
    ensures
        match r {
            Some(rest) => strip_prefix(s@, p@) == Some(rest@),
            None => strip_prefix(s@, p@) is None,
        },
{
    let prefix = chars_of(p);
    if has_prefix(s, &prefix) {
        let rest = slice_of(s, prefix.len(), s.len());
        assert(s@.subrange(prefix.len() as int, s.len() as int) == s@.skip(prefix.len() as int));
        Some(rest)
    } else {
        None
    }
}

/// `s` without leading and trailing white space.
pub fn trimmed(s: &Vec<char>) -> (r: Vec<char>)
    ensures
        r@ == trim(s@),
{
    let n = s.len();
    let mut i: usize = 0;
    assert(s@.skip(0) == s@);
    while i < n && char_is_space(s[i])
        invariant
            i <= n == s.len(),
            trim_start(s@) == trim_start(s@.skip(i as int)),
        decreases n - i,
    {
        assert(s@.skip(i as int).drop_first() == s@.skip(i + 1));
        i += 1;
    }
    assert(trim_start(s@) == s@.skip(i as int));
    let mut j: usize = n;
    assert(s@.subrange(i as int, n as int) == s@.skip(i as int));
    while j > i && char_is_space(s[j - 1])
        invariant
            i <= j <= n == s.len(),
            trim(s@) == trim_end(s@.subrange(i as int, j as int)),
        decreases j,
    {
        assert(s@.subrange(i as int, j as int).drop_last() == s@.subrange(i as int, j - 1));
        j -= 1;
    }
    slice_of(s, i, j)
}

/// `first_index` is the one position up to which no `d` occurs and at which
/// the text ends or holds `d`.
pub proof fn lemma_first_index(s: Seq<char>, d: char, k: int)
    requires
        0 <= k <= s.len(),
        forall|j: int| 0 <= j < k ==> s[j] != d,
        k == s.len() || s[k] == d,
    ensures
        first_index(s, d) == k,
    decreases s.len(),
{
    if s.len() == 0 || s[0] == d {
    } else {
        let t = s.drop_first();
        assert forall|j: int| 0 <= j < k - 1 implies t[j] != d by {
            assert(t[j] == s[j + 1]);
        }
        lemma_first_index(t, d, k - 1);
    }
}

/// The position of the first `d` at or after `from`, or the length of `s`.
pub(crate) fn find_char(s: &Vec<char>, from: usize, d: char) -> (k: usize)
    requires
        from <= s.len(),
    ensures
        from <= k <= s.len(),
        k - from == first_index(s@.skip(from as int), d),
{
    let mut k: usize = from;
    while k < s.len() && s[k] != d
        invariant
            from <= k <= s.len(),
            forall|j: int| from <= j < k ==> s@[j] != d,
        decreases s.len() - k,
    {
        k += 1;
    }
    proof {
        lemma_first_index(s@.skip(from as int), d, k - from);
    }
    k
}

/// The fields of `s` between occurrences of `d`.
pub fn split_on(s: &Vec<char>, d: char) -> (r: Vec<Vec<char>>)
    ensures
        rows(r@) == split(s@, d),
{
    let mut out: Vec<Vec<char>> = Vec::new();
    let mut start: usize = 0;
    let mut k: usize = find_char(s, 0, d);
    assert(s@.skip(0) == s@);
    assert(rows(out@) + split(s@, d) == split(s@, d));
    while k < s.len()
        invariant
            start <= k <= s.len(),
            k - start == first_index(s@.skip(start as int), d),
            split(s@, d) == rows(out@) + split(s@.skip(start as int), d),
        decreases s.len() - start,
    {
        let field = slice_of(s, start, k);
        proof {
            let t = s@.skip(start as int);
            let i = k - start;
            assert(t.take(i) == s@.subrange(start as int, k as int));
            assert(t.skip(i + 1) == s@.skip(k + 1));
            assert(rows(out@.push(field)) == rows(out@) + seq![field@]);
            assert(rows(out@) + (seq![field@] + split(s@.skip(k + 1), d)) == rows(out@) + seq![
                field@,
            ] + split(s@.skip(k + 1), d));
        }
        out.push(field);
        start = k + 1;
        k = find_char(s, start, d);
    }
    let field = slice_of(s, start, k);
    proof {
        assert(s@.subrange(start as int, k as int) == s@.skip(start as int));
        assert(rows(out@.push(field)) == rows(out@) + seq![field@]);
    }
    out.push(field);
    out
}

/// The two parts of `s` around its first `d`, if `d` occurs in `s`.
pub fn cut_at(s: &Vec<char>, d: char) -> (r: Option<(Vec<char>, Vec<char>)>)
    ensures
        match r {
            Some((a, b)) => cut(s@, d) == Some((a@, b@)),
            None => cut(s@, d) is None,
        },
{
    assert(s@.skip(0) == s@);
    let k = find_char(s, 0, d);
    if k < s.len() {
        let a = slice_of(s, 0, k);
        let b = slice_of(s, k + 1, s.len());
        assert(s@.subrange(0, k as int) == s@.take(k as int));
        assert(s@.subrange(k + 1, s.len() as int) == s@.skip(k + 1));
        Some((a, b))
    } else {
        None
    }
}

/// Reads an optional plus sign and a run of digits as a number up to `max`.
pub fn read_bounded(s: &Vec<char>, max: u64) -> (r: Option<u64>)
    ensures
        match r {
            Some(n) => parse_number(s@, max as nat) == Some(n as nat),
            None => parse_number(s@, max as nat) is None,
        },
{
    let n = s.len();
    let mut i: usize = 0;
    if n > 0 && s[0] == '+' {
        i = 1;
    }
    let start = i;
    let ghost body = unsigned_digits(s@);
    assert(body == s@.skip(start as int));
    if i == n {
        return None;
    }
    let mut acc: u128 = 0;
    let mut over = false;
    assert(body.take(0).len() == 0);
    while i < n
        invariant
            start <= i <= n == s.len(),
            body == s@.skip(start as int),
            body == unsigned_digits(s@),
            all_digits(body.take(i - start)),
            !over ==> acc == decimal_value(body.take(i - start)) && acc <= max,
            over ==> decimal_value(body.take(i - start)) > max,
        decreases n - i,
    {
        let c = s[i];
        if !(c >= '0' && c <= '9') {
            assert(body[i - start] == c);
            assert(!all_digits(body));
            return None;
        }
        let dv: u128 = (c as u32 - '0' as u32) as u128;
        proof {
            let next = body.take(i - start + 1);
            assert(next.drop_last() == body.take(i - start));
            assert(next.last() == c);
            assert forall|j: int| 0 <= j < next.len() implies is_digit(#[trigger] next[j]) by {
                if j < i - start {
                    assert(next[j] == body.take(i - start)[j]);
                }
            }
        }
        if !over {
            acc = acc * 10 + dv;
            if acc > max as u128 {
                over = true;
            }
        }
        i += 1;
    }
    assert(body.take(n - start) == body);
    if over {
        None
    } else {
        Some(acc as u64)
    }
}

/// Reads a `u32` written in base ten.
pub fn read_u32(s: &Vec<char>) -> (r: Option<u32>)
    ensures
        r == u32_of(s@),
{
    match read_bounded(s, u32::MAX as u64) {
        Some(n) => Some(n as u32),
        None => None,
    }
}

/// Reads a `u64` written in base ten.
pub fn read_u64(s: &Vec<char>) -> (r: Option<u64>)
    ensures
        r == u64_of(s@),
{
    read_bounded(s, u64::MAX)
}

/// The character for a number below ten.
pub(crate) fn digit_of(d: u8) -> (c: char)
    requires
        d < 10,
    ensures
        c == digit_char(d as nat),
{
    if d == 0 {
        '0'
    } else if d == 1 {
        '1'
    } else if d == 2 {
        '2'
    } else if d == 3 {
        '3'
    } else if d == 4 {
        '4'
    } else if d == 5 {
        '5'
    } else if d == 6 {
        '6'
    } else if d == 7 {
        '7'
    } else if d == 8 {
        '8'
    } else {
        '9'
    }
}

/// Appends the base-ten writing of `n` to `out`.
pub fn append_decimal(out: &mut String, n: u64)
    ensures
        final(out)@ == old(out)@ + decimal(n as nat),
    decreases n,
{
    if n >= 10 {
        append_decimal(out, n / 10);
    }
    out.push(digit_of((n % 10) as u8));
    proof {
        if n >= 10 {
            assert(old(out)@ + decimal((n / 10) as nat).push(digit_char((n % 10) as nat)) == (old(
                out,
            )@ + decimal((n / 10) as nat)).push(digit_char((n % 10) as nat)));
        } else {
            assert(old(out)@ + seq![digit_char(n as nat)] == old(out)@.push(digit_char(n as nat)));
        }
    }
}

/// The base-ten writing of a number is a non-empty run of digits that reads
/// back as that number.
pub proof fn lemma_decimal(n: nat)
    ensures
        decimal(n).len() > 0,
        all_digits(decimal(n)),
        decimal_value(decimal(n)) == n,
    decreases n,
{
    if n < 10 {
        assert(decimal(n).drop_last().len() == 0);
        assert(decimal_value(decimal(n).drop_last()) == 0);
    } else {
        lemma_decimal(n / 10);
        let w = decimal(n);
        assert(w.drop_last() == decimal(n / 10));
        assert forall|i: int| 0 <= i < w.len() implies is_digit(#[trigger] w[i]) by {
            if i < w.len() - 1 {
                assert(w[i] == decimal(n / 10)[i]);
            }
        }
    }
}

/// Writing a number in base ten and reading it back gives the number.
pub proof fn lemma_decimal_round_trip(n: nat, max: nat)
    requires
        n <= max,
    ensures
        parse_number(decimal(n), max) == Some(n),
{
    lemma_decimal(n);
    assert(is_digit(decimal(n)[0]));
}

/// A text that neither begins nor ends with white space is its own trimmed
/// form, and stays so with a line feed behind it.
pub proof fn lemma_trim_bare(s: Seq<char>)
    requires
        s.len() > 0,
        !is_space(s[0]),
        !is_space(s.last()),
    ensures
        trim(s) == s,
        trim(s.push('\n')) == s,
{
    let t = s.push('\n');
    assert(t[0] == s[0]);
    assert(trim_start(t) == t);
    assert(t.drop_last() == s);
    assert(is_space(t.last()));
}

/// A character that is no digit does not occur in a run of digits.
pub proof fn lemma_digits_exclude(s: Seq<char>, c: char)
    requires
        all_digits(s),
        !is_digit(c),
    ensures
        !s.contains(c),
{
    if s.contains(c) {
        let i = choose|i: int| 0 <= i < s.len() && s[i] == c;
        assert(is_digit(s[i]));
    }
}

/// A text without the delimiter is one field.
pub proof fn lemma_split_single(a: Seq<char>, d: char)
    requires
        !a.contains(d),
    ensures
        split(a, d) == seq![a],
{
    assert forall|j: int| 0 <= j < a.len() implies a[j] != d by {
        assert(a.contains(a[j]));
    }
    lemma_first_index(a, d, a.len() as int);
}

/// Where `a` holds no delimiter, the fields of `a`, a delimiter and `b` are
/// `a` and then the fields of `b`.
pub proof fn lemma_split_head(a: Seq<char>, b: Seq<char>, d: char)
    requires
        !a.contains(d),
    ensures
        split(a + seq![d] + b, d) == seq![a] + split(b, d),
        cut(a + seq![d] + b, d) == Some((a, b)),
{
    let whole = a + seq![d] + b;
    assert forall|j: int| 0 <= j < a.len() implies whole[j] != d by {
        assert(a.contains(a[j]));
    }
    assert(whole[a.len() as int] == d);
    lemma_first_index(whole, d, a.len() as int);
    assert(whole.take(a.len() as int) == a);
    assert(whole.skip(a.len() as int + 1) == b);
}

/// Where `b` holds no delimiter, the fields of `a`, a delimiter and `b` are
/// the fields of `a` and then `b`.
pub proof fn lemma_split_tail(a: Seq<char>, b: Seq<char>, d: char)
    requires
        !b.contains(d),
    ensures
        split(a + seq![d] + b, d) == split(a, d).push(b),
    decreases a.len(),
{
    let whole = a + seq![d] + b;
    let i = first_index(a, d) as int;
    lemma_first_index_bounds(a, d);
    if i >= a.len() {
        assert(!a.contains(d)) by {
            if a.contains(d) {
                let j = choose|j: int| 0 <= j < a.len() && a[j] == d;
                assert(a[j] != d);
            }
        }
        lemma_split_head(a, b, d);
        lemma_split_single(b, d);
        assert(seq![a] + seq![b] == seq![a].push(b));
    } else {
        assert forall|j: int| 0 <= j < i implies whole[j] != d by {
            assert(whole[j] == a[j]);
        }
        assert(whole[i] == a[i]);
        lemma_first_index(whole, d, i);
        assert(whole.take(i) == a.take(i));
        assert(whole.skip(i + 1) == a.skip(i + 1) + seq![d] + b);
        lemma_split_tail(a.skip(i + 1), b, d);
        assert(seq![a.take(i)] + split(a.skip(i + 1), d).push(b) == (seq![a.take(i)] + split(
            a.skip(i + 1),
            d,
        )).push(b));
    }
}

/// No delimiter stands before the first one, and the first one is one.
pub proof fn lemma_first_index_bounds(s: Seq<char>, d: char)
    ensures
        first_index(s, d) <= s.len(),
        forall|j: int| 0 <= j < first_index(s, d) ==> s[j] != d,
        first_index(s, d) < s.len() ==> s[first_index(s, d) as int] == d,
    decreases s.len(),
{
    if s.len() == 0 || s[0] == d {
    } else {
        let t = s.drop_first();
        lemma_first_index_bounds(t, d);
        assert forall|j: int| 0 <= j < first_index(s, d) implies s[j] != d by {
            if j > 0 {
                assert(s[j] == t[j - 1]);
            }
        }
        if first_index(s, d) < s.len() {
            assert(s[first_index(s, d) as int] == t[first_index(t, d) as int]);
        }
    }
}

/// `s` after every `p` that stands at its front, one after the other.
pub open spec fn strip_repeated(s: Seq<char>, p: Seq<char>) -> Seq<char>
    decreases s.len(),
{
    if p.len() > 0 && starts_with(s, p) {
        strip_repeated(s.skip(p.len() as int), p)
    } else {
        s
    }
}

/// Strips every `p` that stands at the front of `s`.
pub fn without_repeated(s: &Vec<char>, p: &Vec<char>) -> (r: Vec<char>)
    ensures
        r@ == strip_repeated(s@, p@),
{
    let mut at: usize = 0;
    assert(s@.skip(0) == s@);
    if p.len() == 0 {
        return slice_of(s, 0, s.len());
    }
    loop
        invariant_except_break
            at <= s.len(),
            p.len() > 0,
            strip_repeated(s@, p@) == strip_repeated(s@.skip(at as int), p@),
        ensures
            at <= s.len(),
            strip_repeated(s@, p@) == s@.skip(at as int),
        decreases s.len() - at,
    {
        let rest = slice_of(s, at, s.len());
        assert(rest@ == s@.skip(at as int));
        if !has_prefix(&rest, p) {
            break;
        }
        assert(s@.skip(at as int).skip(p.len() as int) == s@.skip(at + p.len()));
        at = at + p.len();
    }
    let r = slice_of(s, at, s.len());
    assert(r@ == s@.skip(at as int));
    r
}

/// The text `a` comes before the text `b` or is `b`: character by
/// character, and the shorter first where one begins the other.
pub open spec fn text_le(a: Seq<char>, b: Seq<char>) -> bool
    decreases a.len(),
{
    if a.len() == 0 {
        true
    } else if b.len() == 0 {
        false
    } else if a[0] != b[0] {
        a[0] < b[0]
    } else {
        text_le(a.drop_first(), b.drop_first())
    }
}

/// Of two texts, one comes before the other or is the other.
pub proof fn lemma_text_le_total(a: Seq<char>, b: Seq<char>)
    ensures
        text_le(a, b) || text_le(b, a),
    decreases a.len(),
{
    if a.len() > 0 && b.len() > 0 && a[0] == b[0] {
        lemma_text_le_total(a.drop_first(), b.drop_first());
    }
}

/// What comes before a text that comes before a third comes before the
/// third.
pub proof fn lemma_text_le_transitive(a: Seq<char>, b: Seq<char>, c: Seq<char>)
    requires
        text_le(a, b),
        text_le(b, c),
    ensures
        text_le(a, c),
    decreases a.len(),
{
    if a.len() > 0 && b.len() > 0 && c.len() > 0 && a[0] == b[0] && b[0] == c[0] {
        lemma_text_le_transitive(a.drop_first(), b.drop_first(), c.drop_first());
    }
}

/// Tells whether the text `a` comes before the text `b` or is `b`.
pub fn text_precedes(a: &Vec<char>, b: &Vec<char>) -> (r: bool)
    ensures
        r == text_le(a@, b@),
{
    let mut i: usize = 0;
    assert(a@.skip(0) == a@ && b@.skip(0) == b@);
    while i < a.len() && i < b.len() && a[i] == b[i]
        invariant
            i <= a.len(),
            i <= b.len(),
            text_le(a@, b@) == text_le(a@.skip(i as int), b@.skip(i as int)),
        decreases a.len() - i,
    {
        assert(a@.skip(i as int).drop_first() == a@.skip(i + 1));
        assert(b@.skip(i as int).drop_first() == b@.skip(i + 1));
        i += 1;
    }
    if i >= a.len() {
        true
    } else if i >= b.len() {
        false
    } else {
        a[i] < b[i]
    }
}

/// `sorted` holds the texts of `given`, each as often as `given` does, in
/// ascending order: `order` says which position of `given` each comes from.
pub open spec fn is_sorting(sorted: Seq<Seq<char>>, given: Seq<Seq<char>>, order: Seq<int>) -> bool {
    &&& sorted.len() == given.len()
    &&& order.len() == given.len()
    &&& forall|k: int| 0 <= k < order.len() ==> 0 <= #[trigger] order[k] < given.len()
    &&& forall|k: int| 0 <= k < order.len() ==> #[trigger] sorted[k] == given[order[k]]
    &&& forall|j: int, k: int|
        #![trigger order[j], order[k]]
        0 <= j < k < order.len() ==> order[j] != order[k]
    &&& forall|i: int| 0 <= i < given.len() ==> #[trigger] order.contains(i)
    &&& forall|j: int, k: int|
        #![trigger sorted[j], sorted[k]]
        0 <= j < k < sorted.len() ==> text_le(sorted[j], sorted[k])
}

/// The texts in ascending order.
pub fn sort_texts(given: &Vec<Vec<char>>) -> (r: Vec<Vec<char>>)
    ensures
        exists|order: Seq<int>| is_sorting(rows(r@), rows(given@), order),
{
    let mut out: Vec<Vec<char>> = Vec::new();
    let ghost mut order: Seq<int> = Seq::empty();
    let mut i: usize = 0;
    while i < given.len()
        invariant
            i <= given.len(),
            out.len() == i,
            order.len() == i,
            forall|k: int| 0 <= k < i ==> 0 <= #[trigger] order[k] < i,
            forall|k: int| 0 <= k < i ==> (#[trigger] out@[k])@ == given@[order[k]]@,
            forall|j: int, k: int|
                #![trigger order[j], order[k]]
                0 <= j < k < i ==> order[j] != order[k],
            forall|x: int| 0 <= x < i ==> #[trigger] order.contains(x),
            forall|j: int, k: int|
                #![trigger out@[j], out@[k]]
                0 <= j < k < i ==> text_le(out@[j]@, out@[k]@),
        decreases given.len() - i,
    {
        let mut p: usize = 0;
        while p < out.len() && text_precedes(&out[p], &given[i])
            invariant
                p <= out.len(),
                i < given.len(),
                forall|j: int| 0 <= j < p ==> text_le((#[trigger] out@[j])@, given@[i as int]@),
            decreases out.len() - p,
        {
            p += 1;
        }
        let ghost before = out@;
        let ghost prior = order;
        let item = slice_of(&given[i], 0, given[i].len());
        assert(item@ == given@[i as int]@);
        out.insert(p, item);
        proof {
            order = prior.insert(p as int, i as int);
            assert forall|k: int| p <= k < i implies text_le(
                given@[i as int]@,
                (#[trigger] before[k])@,
            ) by {
                lemma_text_le_total(before[p as int]@, given@[i as int]@);
                if k > p {
                    assert(text_le(before[p as int]@, before[k]@));
                    lemma_text_le_transitive(given@[i as int]@, before[p as int]@, before[k]@);
                }
            }
            assert forall|k: int| 0 <= k < i + 1 implies (#[trigger] out@[k])@
                == given@[order[k]]@ by {
                if k < p {
                    assert(out@[k] == before[k]);
                } else if k > p {
                    assert(out@[k] == before[k - 1]);
                }
            }
            assert forall|j: int, k: int|
                #![trigger order[j], order[k]]
                0 <= j < k < i + 1 implies order[j] != order[k] by {
                let a = if j < p {
                    j
                } else {
                    j - 1
                };
                let b = if k < p {
                    k
                } else {
                    k - 1
                };
                if j != p && k != p {
                    assert(order[j] == prior[a] && order[k] == prior[b]);
                } else if k == p {
                    assert(order[j] == prior[j]);
                } else {
                    assert(order[k] == prior[k - 1]);
                }
            }
            assert forall|x: int| 0 <= x < i + 1 implies #[trigger] order.contains(x) by {
                if x == i {
                    assert(order[p as int] == x);
                } else {
                    assert(prior.contains(x));
                    let j = choose|j: int| 0 <= j < prior.len() && prior[j] == x;
                    if j < p {
                        assert(order[j] == x);
                    } else {
                        assert(order[j + 1] == x);
                    }
                }
            }
            assert forall|j: int, k: int|
                #![trigger out@[j], out@[k]]
                0 <= j < k < i + 1 implies text_le(out@[j]@, out@[k]@) by {
                if j != p && k != p {
                    let a = if j < p {
                        j
                    } else {
                        j - 1
                    };
                    let b = if k < p {
                        k
                    } else {
                        k - 1
                    };
                    assert(out@[j] == before[a] && out@[k] == before[b]);
                    assert(text_le(before[a]@, before[b]@));
                } else if k == p {
                    assert(out@[j] == before[j]);
                } else {
                    assert(out@[k] == before[k - 1]);
                }
            }
        }
        i += 1;
    }
    proof {
        assert(is_sorting(rows(out@), rows(given@), order));
    }
    out
}

/// Whether `p` occurs in `s` as a run of characters.
pub open spec fn has_subtext(s: Seq<char>, p: Seq<char>) -> bool {
    exists|i: int| 0 <= i && i + p.len() <= s.len() && #[trigger] s.subrange(i, i + p.len()) == p
}

/// Tells whether `p` occurs in `s` as a run of characters.
pub fn mentions(s: &str, p: &str) -> (r: bool)
    ensures
        r == has_subtext(s@, p@),
{
    let text = chars_of(s);
    let part = chars_of(p);
    if part.len() > text.len() {
        return false;
    }
    let last = text.len() - part.len();
    let mut i: usize = 0;
    while i <= last
        invariant
            i <= last,
            last == text.len() - part.len(),
            part.len() <= text.len(),
            text@ == s@,
            part@ == p@,
            forall|j: int| 0 <= j < i ==> #[trigger] text@.subrange(j, j + part.len()) != part@,
        decreases last - i,
    {
        let window = slice_of(&text, i, i + part.len());
        if same_text(&window, &part) {
            assert(s@.subrange(i as int, i + p@.len()) == p@);
            return true;
        }
        if i == last {
            return false;
        }
        i += 1;
    }
    false
}

} // verus!
