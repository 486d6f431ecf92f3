//! The recognisers: each takes the text that is left, and hands back what it
//! read and the text after it.

pub mod de;

use crate::grammar;
use crate::grammar::{Atom, Datum, Miss, Rule};
use crate::scan::{cut, cuttable, is_blank, lemma_run_bytes, piece, same_text, span, Class};
use crate::table::{Group, Sections};
use vstd::prelude::*;
use vstd::string::*;

verus! {

/// A scalar token: a number, or a text that is borrowed from the input.
#[derive(Debug, Clone, Eq, Hash)]
pub enum Key<'a> {
    Num(i64),
    Str(&'a str),
}

/// A value: a scalar, or the scalars of a comma list.
#[derive(Debug, Eq, Hash)]
pub enum Value<'a> {
    Num(i64),
    Str(&'a str),
    Array(Vec<Value<'a>>),
}

impl<'a> View for Key<'a> {
    type V = Atom;

    open spec fn view(&self) -> Atom {
        match self {
            Key::Num(n) => Atom::Num(*n),
            Key::Str(s) => Atom::Text(s.spec_bytes()),
        }
    }
}

impl<'a> PartialEq for Key<'a> {
    /// Whether the two keys are the same number or the same text.
    fn eq(&self, other: &Self) -> (r: bool) {
        match (self, other) {
            (Key::Num(a), Key::Num(b)) => *a == *b,
            (Key::Str(a), Key::Str(b)) => same_text(a, b),
            _ => false,
        }
    }
}

impl<'a> vstd::std_specs::cmp::PartialEqSpecImpl for Key<'a> {
    open spec fn obeys_eq_spec() -> bool {
        true
    }

    open spec fn eq_spec(&self, other: &Self) -> bool {
        self@ == other@
    }
}

/// What the value `v` stands for.
pub open spec fn datum_of(v: Value<'_>) -> Datum
    decreases v,
{
    match v {
        Value::Num(n) => Datum::Num(n),
        Value::Str(s) => Datum::Text(s.spec_bytes()),
        Value::Array(items) => Datum::List(
            Seq::new(
                items@.len(),
                |i: int|
                    if 0 <= i < items@.len() {
                        datum_of(items@[i])
                    } else {
                        Datum::Num(0)
                    },
            ),
        ),
    }
}

impl<'a> View for Value<'a> {
    type V = Datum;

    open spec fn view(&self) -> Datum {
        datum_of(*self)
    }
}

/// The values of the items, as the contracts speak of them.
pub open spec fn items_of(v: Seq<Value<'_>>) -> Seq<Datum> {
    Seq::new(v.len(), |i: int| v[i]@)
}

/// A list stands for the list of what its items stand for.
pub proof fn lemma_array_view(items: Vec<Value<'_>>)
    ensures
        Value::Array(items)@ == Datum::List(items_of(items@)),
{
    let list = Value::Array(items);
    assert(list@->List_0 =~= items_of(items@));
}

/// A copy of `v`.
fn copy<'a>(v: &Value<'a>) -> (r: Value<'a>)
    ensures
        r@ == v@,
    decreases v,
{
    match v {
        Value::Num(n) => Value::Num(*n),
        Value::Str(s) => Value::Str(s),
        Value::Array(items) => {
            let mut out: Vec<Value<'a>> = Vec::new();
            let mut i: usize = 0;
            while i < items.len()
                invariant
                    decreases_to!(*v => *items),
                    i <= items@.len(),
                    out@.len() == i,
                    forall|j: int| 0 <= j < i ==> (#[trigger] out@[j])@ == items@[j]@,
                decreases items@.len() - i,
            {
                assert(decreases_to!(*items => items@[i as int]));
                out.push(copy(&items[i]));
                i += 1;
            }
            proof {
                lemma_array_view(out);
                lemma_array_view(*items);
                assert(items_of(out@) =~= items_of(items@));
            }
            Value::Array(out)
        },
    }
}

/// Whether `a` and `b` stand for the same.
fn alike<'a>(a: &Value<'a>, b: &Value<'a>) -> (r: bool)
    ensures
        r == (a@ == b@),
    decreases a,
{
    match (a, b) {
        (Value::Num(m), Value::Num(n)) => *m == *n,
        (Value::Str(s), Value::Str(t)) => same_text(s, t),
        (Value::Array(left), Value::Array(right)) => {
            proof {
                lemma_array_view(*left);
                lemma_array_view(*right);
            }
            if left.len() != right.len() {
                assert(items_of(left@).len() != items_of(right@).len());
                return false;
            }
            let mut i: usize = 0;
            while i < left.len()
                invariant
                    decreases_to!(*a => *left),
                    left@.len() == right@.len(),
                    i <= left@.len(),
                    forall|j: int| 0 <= j < i ==> (#[trigger] left@[j])@ == right@[j]@,
                    a@ == Datum::List(items_of(left@)),
                    b@ == Datum::List(items_of(right@)),
                decreases left@.len() - i,
            {
                assert(decreases_to!(*left => left@[i as int]));
                if !alike(&left[i], &right[i]) {
                    assert(items_of(left@)[i as int] != items_of(right@)[i as int]);
                    return false;
                }
                i += 1;
            }
            assert(items_of(left@) =~= items_of(right@));
            true
        },
        _ => false,
    }
}

impl<'a> PartialEq for Value<'a> {
    /// Whether the two values are the same scalar, or lists of the same items.
    fn eq(&self, other: &Self) -> (r: bool) {
        alike(self, other)
    }
}

impl<'a> vstd::std_specs::cmp::PartialEqSpecImpl for Value<'a> {
    open spec fn obeys_eq_spec() -> bool {
        true
    }

    open spec fn eq_spec(&self, other: &Self) -> bool {
        self@ == other@
    }
}

impl<'a> Clone for Value<'a> {
    fn clone(&self) -> (r: Self)
        ensures
            r@ == self@,
    {
        copy(self)
    }
}

impl<'a> From<i64> for Key<'a> {
    fn from(value: i64) -> (r: Self) {
        Key::Num(value)
    }
}

impl<'a> vstd::std_specs::convert::FromSpecImpl<i64> for Key<'a> {
    open spec fn obeys_from_spec() -> bool {
        true
    }

    open spec fn from_spec(value: i64) -> Self {
        Key::Num(value)
    }
}

impl<'a> From<&'a str> for Key<'a> {
    fn from(value: &'a str) -> (r: Self) {
        Key::Str(value)
    }
}

impl<'a> vstd::std_specs::convert::FromSpecImpl<&'a str> for Key<'a> {
    open spec fn obeys_from_spec() -> bool {
        true
    }

    open spec fn from_spec(value: &'a str) -> Self {
        Key::Str(value)
    }
}

impl<'a> From<Key<'a>> for Value<'a> {
    fn from(value: Key<'a>) -> (r: Self) {
        match value {
            Key::Str(s) => Value::Str(s),
            Key::Num(n) => Value::Num(n),
        }
    }
}

impl<'a> vstd::std_specs::convert::FromSpecImpl<Key<'a>> for Value<'a> {
    open spec fn obeys_from_spec() -> bool {
        true
    }

    open spec fn from_spec(value: Key<'a>) -> Self {
        match value {
            Key::Str(s) => Value::Str(s),
            Key::Num(n) => Value::Num(n),
        }
    }
}

/// What a recogniser says where its rule does not match: the text at which it
/// stopped, and the rule that found nothing there.
#[derive(Debug, Clone, PartialEq, Eq)]
pub struct Error<'a> {
    pub input: &'a str,
    pub code: Rule,
}

/// Whether `e` reports the miss `m` of a rule that was tried on the bytes `s`.
pub open spec fn reports(e: Error<'_>, s: Seq<u8>, m: Miss) -> bool {
    e.code == m.rule && e.input.spec_bytes() == s.skip(m.at as int)
}

/// Where `bytes[from..to]` ends once the blanks at its end are left out.
fn trim_end(bytes: &[u8], from: usize, to: usize) -> (end: usize)
    requires
        from <= to <= bytes@.len(),
    ensures
        from <= end <= to,
        bytes@.subrange(from as int, end as int) == grammar::trim(
            bytes@.subrange(from as int, to as int),
        ),
        end == from || !is_blank(bytes@[end - 1]),
{
    let mut e: usize = to;
    while e > from && (bytes[e - 1] == 0x20 || bytes[e - 1] == 0x09)
        invariant
            from <= e <= to <= bytes@.len(),
            grammar::trim(bytes@.subrange(from as int, e as int)) == grammar::trim(
                bytes@.subrange(from as int, to as int),
            ),
        decreases e,
    {
        assert(bytes@.subrange(from as int, e as int).drop_last() =~= bytes@.subrange(
            from as int,
            e - 1,
        ));
        e -= 1;
    }
    e
}

/// A longer run of digits writes no smaller number.
pub proof fn lemma_digits_grow(s: Seq<u8>, k: int)
    requires
        0 <= k <= s.len(),
    ensures
        grammar::digits_value(s.take(k)) <= grammar::digits_value(s),
    decreases s.len() - k,
{
    if k < s.len() {
        lemma_digits_grow(s, k + 1);
        assert(s.take(k + 1).drop_last() =~= s.take(k));
    } else {
        assert(s.take(k) =~= s);
    }
}

/// The number that the digits `bytes[from..to]` write, where it is at most `max`.
pub fn number(bytes: &[u8], from: usize, to: usize, max: u64) -> (r: Option<u64>)
    requires
        from <= to <= bytes@.len(),
        forall|j: int| from <= j < to ==> Class::Digit.has(#[trigger] bytes@[j]),
    ensures
        match r {
            Some(n) => n == grammar::digits_value(bytes@.subrange(from as int, to as int)) && n
                <= max,
            None => grammar::digits_value(bytes@.subrange(from as int, to as int)) > max,
        },
{
    let ghost s = bytes@.subrange(from as int, to as int);
    let mut acc: u64 = 0;
    let mut i: usize = from;
    while i < to
        invariant
            from <= i <= to <= bytes@.len(),
            s == bytes@.subrange(from as int, to as int),
            forall|j: int| from <= j < to ==> Class::Digit.has(#[trigger] bytes@[j]),
            acc == grammar::digits_value(s.take(i - from)),
            acc <= max,
        decreases to - i,
    {
        assert(Class::Digit.has(bytes@[i as int]));
        let d: u64 = (bytes[i] - 0x30) as u64;
        proof {
            assert(s.take(i + 1 - from).drop_last() =~= s.take(i - from));
            assert(s.take(i + 1 - from).last() == bytes@[i as int]);
        }
        if d > max || acc > (max - d) / 10 {
            proof {
                lemma_digits_grow(s, i + 1 - from);
            }
            return None;
        }
        acc = acc * 10 + d;
        i += 1;
    }
    assert(s.take(to - from) =~= s);
    Some(acc)
}

/// A run of word bytes, as long as it can be, without the blanks at its end.
pub fn space_separated<'a>(i: &'a str) -> (r: (&'a str, &'a str))
    ensures
        r.1.spec_bytes() == grammar::word(i.spec_bytes()).value,
        r.0.spec_bytes() == i.spec_bytes().skip(grammar::word(i.spec_bytes()).used as int),
{
    let bytes = i.as_bytes();
    let w = span(bytes, 0, Class::Word);
    let e = trim_end(bytes, 0, w);
    proof {
        assert(bytes@.skip(0) =~= bytes@);
        assert(bytes@.take(w as int) =~= bytes@.subrange(0, w as int));
    }
    let text = piece(i, 0, e);
    let (_, rest) = cut(i, w);
    (rest, text)
}

/// What the word `text` stands for: a number where it is made of digits
/// alone that an `i64` can hold, and else the text itself.
pub fn atom<'a>(text: &'a str) -> (r: Key<'a>)
    ensures
        r@ == grammar::atom(text.spec_bytes()),
{
    let bytes = text.as_bytes();
    if bytes.len() > 0 {
        let d = span(bytes, 0, Class::Digit);
        proof {
            assert(bytes@.skip(0) =~= bytes@);
            assert(bytes@.subrange(0, bytes@.len() as int) =~= bytes@);
        }
        if d == bytes.len() {
            if let Some(n) = number(bytes, 0, d, 0x7fff_ffff_ffff_ffff) {
                return Key::Num(n as i64);
            }
        }
    }
    Key::Str(text)
}

/// A scalar token: white space is skipped, then a word is read with the
/// blanks behind it. The word is a number where it is made of digits alone
/// that an `i64` can hold, and else a text.
pub fn key_like<'a>(i: &'a str) -> (r: (&'a str, Key<'a>))
    ensures
        r.1@ == grammar::key_like(i.spec_bytes()).value,
        r.0.spec_bytes() == i.spec_bytes().skip(grammar::key_like(i.spec_bytes()).used as int),
{
    let bytes = i.as_bytes();
    let g = span(bytes, 0, Class::Gap);
    proof {
        assert(bytes@.skip(0) =~= bytes@);
    }
    let (_, t) = cut(i, g);
    let (rest, text) = space_separated(t);
    proof {
        lemma_run_bytes(t.spec_bytes(), Class::Word);
        crate::scan::lemma_skip_skip(
            i.spec_bytes(),
            g as nat,
            grammar::word(t.spec_bytes()).used,
        );
    }
    (rest, atom(text))
}

/// The scalar `key` in the place of a value.
pub fn scalar<'a>(key: Key<'a>) -> (r: Value<'a>)
    ensures
        r@ == grammar::datum(key@),
{
    Value::from(key)
}

/// One or more scalar tokens with a comma between each two.
pub fn values<'a>(i: &'a str) -> (r: (&'a str, Vec<Value<'a>>))
    ensures
        items_of(r.1@) == grammar::values(i.spec_bytes()).value,
        r.0.spec_bytes() == i.spec_bytes().skip(grammar::values(i.spec_bytes()).used as int),
{
    let ghost s = i.spec_bytes();
    let (first, k) = key_like(i);
    let mut rest = first;
    let mut out: Vec<Value<'a>> = Vec::new();
    out.push(scalar(k));
    let ghost mut n: nat = grammar::key_like(s).used;
    proof {
        grammar::lemma_key_like_used(s);
        assert(items_of(out@) =~= seq![grammar::datum(k@)]);
    }
    loop
        invariant
            s == i.spec_bytes(),
            n <= s.len(),
            rest.spec_bytes() == s.skip(n as int),
            grammar::values(s).value == items_of(out@) + grammar::more_values(
                s.skip(n as int),
            ).value,
            grammar::values(s).used == n + grammar::more_values(s.skip(n as int)).used,
        ensures
            rest.spec_bytes().len() == 0 || rest.spec_bytes()[0] != 0x2c,
        decreases s.len() - n,
    {
        let bytes = rest.as_bytes();
        if bytes.len() == 0 || bytes[0] != 0x2c {
            break ;
        }
        let (_, after) = cut(rest, 1);
        let (next, k) = key_like(after);
        let ghost m = grammar::key_like(after.spec_bytes()).used;
        let ghost before = items_of(out@);
        out.push(scalar(k));
        rest = next;
        proof {
            grammar::lemma_key_like_used(after.spec_bytes());
            let cur = s.skip(n as int);
            assert(after.spec_bytes() == cur.skip(1));
            assert(cur.skip(1 + m as int) =~= s.skip((n + 1 + m) as int));
            assert(rest.spec_bytes() =~= s.skip((n + 1 + m) as int));
            assert(items_of(out@) =~= before + seq![grammar::datum(k@)]);
            let more = grammar::more_values(s.skip((n + 1 + m) as int)).value;
            assert(before + (seq![grammar::datum(k@)] + more) =~= items_of(out@) + more);
            n = n + 1 + m;
        }
    }
    proof {
        assert(items_of(out@) + Seq::<Datum>::empty() =~= items_of(out@));
    }
    (rest, out)
}

/// A value: a comma list where a comma follows the first token, else that
/// one token. Blanks may stand on both sides of a comma.
pub fn value<'a>(i: &'a str) -> (r: (&'a str, Value<'a>))
    ensures
        r.1@ == grammar::value(i.spec_bytes()).value,
        r.0.spec_bytes() == i.spec_bytes().skip(grammar::value(i.spec_bytes()).used as int),
{
    let (rest, k) = key_like(i);
    proof {
        grammar::lemma_key_like_used(i.spec_bytes());
    }
    let bytes = rest.as_bytes();
    if bytes.len() > 0 && bytes[0] == 0x2c {
        let (rest, items) = values(i);
        proof {
            lemma_array_view(items);
        }
        let list = Value::Array(items);
        (rest, list)
    } else {
        (rest, scalar(k))
    }
}

/// The ASCII character `c`, with blanks before and after it.
pub fn sign<'a>(i: &'a str, c: u8) -> (r: Result<&'a str, Error<'a>>)
    requires
        c < 0x80,
    ensures
        match (r, grammar::sign(i.spec_bytes(), c)) {
            (Ok(rest), Ok(n)) => rest.spec_bytes() == i.spec_bytes().skip(n as int),
            (Err(e), Err(m)) => reports(e, i.spec_bytes(), m),
            _ => false,
        },
{
    let bytes = i.as_bytes();
    let a = span(bytes, 0, Class::Blank);
    proof {
        assert(bytes@.skip(0) =~= bytes@);
    }
    if a < bytes.len() && bytes[a] == c {
        let b = span(bytes, a + 1, Class::Blank);
        let (_, rest) = cut(i, b);
        Ok(rest)
    } else {
        let (_, rest) = cut(i, a);
        Err(Error { input: rest, code: Rule::Char })
    }
}

/// A key, `=`, and a value.
pub fn key_value<'a>(i: &'a str) -> (r: Result<(&'a str, (Key<'a>, Value<'a>)), Error<'a>>)
    ensures
        match (r, grammar::key_value(i.spec_bytes())) {
            (Ok((rest, (k, v))), Ok(kv)) => {
                &&& k@ == kv.value.0
                &&& v@ == kv.value.1
                &&& rest.spec_bytes() == i.spec_bytes().skip(kv.used as int)
            },
            (Err(e), Err(m)) => reports(e, i.spec_bytes(), m),
            _ => false,
        },
{
    let ghost s = i.spec_bytes();
    let (after_key, k) = key_like(i);
    let ghost n = grammar::key_like(s).used;
    proof {
        grammar::lemma_key_like_used(s);
        grammar::lemma_sign_used(s.skip(n as int), 0x3d);
    }
    match sign(after_key, 0x3d) {
        Ok(after_sign) => {
            let (rest, v) = value(after_sign);
            proof {
                let a = grammar::sign(s.skip(n as int), 0x3d)->Ok_0;
                let u = grammar::value(s.skip((n + a) as int)).used;
                grammar::lemma_value_used(s.skip((n + a) as int));
                assert(s.skip(n as int).skip(a as int) =~= s.skip((n + a) as int));
                assert(s.skip((n + a) as int).skip(u as int) =~= s.skip((n + a + u) as int));
            }
            Ok((rest, (k, v)))
        },
        Err(e) => {
            proof {
                let m = grammar::sign(s.skip(n as int), 0x3d)->Err_0;
                assert(s.skip(n as int).skip(m.at as int) =~= s.skip((n + m.at) as int));
            }
            Err(e)
        },
    }
}

/// Where the words of the comment at the start of `bytes` begin and end; 0
/// and 0 where there is no comment.
fn comment_span(bytes: &[u8]) -> (r: (usize, usize))
    ensures
        r.1 == grammar::comment(bytes@),
        r.0 <= r.1 <= bytes@.len(),
        r.1 > 0 ==> r.0 == grammar::run(bytes@, Class::Gap) + 1,
        r.1 > 0 ==> bytes@[r.0 - 1] < 0x80,
        r.1 == 0 || r.1 == bytes@.len() || bytes@[r.1 as int] < 0x80,
{
    let g = span(bytes, 0, Class::Gap);
    proof {
        assert(bytes@.skip(0) =~= bytes@);
    }
    if g < bytes.len() && bytes[g] == 0x3b {
        let e = span(bytes, g + 1, Class::Prose);
        if e < bytes.len() {
            assert(!Class::Prose.has(bytes@[e as int]));
            if bytes[e] == 0x0d {
                if e + 1 < bytes.len() && bytes[e + 1] == 0x0a {
                    return (g + 1, e);
                }
                return (0, 0);
            }
        }
        return (g + 1, e);
    }
    (0, 0)
}

/// Where the comment at the start of `i` ends, and its words; 0 and nothing
/// where there is no comment.
fn comment<'a>(i: &'a str) -> (r: (usize, Option<&'a str>))
    ensures
        r.0 == grammar::comment(i.spec_bytes()),
        r.0 <= i.spec_bytes().len(),
        cuttable(i.spec_bytes(), r.0 as int),
        match (r.1, grammar::comment_text(i.spec_bytes())) {
            (Some(w), Some(t)) => w.spec_bytes() == t,
            (None, None) => true,
            _ => false,
        },
{
    let (from, to) = comment_span(i.as_bytes());
    if to > 0 {
        (to, Some(piece(i, from, to)))
    } else {
        (0, None)
    }
}

/// Where the line breaks that start at `from` end.
fn line_breaks(bytes: &[u8], from: usize) -> (end: usize)
    requires
        from <= bytes@.len(),
    ensures
        from <= end <= bytes@.len(),
        end - from == grammar::line_breaks(bytes@.skip(from as int)),
        end == from || bytes@[end - 1] == 0x0a,
{
    let ghost s = bytes@;
    let mut p: usize = from;
    loop
        invariant
            s == bytes@,
            from <= p <= s.len(),
            p == from || s[p - 1] == 0x0a,
            grammar::line_breaks(s.skip(from as int)) == (p - from) + grammar::line_breaks(
                s.skip(p as int),
            ),
        ensures
            grammar::line_break(s.skip(p as int)) == 0,
        decreases s.len() - p,
    {
        let ghost cur = s.skip(p as int);
        if p < bytes.len() && bytes[p] == 0x0a {
            proof {
                assert(cur.skip(1) =~= s.skip(p + 1));
            }
            p += 1;
        } else if p < bytes.len() && bytes.len() - p >= 2 && bytes[p] == 0x0d && bytes[p + 1]
            == 0x0a {
            proof {
                assert(cur.skip(2) =~= s.skip(p + 2));
            }
            p += 2;
        } else {
            break ;
        }
    }
    p
}

/// The end of a line: a comment, if there is one, and one or more line
/// breaks. Hands back the words of the comment.
pub fn eol<'a>(i: &'a str) -> (r: Result<(&'a str, Option<&'a str>), Error<'a>>)
    ensures
        match (r, grammar::eol(i.spec_bytes())) {
            (Ok((rest, words)), Ok(n)) => {
                &&& rest.spec_bytes() == i.spec_bytes().skip(n as int)
                &&& match (words, grammar::comment_text(i.spec_bytes())) {
                    (Some(w), Some(t)) => w.spec_bytes() == t,
                    (None, None) => true,
                    _ => false,
                }
            },
            (Err(e), Err(m)) => reports(e, i.spec_bytes(), m),
            _ => false,
        },
{
    let (c, words) = comment(i);
    let p = line_breaks(i.as_bytes(), c);
    let (_, rest) = cut(i, p);
    if p > c {
        Ok((rest, words))
    } else {
        Err(Error { input: rest, code: Rule::CrLf })
    }
}

/// The text after the end of the line, where `i` starts with one; else `i`.
pub fn opt_eol<'a>(i: &'a str) -> (r: &'a str)
    ensures
        r.spec_bytes() == i.spec_bytes().skip(grammar::opt_eol(i.spec_bytes()) as int),
{
    match eol(i) {
        Ok((rest, _)) => rest,
        Err(_) => {
            assert(i.spec_bytes().skip(0) =~= i.spec_bytes());
            i
        },
    }
}

/// The key/value lines of one group body, as many as follow one another. Of
/// two lines with one key the later one stays.
pub fn key_values<'a>(i: &'a str) -> (r: (&'a str, Group<'a>))
    ensures
        r.1@ == grammar::fold(grammar::key_values(i.spec_bytes()).value),
        r.0.spec_bytes() == i.spec_bytes().skip(
            grammar::key_values(i.spec_bytes()).used as int,
        ),
{
    let ghost s = i.spec_bytes();
    let mut rest = i;
    let mut group = Group::new();
    let ghost mut n: nat = 0;
    let ghost mut seen: grammar::Pairs = Seq::empty();
    proof {
        assert(s.skip(0) =~= s);
        assert(seen + grammar::key_values(s).value =~= grammar::key_values(s).value);
    }
    loop
        invariant
            s == i.spec_bytes(),
            n <= s.len(),
            rest.spec_bytes() == s.skip(n as int),
            group@ == grammar::fold(seen),
            grammar::key_values(s).value == seen + grammar::key_values(s.skip(n as int)).value,
            grammar::key_values(s).used == n + grammar::key_values(s.skip(n as int)).used,
        ensures
            grammar::key_value(s.skip(n as int)) is Err,
        decreases s.len() - n,
    {
        let ghost cur = s.skip(n as int);
        match key_value(rest) {
            Ok((after, (k, v))) => {
                let next = opt_eol(after);
                proof {
                    let kv = grammar::key_value(cur)->Ok_0;
                    let m = kv.used + grammar::opt_eol(cur.skip(kv.used as int));
                    grammar::lemma_key_value_used(cur);
                    grammar::lemma_eol_used(cur.skip(kv.used as int));
                    assert(cur.skip(kv.used as int).skip(
                        grammar::opt_eol(cur.skip(kv.used as int)) as int,
                    ) =~= cur.skip(m as int));
                    assert(cur.skip(m as int) =~= s.skip((n + m) as int));
                    let more = grammar::key_values(s.skip((n + m) as int)).value;
                    assert(seen + (seq![kv.value] + more) =~= seen.push(kv.value) + more);
                    grammar::lemma_fold_push(seen, k@, v@);
                    seen = seen.push(kv.value);
                    n = n + m;
                }
                group.insert(k, v);
                rest = next;
            },
            Err(_) => {
                break ;
            },
        }
    }
    proof {
        assert(seen + Seq::<(Atom, Datum)>::empty() =~= seen);
    }
    (rest, group)
}

/// A section header: `[`, a word, `]`. Hands back the word, which is the
/// section's name.
pub fn section<'a>(i: &'a str) -> (r: Result<(&'a str, &'a str), Error<'a>>)
    ensures
        match (r, grammar::section(i.spec_bytes())) {
            (Ok((rest, name)), Ok(h)) => {
                &&& name.spec_bytes() == h.value
                &&& rest.spec_bytes() == i.spec_bytes().skip(h.used as int)
            },
            (Err(e), Err(m)) => reports(e, i.spec_bytes(), m),
            _ => false,
        },
{
    let ghost s = i.spec_bytes();
    let bytes = i.as_bytes();
    if bytes.len() == 0 || bytes[0] != 0x5b {
        assert(s.skip(0) =~= s);
        return Err(Error { input: i, code: Rule::Char });
    }
    let (_, inner) = cut(i, 1);
    let (after, name) = space_separated(inner);
    proof {
        grammar::lemma_word_used(s.skip(1));
        let w = grammar::word(s.skip(1)).used;
        assert(s.skip(1).skip(w as int) =~= s.skip(1 + w as int));
    }
    let tail = after.as_bytes();
    if tail.len() > 0 && tail[0] == 0x5d {
        let (_, rest) = cut(after, 1);
        proof {
            let w = grammar::word(s.skip(1)).used;
            assert(s.skip(1 + w as int).skip(1) =~= s.skip((w + 2) as int));
        }
        Ok((rest, name))
    } else {
        Err(Error { input: after, code: Rule::Char })
    }
}

/// A section header with the end of its line, where it has one.
pub fn heading<'a>(i: &'a str) -> (r: Result<(&'a str, &'a str), Error<'a>>)
    ensures
        match (r, grammar::heading(i.spec_bytes())) {
            (Ok((rest, name)), Ok(h)) => {
                &&& name.spec_bytes() == h.value
                &&& rest.spec_bytes() == i.spec_bytes().skip(h.used as int)
            },
            (Err(e), Err(m)) => reports(e, i.spec_bytes(), m),
            _ => false,
        },
{
    let ghost s = i.spec_bytes();
    match section(i) {
        Ok((after, name)) => {
            let rest = opt_eol(after);
            proof {
                let h = grammar::section(s)->Ok_0;
                grammar::lemma_section_used(s);
                grammar::lemma_eol_used(s.skip(h.used as int));
                assert(s.skip(h.used as int).skip(grammar::opt_eol(s.skip(h.used as int)) as int)
                    =~= s.skip((h.used + grammar::opt_eol(s.skip(h.used as int))) as int));
            }
            Ok((rest, name))
        },
        Err(e) => Err(e),
    }
}

/// A section: its header and its body.
pub fn group<'a>(i: &'a str) -> (r: Result<(&'a str, (&'a str, Group<'a>)), Error<'a>>)
    ensures
        match (r, grammar::group(i.spec_bytes())) {
            (Ok((rest, (name, body))), Ok(g)) => {
                &&& name.spec_bytes() == g.value.0
                &&& body@ == grammar::fold(g.value.1)
                &&& rest.spec_bytes() == i.spec_bytes().skip(g.used as int)
            },
            (Err(e), Err(m)) => reports(e, i.spec_bytes(), m),
            _ => false,
        },
{
    let ghost s = i.spec_bytes();
    match heading(i) {
        Ok((after, name)) => {
            let (rest, body) = key_values(after);
            proof {
                let h = grammar::heading(s)->Ok_0;
                let b = grammar::key_values(s.skip(h.used as int));
                grammar::lemma_section_used(s);
                grammar::lemma_key_values_used(s.skip(h.used as int));
                assert(s.skip(h.used as int).skip(b.used as int) =~= s.skip(
                    (h.used + b.used) as int,
                ));
            }
            Ok((rest, (name, body)))
        },
        Err(e) => Err(e),
    }
}

/// One more section read: what `groups` says of the text, told from where
/// the next section starts.
proof fn lemma_groups_step(t: Seq<u8>, n: nat, seen: Seq<(Seq<u8>, grammar::Pairs)>)
    requires
        n <= t.len(),
        grammar::group(t.skip(n as int)) is Ok,
        grammar::groups(t).value == seen + grammar::groups(t.skip(n as int)).value,
        grammar::groups(t).used == n + grammar::groups(t.skip(n as int)).used,
    ensures
        ({
            let g = grammar::group(t.skip(n as int))->Ok_0;
            &&& n + g.used <= t.len()
            &&& t.skip(n as int).skip(g.used as int) == t.skip((n + g.used) as int)
            &&& grammar::groups(t).value == seen.push(g.value) + grammar::groups(
                t.skip((n + g.used) as int),
            ).value
            &&& grammar::groups(t).used == n + g.used + grammar::groups(
                t.skip((n + g.used) as int),
            ).used
            &&& grammar::fold(grammar::folded(seen.push(g.value))) == grammar::fold(
                grammar::folded(seen),
            ).insert(g.value.0, grammar::fold(g.value.1))
        }),
{
    let cur = t.skip(n as int);
    let g = grammar::group(cur)->Ok_0;
    grammar::lemma_group_used(cur);
    assert(cur.skip(g.used as int) =~= t.skip((n + g.used) as int));
    let more = grammar::groups(t.skip((n + g.used) as int)).value;
    assert(seen + (seq![g.value] + more) =~= seen.push(g.value) + more);
    assert(grammar::folded(seen.push(g.value)) =~= grammar::folded(seen).push(
        (g.value.0, grammar::fold(g.value.1)),
    ));
    grammar::lemma_fold_push(grammar::folded(seen), g.value.0, grammar::fold(g.value.1));
}

/// The sections that follow one another at the start of `i`. Of two sections
/// with one name the later one stays.
pub fn groups<'a>(i: &'a str) -> (r: (&'a str, Sections<'a>))
    ensures
        r.1@ == grammar::fold(grammar::folded(grammar::groups(i.spec_bytes()).value)),
        r.0.spec_bytes() == i.spec_bytes().skip(grammar::groups(i.spec_bytes()).used as int),
{
    let ghost t = i.spec_bytes();
    let mut rest = i;
    let mut named = Sections::new();
    let ghost mut n: nat = 0;
    let ghost mut seen: Seq<(Seq<u8>, grammar::Pairs)> = Seq::empty();
    proof {
        assert(t.skip(0) =~= t);
        assert(seen + grammar::groups(t).value =~= grammar::groups(t).value);
        assert(grammar::folded(seen) =~= Seq::empty());
    }
    loop
        invariant
            n <= t.len(),
            rest.spec_bytes() == t.skip(n as int),
            named@ == grammar::fold(grammar::folded(seen)),
            grammar::groups(t).value == seen + grammar::groups(t.skip(n as int)).value,
            grammar::groups(t).used == n + grammar::groups(t.skip(n as int)).used,
        ensures
            grammar::group(t.skip(n as int)) is Err,
        decreases t.len() - n,
    {
        match group(rest) {
            Ok((after, (name, body))) => {
                proof {
                    lemma_groups_step(t, n, seen);
                    let g = grammar::group(t.skip(n as int))->Ok_0;
                    seen = seen.push(g.value);
                    n = n + g.used;
                }
                named.insert(name, body);
                rest = after;
            },
            Err(_) => {
                break ;
            },
        }
    }
    proof {
        assert(seen + Seq::<(Seq<u8>, grammar::Pairs)>::empty() =~= seen);
    }
    (rest, named)
}

/// `_` is written with the one byte of an underscore.
pub proof fn lemma_anon_name()
    ensures
        "_".spec_bytes() == grammar::anon_name(),
{
    reveal_strlit("_");
    vstd::utf8::is_ascii_chars_encode_utf8("_"@);
    assert("_".spec_bytes() =~= grammar::anon_name());
}

/// The name under which the lines before the first section header are kept.
fn anon_name<'a>() -> (r: &'a str)
    ensures
        r.spec_bytes() == grammar::anon_name(),
{
    proof {
        lemma_anon_name();
    }
    "_"
}

/// The text after the body and the sections is the text after the document.
proof fn lemma_tables_rest(s: Seq<u8>)
    ensures
        grammar::tables_used(s) <= s.len(),
        s.skip(grammar::key_values(s).used as int).skip(
            grammar::groups(s.skip(grammar::key_values(s).used as int)).used as int,
        ) == s.skip(grammar::tables_used(s) as int),
{
    let b = grammar::key_values(s).used;
    let g = grammar::groups(s.skip(b as int)).used;
    grammar::lemma_key_values_used(s);
    grammar::lemma_groups_used(s.skip(b as int));
    crate::scan::lemma_skip_skip(s, b, g);
}

/// The whole document: the lines before the first section header, kept under
/// `_` where there are any, and then the sections. Hands back the text that
/// no rule took.
pub fn tables<'a>(i: &'a str) -> (r: (&'a str, Sections<'a>))
    ensures
        r.1@ == grammar::tables(i.spec_bytes()),
        r.0.spec_bytes() == i.spec_bytes().skip(grammar::tables_used(i.spec_bytes()) as int),
{
    let (after_body, anon) = key_values(i);
    let (rest, mut named) = groups(after_body);
    proof {
        lemma_tables_rest(i.spec_bytes());
        grammar::lemma_fold_empty(grammar::key_values(i.spec_bytes()).value);
    }
    if !anon.is_empty() {
        named.insert(anon_name(), anon);
    }
    (rest, named)
}

} // verus!
