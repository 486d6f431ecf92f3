//! The grammar, as functions of the bytes that are left to read.
//!
//! Each rule says how many leading bytes it takes (`used`) and what they stand
//! for (`value`). A rule that can fail says where it stopped and which rule
//! found nothing there. The recognisers of `parse` are proved against these.

pub use crate::scan::run;
use crate::scan::{is_blank, lemma_run_bytes, Class};
use vstd::prelude::*;

verus! {

/// What a scalar token stands for: a number, or the bytes of a text.
pub enum Atom {
    Num(i64),
    Text(Seq<u8>),
}

/// What a value stands for: a scalar, or the scalars of a comma list in order.
pub enum Datum {
    Num(i64),
    Text(Seq<u8>),
    List(Seq<Datum>),
}

/// The scalar `a` in the place of a value.
pub open spec fn datum(a: Atom) -> Datum {
    match a {
        Atom::Num(n) => Datum::Num(n),
        Atom::Text(t) => Datum::Text(t),
    }
}

/// What a rule read: what it stands for, and how many bytes it took.
pub struct Read<T> {
    pub value: T,
    pub used: nat,
}

/// The rule that found nothing to match.
#[derive(Clone, Copy, Debug, PartialEq, Eq, Hash)]
pub enum Rule {
    /// One given character was expected.
    Char,
    /// A line break was expected.
    CrLf,
}

/// Where a rule stopped: the rule, and how many bytes lie before the place.
pub struct Miss {
    pub rule: Rule,
    pub at: nat,
}

/// What the next identifier is: the name of a section header, or a key.
pub enum Mark {
    Section(Seq<u8>),
    Key(Atom),
}

/// The keys and values of one group, in the order in which they were written.
pub type Pairs = Seq<(Atom, Datum)>;

/// The number that the decimal digits `s` write.
pub open spec fn digits_value(s: Seq<u8>) -> nat
    decreases s.len(),
{
    if s.len() == 0 {
        0
    } else {
        digits_value(s.drop_last()) * 10 + (s.last() - 0x30) as nat
    }
}

/// `s` without the blanks at its end.
pub open spec fn trim(s: Seq<u8>) -> Seq<u8>
    decreases s.len(),
{
    if s.len() > 0 && is_blank(s.last()) {
        trim(s.drop_last())
    } else {
        s
    }
}

/// A run of word bytes, as long as it can be, without the blanks at its end.
/// It may be empty.
pub open spec fn word(s: Seq<u8>) -> Read<Seq<u8>> {
    let w = run(s, Class::Word);
    Read { value: trim(s.take(w as int)), used: w }
}

/// What the word `t` stands for: the number that it writes, where it is made
/// of decimal digits alone and an `i64` can hold the number, and else the
/// text that it is.
pub open spec fn atom(t: Seq<u8>) -> Atom {
    if t.len() > 0 && run(t, Class::Digit) == t.len() && digits_value(t) <= i64::MAX {
        Atom::Num(digits_value(t) as i64)
    } else {
        Atom::Text(t)
    }
}

/// A scalar token. White space before it is skipped; the token is the word
/// that follows, with the blanks behind it, and stands for what `atom` makes
/// of the word.
pub open spec fn key_like(s: Seq<u8>) -> Read<Atom> {
    let g = run(s, Class::Gap);
    let w = word(s.skip(g as int));
    Read { value: atom(w.value), used: g + w.used }
}

/// The rest of a comma list: as long as a comma comes next, the comma and one
/// more scalar token.
pub open spec fn more_values(s: Seq<u8>) -> Read<Seq<Datum>>
    decreases s.len(),
    via more_values_decreases
{
    if s.len() > 0 && s[0] == 0x2c {
        let k = key_like(s.skip(1));
        let r = more_values(s.skip(1 + k.used as int));
        Read { value: seq![datum(k.value)] + r.value, used: 1 + k.used + r.used }
    } else {
        Read { value: Seq::empty(), used: 0 }
    }
}

#[via_fn]
proof fn more_values_decreases(s: Seq<u8>) {
    if s.len() > 0 {
        lemma_key_like_used(s.skip(1));
    }
}

/// One or more scalar tokens with a comma between each two.
pub open spec fn values(s: Seq<u8>) -> Read<Seq<Datum>> {
    let k = key_like(s);
    let r = more_values(s.skip(k.used as int));
    Read { value: seq![datum(k.value)] + r.value, used: k.used + r.used }
}

/// A value: a comma list where a comma follows the first token, else that
/// one token. Blanks may stand on both sides of a comma: those before it
/// belong to the token, those after it are skipped before the next one.
pub open spec fn value(s: Seq<u8>) -> Read<Datum> {
    let k = key_like(s);
    if k.used < s.len() && s[k.used as int] == 0x2c {
        Read { value: Datum::List(values(s).value), used: values(s).used }
    } else {
        Read { value: datum(k.value), used: k.used }
    }
}

/// The character `c` with blanks before and after it, or where `c` was missed.
pub open spec fn sign(s: Seq<u8>, c: u8) -> Result<nat, Miss> {
    let a = run(s, Class::Blank);
    if a < s.len() && s[a as int] == c {
        Ok(a + 1 + run(s.skip(a + 1 as int), Class::Blank))
    } else {
        Err(Miss { rule: Rule::Char, at: a })
    }
}

/// A key, `=`, and a value.
pub open spec fn key_value(s: Seq<u8>) -> Result<Read<(Atom, Datum)>, Miss> {
    let k = key_like(s);
    match sign(s.skip(k.used as int), 0x3d) {
        Ok(n) => {
            let v = value(s.skip((k.used + n) as int));
            Ok(Read { value: (k.value, v.value), used: k.used + n + v.used })
        },
        Err(e) => Err(Miss { rule: e.rule, at: k.used + e.at }),
    }
}

/// One line break at the start of `s`: a line feed, or a carriage return and a
/// line feed. 0 where there is none.
pub open spec fn line_break(s: Seq<u8>) -> nat {
    if s.len() >= 1 && s[0] == 0x0a {
        1
    } else if s.len() >= 2 && s[0] == 0x0d && s[1] == 0x0a {
        2
    } else {
        0
    }
}

/// All the line breaks that follow one another at the start of `s`.
pub open spec fn line_breaks(s: Seq<u8>) -> nat
    decreases s.len(),
{
    let n = line_break(s);
    if n == 0 {
        0
    } else {
        n + line_breaks(s.skip(n as int))
    }
}

/// A comment: white space, `;`, and the rest of the line. 0 where there is
/// none, and where the line holds a carriage return that no line feed follows.
pub open spec fn comment(s: Seq<u8>) -> nat {
    let g = run(s, Class::Gap);
    if g < s.len() && s[g as int] == 0x3b {
        let e = g + 1 + run(s.skip(g + 1 as int), Class::Prose);
        if e < s.len() && s[e as int] == 0x0d && !(e + 1 < s.len() && s[e + 1 as int] == 0x0a) {
            0
        } else {
            e
        }
    } else {
        0
    }
}

/// The words of the comment, where there is one: what stands between `;` and
/// the end of the line.
pub open spec fn comment_text(s: Seq<u8>) -> Option<Seq<u8>> {
    if comment(s) > 0 {
        Some(s.subrange(run(s, Class::Gap) + 1 as int, comment(s) as int))
    } else {
        None
    }
}

/// The end of a line: a comment, if there is one, and one or more line breaks.
pub open spec fn eol(s: Seq<u8>) -> Result<nat, Miss> {
    let c = comment(s);
    let n = line_breaks(s.skip(c as int));
    if n > 0 {
        Ok(c + n)
    } else {
        Err(Miss { rule: Rule::CrLf, at: c })
    }
}

/// The end of a line where there is one, and nothing where there is none.
pub open spec fn opt_eol(s: Seq<u8>) -> nat {
    match eol(s) {
        Ok(n) => n,
        Err(_) => 0,
    }
}

/// The key/value lines of one group body, as many as follow one another, each
/// with the end of its line where it has one.
pub open spec fn key_values(s: Seq<u8>) -> Read<Pairs>
    decreases s.len(),
    via key_values_decreases
{
    match key_value(s) {
        Ok(kv) => {
            let n = kv.used + opt_eol(s.skip(kv.used as int));
            let r = key_values(s.skip(n as int));
            Read { value: seq![kv.value] + r.value, used: n + r.used }
        },
        Err(_) => Read { value: Seq::empty(), used: 0 },
    }
}

#[via_fn]
proof fn key_values_decreases(s: Seq<u8>) {
    lemma_key_value_used(s);
    if let Ok(kv) = key_value(s) {
        lemma_eol_used(s.skip(kv.used as int));
    }
}

/// A section header: `[`, a word, `]`. The word is the section's name, blanks
/// inside it included: in `[bar junk]` the name is `bar junk`, for a word ends
/// only where something else than a word byte stands.
pub open spec fn section(s: Seq<u8>) -> Result<Read<Seq<u8>>, Miss> {
    if s.len() > 0 && s[0] == 0x5b {
        let w = word(s.skip(1));
        if 1 + w.used < s.len() && s[1 + w.used as int] == 0x5d {
            Ok(Read { value: w.value, used: w.used + 2 })
        } else {
            Err(Miss { rule: Rule::Char, at: 1 + w.used })
        }
    } else {
        Err(Miss { rule: Rule::Char, at: 0 })
    }
}

/// A section header with the end of its line where it has one.
pub open spec fn heading(s: Seq<u8>) -> Result<Read<Seq<u8>>, Miss> {
    match section(s) {
        Ok(h) => Ok(Read { value: h.value, used: h.used + opt_eol(s.skip(h.used as int)) }),
        Err(e) => Err(e),
    }
}

/// A section: its header and its body.
pub open spec fn group(s: Seq<u8>) -> Result<Read<(Seq<u8>, Pairs)>, Miss> {
    match heading(s) {
        Ok(h) => {
            let b = key_values(s.skip(h.used as int));
            Ok(Read { value: (h.value, b.value), used: h.used + b.used })
        },
        Err(e) => Err(e),
    }
}

/// The sections that follow one another at the start of `s`.
pub open spec fn groups(s: Seq<u8>) -> Read<Seq<(Seq<u8>, Pairs)>>
    decreases s.len(),
    via groups_decreases
{
    match group(s) {
        Ok(g) => {
            let r = groups(s.skip(g.used as int));
            Read { value: seq![g.value] + r.value, used: g.used + r.used }
        },
        Err(_) => Read { value: Seq::empty(), used: 0 },
    }
}

#[via_fn]
proof fn groups_decreases(s: Seq<u8>) {
    lemma_group_used(s);
}

/// The next identifier. White space before it is skipped; a section header
/// (with the end of its line) comes before a key.
pub open spec fn ident(s: Seq<u8>) -> Read<Mark> {
    let g = run(s, Class::Gap);
    let t = s.skip(g as int);
    match heading(t) {
        Ok(h) => Read { value: Mark::Section(h.value), used: g + h.used },
        Err(_) => Read { value: Mark::Key(key_like(t).value), used: g + key_like(t).used },
    }
}

/// Whether nothing but white space is left.
pub open spec fn at_end(s: Seq<u8>) -> bool {
    run(s, Class::Gap) == s.len()
}

/// The mapping that a list of entries makes: of two entries with one key the
/// later one stays.
pub open spec fn fold<K, V>(p: Seq<(K, V)>) -> Map<K, V>
    decreases p.len(),
{
    if p.len() == 0 {
        Map::empty()
    } else {
        fold(p.drop_last()).insert(p.last().0, p.last().1)
    }
}

/// Each section with the mapping that its lines make.
pub open spec fn folded(g: Seq<(Seq<u8>, Pairs)>) -> Seq<(Seq<u8>, Map<Atom, Datum>)> {
    Seq::new(g.len(), |i: int| (g[i].0, fold(g[i].1)))
}

/// The name under which the lines before the first section header are kept: `_`.
pub open spec fn anon_name() -> Seq<u8> {
    seq![0x5fu8]
}

/// The whole document: the lines before the first header, kept under `_` where
/// there are any, and the sections after them.
pub open spec fn tables(s: Seq<u8>) -> Map<Seq<u8>, Map<Atom, Datum>> {
    let body = key_values(s);
    let named = fold(folded(groups(s.skip(body.used as int)).value));
    if body.value.len() > 0 {
        named.insert(anon_name(), fold(body.value))
    } else {
        named
    }
}

/// Entries make the empty mapping only where there are none.
pub proof fn lemma_fold_empty<K, V>(p: Seq<(K, V)>)
    ensures
        fold(p) == Map::<K, V>::empty() <==> p.len() == 0,
{
    if p.len() > 0 {
        assert(fold(p).contains_key(p.last().0));
    }
}

/// One more entry at the end is one more insertion.
pub proof fn lemma_fold_push<K, V>(p: Seq<(K, V)>, k: K, v: V)
    ensures
        fold(p.push((k, v))) == fold(p).insert(k, v),
{
    assert(p.push((k, v)).drop_last() =~= p);
}

/// How many bytes the rules of the whole document take.
pub open spec fn tables_used(s: Seq<u8>) -> nat {
    let body = key_values(s);
    body.used + groups(s.skip(body.used as int)).used
}

/// A word takes no more bytes than there are.
pub proof fn lemma_word_used(s: Seq<u8>)
    ensures
        word(s).used <= s.len(),
{
    lemma_run_bytes(s, Class::Word);
}

/// A scalar token takes no more bytes than there are.
pub proof fn lemma_key_like_used(s: Seq<u8>)
    ensures
        key_like(s).used <= s.len(),
{
    lemma_run_bytes(s, Class::Gap);
    lemma_run_bytes(s.skip(run(s, Class::Gap) as int), Class::Word);
}

/// The rest of a comma list takes no more bytes than there are.
pub proof fn lemma_more_values_used(s: Seq<u8>)
    ensures
        more_values(s).used <= s.len(),
    decreases s.len(),
{
    if s.len() > 0 && s[0] == 0x2c {
        let k = key_like(s.skip(1));
        lemma_key_like_used(s.skip(1));
        lemma_more_values_used(s.skip(1 + k.used as int));
    }
}

/// A value takes no more bytes than there are, and neither does a comma list.
pub proof fn lemma_value_used(s: Seq<u8>)
    ensures
        value(s).used <= s.len(),
        values(s).used <= s.len(),
{
    lemma_key_like_used(s);
    lemma_more_values_used(s.skip(key_like(s).used as int));
}

/// A sign takes no more bytes than there are, and at least its character.
pub proof fn lemma_sign_used(s: Seq<u8>, c: u8)
    ensures
        match sign(s, c) {
            Ok(n) => 1 <= n <= s.len(),
            Err(e) => e.at <= s.len(),
        },
{
    lemma_run_bytes(s, Class::Blank);
    let a = run(s, Class::Blank);
    if a < s.len() {
        lemma_run_bytes(s.skip(a + 1 as int), Class::Blank);
    }
}

/// A key/value line takes no more bytes than there are, and at least its `=`.
pub proof fn lemma_key_value_used(s: Seq<u8>)
    ensures
        match key_value(s) {
            Ok(kv) => 1 <= kv.used <= s.len(),
            Err(e) => e.at <= s.len(),
        },
{
    let k = key_like(s);
    lemma_key_like_used(s);
    lemma_sign_used(s.skip(k.used as int), 0x3d);
    if let Ok(n) = sign(s.skip(k.used as int), 0x3d) {
        lemma_value_used(s.skip((k.used + n) as int));
    }
}

/// Line breaks take no more bytes than there are, and there are some where
/// there is one.
pub proof fn lemma_line_breaks_used(s: Seq<u8>)
    ensures
        line_breaks(s) <= s.len(),
        line_breaks(s) > 0 <==> line_break(s) > 0,
    decreases s.len(),
{
    let n = line_break(s);
    if n > 0 {
        lemma_line_breaks_used(s.skip(n as int));
    }
}

/// A comment takes no more bytes than there are.
pub proof fn lemma_comment_used(s: Seq<u8>)
    ensures
        comment(s) <= s.len(),
{
    lemma_run_bytes(s, Class::Gap);
    let g = run(s, Class::Gap);
    if g < s.len() {
        lemma_run_bytes(s.skip(g + 1 as int), Class::Prose);
    }
}

/// The end of a line takes no more bytes than there are, and at least a line
/// break.
pub proof fn lemma_eol_used(s: Seq<u8>)
    ensures
        opt_eol(s) <= s.len(),
        match eol(s) {
            Ok(n) => 1 <= n <= s.len(),
            Err(e) => e.at <= s.len(),
        },
{
    lemma_comment_used(s);
    lemma_line_breaks_used(s.skip(comment(s) as int));
}

/// A group body takes no more bytes than there are.
pub proof fn lemma_key_values_used(s: Seq<u8>)
    ensures
        key_values(s).used <= s.len(),
    decreases s.len(),
{
    lemma_key_value_used(s);
    if let Ok(kv) = key_value(s) {
        lemma_eol_used(s.skip(kv.used as int));
        let n = kv.used + opt_eol(s.skip(kv.used as int));
        lemma_key_values_used(s.skip(n as int));
    }
}

/// A section header takes no more bytes than there are, and at least its two
/// brackets.
pub proof fn lemma_section_used(s: Seq<u8>)
    ensures
        match section(s) {
            Ok(h) => 2 <= h.used <= s.len(),
            Err(e) => e.at <= s.len(),
        },
        match heading(s) {
            Ok(h) => 2 <= h.used <= s.len(),
            Err(e) => e.at <= s.len(),
        },
{
    if s.len() > 0 {
        lemma_word_used(s.skip(1));
    }
    if let Ok(h) = section(s) {
        lemma_eol_used(s.skip(h.used as int));
    }
}

/// A section takes no more bytes than there are, and at least the two
/// brackets of its header.
pub proof fn lemma_group_used(s: Seq<u8>)
    ensures
        match group(s) {
            Ok(g) => 2 <= g.used <= s.len(),
            Err(e) => e.at <= s.len(),
        },
{
    lemma_section_used(s);
    if let Ok(h) = heading(s) {
        lemma_key_values_used(s.skip(h.used as int));
    }
}

/// Sections take no more bytes than there are.
pub proof fn lemma_groups_used(s: Seq<u8>)
    ensures
        groups(s).used <= s.len(),
    decreases s.len(),
{
    lemma_group_used(s);
    if let Ok(g) = group(s) {
        lemma_groups_used(s.skip(g.used as int));
    }
}

/// An identifier takes no more bytes than there are.
pub proof fn lemma_ident_used(s: Seq<u8>)
    ensures
        ident(s).used <= s.len(),
{
    lemma_run_bytes(s, Class::Gap);
    let t = s.skip(run(s, Class::Gap) as int);
    lemma_section_used(t);
    lemma_key_like_used(t);
}

} // verus!
