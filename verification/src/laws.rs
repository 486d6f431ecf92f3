//! What holds of the grammar and of the cursor on every text.

use crate::de::{decimal, key_step, truth, Step};
use crate::grammar::{
    anon_name, digits_value, fold, heading, ident, key_like, key_value, key_values, section,
    tables, trim, word, Atom, Datum, Mark,
};
use crate::scan::{is_blank, is_gap, is_word, lemma_run_bytes, lemma_run_is, run, Class};
use vstd::prelude::*;
use vstd::string::*;

verus! {

/// To trim is to keep a prefix that does not end in a blank.
pub proof fn lemma_trim_is_prefix(s: Seq<u8>)
    ensures
        trim(s).len() <= s.len(),
        trim(s) == s.take(trim(s).len() as int),
        trim(s).len() == 0 || !is_blank(trim(s).last()),
    decreases s.len(),
{
    if s.len() > 0 && is_blank(s.last()) {
        lemma_trim_is_prefix(s.drop_last());
        assert(s.drop_last().take(trim(s).len() as int) =~= s.take(trim(s).len() as int));
    } else {
        assert(s.take(s.len() as int) =~= s);
    }
}

/// The word of the first token of `s`: the word bytes that follow the white
/// space, without the blanks at their end.
pub open spec fn token_word(s: Seq<u8>) -> Seq<u8> {
    word(s.skip(run(s, Class::Gap) as int)).value
}

/// The word of a token is made of letters, digits, blanks and underscores
/// alone, so each of its bytes is one ASCII character. It neither starts nor
/// ends with white space, and it is where the text after the white space
/// starts.
pub proof fn law_tokens_are_ascii(s: Seq<u8>)
    ensures
        forall|j: int|
            0 <= j < token_word(s).len() ==> is_word(#[trigger] token_word(s)[j]) && token_word(
                s,
            )[j] < 0x80,
        token_word(s).len() > 0 ==> !is_gap(token_word(s)[0]) && !is_blank(token_word(s).last()),
        token_word(s).len() <= s.len() - run(s, Class::Gap),
        token_word(s) == s.skip(run(s, Class::Gap) as int).take(token_word(s).len() as int),
{
    let t = token_word(s);
    let g = run(s, Class::Gap);
    let rest = s.skip(g as int);
    let w = run(rest, Class::Word);
    lemma_run_bytes(s, Class::Gap);
    lemma_run_bytes(rest, Class::Word);
    lemma_trim_is_prefix(rest.take(w as int));
    assert(t == trim(rest.take(w as int)));
    assert(t =~= rest.take(t.len() as int));
    assert forall|j: int| 0 <= j < t.len() implies is_word(#[trigger] t[j]) && t[j] < 0x80 by {
        assert(t[j] == rest.take(w as int)[j]);
        assert(Class::Word.has(rest[j]));
    }
    if t.len() > 0 {
        assert(t[0] == rest[0]);
        assert(rest[0] == s[g as int]);
        assert(!Class::Gap.has(s[g as int]));
    }
}

/// Whether the bytes `t` are decimal digits alone, and one at least.
pub open spec fn digits_alone(t: Seq<u8>) -> bool {
    t.len() > 0 && run(t, Class::Digit) == t.len()
}

/// A token of digits alone is the number that they write, in the place of a
/// key as in any other: as a scalar, as the next identifier, and as the key
/// of a key/value line. The number must be one that an `i64` holds.
pub proof fn law_digits_are_a_number(s: Seq<u8>)
    requires
        digits_alone(token_word(s)),
        digits_value(token_word(s)) <= i64::MAX,
    ensures
        key_like(s).value == Atom::Num(digits_value(token_word(s)) as i64),
        ident(s).value == Mark::Key(Atom::Num(digits_value(token_word(s)) as i64)),
        key_value(s) matches Ok(kv) ==> kv.value.0 == Atom::Num(
            digits_value(token_word(s)) as i64,
        ),
{
    let g = run(s, Class::Gap);
    let t = s.skip(g as int);
    law_tokens_are_ascii(s);
    lemma_run_bytes(s, Class::Gap);
    lemma_run_bytes(token_word(s), Class::Digit);
    assert(token_word(s)[0] == t[0]);
    assert(Class::Digit.has(t[0]));
    assert(section(t) is Err);
    assert(heading(t) is Err);
    // no white space is left at the start of `t`
    assert(!Class::Gap.has(t[0]));
    lemma_run_is(t, Class::Gap, 0);
    assert(t.skip(0) =~= t);
}

/// Nothing but a token of digits alone is a number: a token that holds a
/// letter, an underscore or a blank between two of its bytes is the text that
/// it is, digits and all, and so is the empty token.
pub proof fn law_only_digits_are_a_number(s: Seq<u8>)
    ensures
        key_like(s).value is Num <==> digits_alone(token_word(s)) && digits_value(token_word(s))
            <= i64::MAX,
        key_like(s).value is Text ==> key_like(s).value == Atom::Text(token_word(s)),
{
}

/// Digits that write more than an `i64` holds are no number: the token is
/// the text that they are.
pub proof fn law_large_digits_are_a_word(s: Seq<u8>)
    requires
        digits_value(token_word(s)) > i64::MAX,
    ensures
        key_like(s).value == Atom::Text(token_word(s)),
{
}

/// A text token never reads as a signed number: it is empty, or it holds
/// something else than a digit, or its digits write too much.
pub proof fn law_text_is_no_i64(s: Seq<u8>)
    ensures
        key_like(s).value matches Atom::Text(t) ==> decimal(t, i64::MAX as nat) is Err,
{
    let t = token_word(s);
    lemma_run_bytes(t, Class::Digit);
    assert(t.take(t.len() as int) =~= t);
}

/// A token takes the blanks behind its word with it, so that what follows a
/// token is no blank.
pub proof fn law_no_blank_follows_a_token(s: Seq<u8>)
    ensures
        key_like(s).used == s.len() || !is_blank(s[key_like(s).used as int]),
{
    let g = run(s, Class::Gap);
    let rest = s.skip(g as int);
    lemma_run_bytes(s, Class::Gap);
    lemma_run_bytes(rest, Class::Word);
    let w = run(rest, Class::Word);
    if w < rest.len() {
        assert(rest[w as int] == s[(g + w) as int]);
        assert(!Class::Word.has(rest[w as int]));
    }
}

/// Where no section header stands, the cursor reads as the next identifier
/// the very key that the grammar reads at the start of a key/value line, and
/// stops where the grammar stops.
pub proof fn law_key_is_read_alike(s: Seq<u8>)
    requires
        heading(s.skip(run(s, Class::Gap) as int)) is Err,
    ensures
        ident(s).value == Mark::Key(key_like(s).value),
        ident(s).used == key_like(s).used,
{
    let g = run(s, Class::Gap);
    let t = s.skip(g as int);
    lemma_run_bytes(s, Class::Gap);
    if t.len() > 0 {
        assert(t[0] == s[g as int]);
    }
    lemma_run_is(t, Class::Gap, 0);
    assert(t.skip(0) =~= t);
}

/// Of the entries with one key, the last one gives the key its value.
pub proof fn law_later_entry_stays<K, V>(p: Seq<(K, V)>, i: int)
    requires
        0 <= i < p.len(),
        forall|j: int| i < j < p.len() ==> (#[trigger] p[j]).0 != p[i].0,
    ensures
        fold(p).contains_key(p[i].0),
        fold(p)[p[i].0] == p[i].1,
    decreases p.len(),
{
    if i < p.len() - 1 {
        let q = p.drop_last();
        assert(p[p.len() - 1].0 != p[i].0);
        assert forall|j: int| i < j < q.len() implies (#[trigger] q[j]).0 != q[i].0 by {
            assert(p[j].0 != p[i].0);
        }
        law_later_entry_stays(q, i);
    }
}

/// Whatever the cursor reads, it reads from the front of what is left and
/// no more than is left: what is left afterwards is an end of what was left
/// before.
pub proof fn law_cursor_moves_forward(s: Seq<u8>)
    ensures
        key_like(s).used <= s.len(),
        ident(s).used <= s.len(),
        crate::grammar::opt_eol(s) <= s.len(),
        crate::grammar::sign(s, 0x3d) matches Ok(n) ==> n <= s.len(),
        crate::grammar::sign(s, 0x2c) matches Ok(n) ==> n <= s.len(),
{
    crate::grammar::lemma_key_like_used(s);
    crate::grammar::lemma_ident_used(s);
    crate::grammar::lemma_eol_used(s);
    crate::grammar::lemma_sign_used(s, 0x3d);
    crate::grammar::lemma_sign_used(s, 0x2c);
}

/// The lines before the first section header are kept under `_`.
pub proof fn law_lines_before_sections(s: Seq<u8>)
    requires
        key_values(s).value.len() > 0,
    ensures
        tables(s).contains_key(anon_name()),
        tables(s)[anon_name()] == fold(key_values(s).value),
{
}

/// Where no line stands before the first section header, the document holds
/// its sections and nothing else, so `_` is a name like any other.
pub proof fn law_no_lines_before_sections(s: Seq<u8>)
    requires
        key_values(s).value.len() == 0,
    ensures
        tables(s) == fold(crate::grammar::folded(crate::grammar::groups(s).value)),
{
    crate::grammar::lemma_key_values_used(s);
    assert(key_values(s).used == 0);
    assert(s.skip(0) =~= s);
}

/// Whether the text `t` is trimmed: no blank stands at its end.
pub open spec fn tidy_text(t: Seq<u8>) -> bool {
    t.len() == 0 || !is_blank(t.last())
}

/// Whether `a` is a number or a trimmed text.
pub open spec fn tidy_atom(a: Atom) -> bool {
    a matches Atom::Text(t) ==> tidy_text(t)
}

/// Whether `d` is a number or a trimmed text, and no list.
pub open spec fn tidy_scalar(d: Datum) -> bool {
    match d {
        Datum::Num(_) => true,
        Datum::Text(t) => tidy_text(t),
        Datum::List(_) => false,
    }
}

/// Whether `d` is a number, a trimmed text, or a flat list of such: a list
/// holds no list.
pub open spec fn tidy_datum(d: Datum) -> bool {
    match d {
        Datum::List(items) => forall|i: int| 0 <= i < items.len() ==> tidy_scalar(#[trigger] items[i]),
        _ => tidy_scalar(d),
    }
}

/// Whether the entry `e` has a tidy key and a tidy value.
pub open spec fn tidy_pair(e: (Atom, Datum)) -> bool {
    tidy_atom(e.0) && tidy_datum(e.1)
}

/// Whether every key and every value of the group `g` is tidy.
pub open spec fn tidy_group(g: Map<Atom, Datum>) -> bool {
    forall|k: Atom| #[trigger] g.contains_key(k) ==> tidy_atom(k) && tidy_datum(g[k])
}

/// A word is trimmed.
pub proof fn lemma_word_is_tidy(s: Seq<u8>)
    ensures
        tidy_text(word(s).value),
{
    lemma_trim_is_prefix(s.take(run(s, Class::Word) as int));
}

/// A scalar token is a number or a trimmed text.
pub proof fn lemma_token_is_tidy(s: Seq<u8>)
    ensures
        tidy_atom(key_like(s).value),
        tidy_scalar(crate::grammar::datum(key_like(s).value)),
{
    lemma_word_is_tidy(s.skip(run(s, Class::Gap) as int));
}

/// The items of a comma list are numbers and trimmed texts.
pub proof fn lemma_list_is_tidy(s: Seq<u8>)
    ensures
        forall|i: int|
            0 <= i < crate::grammar::more_values(s).value.len() ==> tidy_scalar(
                #[trigger] crate::grammar::more_values(s).value[i],
            ),
    decreases s.len(),
{
    if s.len() > 0 && s[0] == 0x2c {
        let k = key_like(s.skip(1));
        crate::grammar::lemma_key_like_used(s.skip(1));
        lemma_token_is_tidy(s.skip(1));
        lemma_list_is_tidy(s.skip(1 + k.used as int));
        let rest = crate::grammar::more_values(s.skip(1 + k.used as int)).value;
        let all = crate::grammar::more_values(s).value;
        assert(all == seq![crate::grammar::datum(k.value)] + rest);
        assert forall|i: int| 0 <= i < all.len() implies tidy_scalar(#[trigger] all[i]) by {
            if i > 0 {
                assert(all[i] == rest[i - 1]);
            }
        }
    }
}

/// A value is a number, a trimmed text, or a flat list of such.
pub proof fn lemma_value_is_tidy(s: Seq<u8>)
    ensures
        tidy_datum(crate::grammar::value(s).value),
{
    let k = key_like(s);
    lemma_token_is_tidy(s);
    lemma_list_is_tidy(s.skip(k.used as int));
    let rest = crate::grammar::more_values(s.skip(k.used as int)).value;
    let all = crate::grammar::values(s).value;
    assert(all == seq![crate::grammar::datum(k.value)] + rest);
    assert forall|i: int| 0 <= i < all.len() implies tidy_scalar(#[trigger] all[i]) by {
        if i > 0 {
            assert(all[i] == rest[i - 1]);
        }
    }
}

/// The lines of a group body have tidy keys and tidy values.
pub proof fn lemma_lines_are_tidy(s: Seq<u8>)
    ensures
        forall|i: int|
            0 <= i < key_values(s).value.len() ==> tidy_pair(#[trigger] key_values(s).value[i]),
    decreases s.len(),
{
    crate::grammar::lemma_key_value_used(s);
    if let Ok(kv) = key_value(s) {
        let k = key_like(s);
        lemma_token_is_tidy(s);
        let n = crate::grammar::sign(s.skip(k.used as int), 0x3d)->Ok_0;
        lemma_value_is_tidy(s.skip((k.used + n) as int));
        crate::grammar::lemma_eol_used(s.skip(kv.used as int));
        let m = kv.used + crate::grammar::opt_eol(s.skip(kv.used as int));
        lemma_lines_are_tidy(s.skip(m as int));
        let rest = key_values(s.skip(m as int)).value;
        let all = key_values(s).value;
        assert(all == seq![kv.value] + rest);
        assert forall|i: int| 0 <= i < all.len() implies tidy_pair(#[trigger] all[i]) by {
            if i > 0 {
                assert(all[i] == rest[i - 1]);
            }
        }
    }
}

/// What entries make holds nothing but what the entries hold.
pub proof fn lemma_fold_is_of_entries<K, V>(p: Seq<(K, V)>, k: K)
    requires
        fold(p).contains_key(k),
    ensures
        exists|i: int| 0 <= i < p.len() && #[trigger] p[i] == (k, fold(p)[k]),
    decreases p.len(),
{
    if p.len() > 0 {
        if p.last().0 == k {
            assert(p[p.len() - 1] == (k, fold(p)[k]));
        } else {
            let q = p.drop_last();
            lemma_fold_is_of_entries(q, k);
            let i = choose|i: int| 0 <= i < q.len() && #[trigger] q[i] == (k, fold(q)[k]);
            assert(p[i] == (k, fold(p)[k]));
        }
    }
}

/// Tidy lines make a tidy group.
pub proof fn lemma_group_is_tidy(p: crate::grammar::Pairs)
    requires
        forall|i: int| 0 <= i < p.len() ==> tidy_pair(#[trigger] p[i]),
    ensures
        tidy_group(fold(p)),
{
    assert forall|k: Atom| #[trigger] fold(p).contains_key(k) implies tidy_atom(k) && tidy_datum(
        fold(p)[k],
    ) by {
        lemma_fold_is_of_entries(p, k);
        let i = choose|i: int| 0 <= i < p.len() && #[trigger] p[i] == (k, fold(p)[k]);
        assert(tidy_pair(p[i]));
    }
}

/// The sections of a text have trimmed names and tidy groups.
pub proof fn lemma_sections_are_tidy(s: Seq<u8>)
    ensures
        forall|i: int|
            0 <= i < crate::grammar::groups(s).value.len() ==> {
                &&& tidy_text((#[trigger] crate::grammar::groups(s).value[i]).0)
                &&& tidy_group(fold(crate::grammar::groups(s).value[i].1))
            },
    decreases s.len(),
{
    crate::grammar::lemma_group_used(s);
    if let Ok(g) = crate::grammar::group(s) {
        let h = heading(s)->Ok_0;
        if s.len() > 0 {
            lemma_word_is_tidy(s.skip(1));
        }
        lemma_lines_are_tidy(s.skip(h.used as int));
        lemma_group_is_tidy(g.value.1);
        lemma_sections_are_tidy(s.skip(g.used as int));
        let rest = crate::grammar::groups(s.skip(g.used as int)).value;
        let all = crate::grammar::groups(s).value;
        assert(all == seq![g.value] + rest);
        assert forall|i: int| 0 <= i < all.len() implies {
            &&& tidy_text((#[trigger] all[i]).0)
            &&& tidy_group(fold(all[i].1))
        } by {
            if i > 0 {
                assert(all[i] == rest[i - 1]);
            }
        }
    }
}

/// In a whole document every name of a section, every key and every text is
/// trimmed, and every list is flat: it holds numbers and texts, and no list.
pub proof fn law_document_is_tidy(s: Seq<u8>)
    ensures
        forall|name: Seq<u8>| #[trigger]
            tables(s).contains_key(name) ==> tidy_text(name) && tidy_group(tables(s)[name]),
{
    let body = key_values(s);
    crate::grammar::lemma_key_values_used(s);
    let t = s.skip(body.used as int);
    let sections = crate::grammar::groups(t).value;
    let named = fold(crate::grammar::folded(sections));
    lemma_lines_are_tidy(s);
    lemma_group_is_tidy(body.value);
    lemma_sections_are_tidy(t);
    assert forall|name: Seq<u8>| #[trigger] tables(s).contains_key(name) implies tidy_text(name)
        && tidy_group(tables(s)[name]) by {
        if body.value.len() > 0 && name == anon_name() {
            assert(tables(s)[name] == fold(body.value));
        } else {
            assert(named.contains_key(name));
            assert(tables(s)[name] == named[name]);
            lemma_fold_is_of_entries(crate::grammar::folded(sections), name);
            let i = choose|i: int|
                0 <= i < sections.len() && #[trigger] crate::grammar::folded(sections)[i] == (
                    name,
                    named[name],
                );
            assert(crate::grammar::folded(sections)[i] == (sections[i].0, fold(sections[i].1)));
            assert(tidy_text(sections[i].0));
        }
    }
}

/// The six words and the two numbers that write a truth value.
pub proof fn law_truth_table()
    ensures
        truth(Atom::Text("true".spec_bytes())) == Some(true),
        truth(Atom::Text("True".spec_bytes())) == Some(true),
        truth(Atom::Text("TRUE".spec_bytes())) == Some(true),
        truth(Atom::Num(1)) == Some(true),
        truth(Atom::Text("false".spec_bytes())) == Some(false),
        truth(Atom::Text("False".spec_bytes())) == Some(false),
        truth(Atom::Text("FALSE".spec_bytes())) == Some(false),
        truth(Atom::Num(0)) == Some(false),
        forall|n: i64| n != 0 && n != 1 ==> truth(Atom::Num(n)) is None,
{
    reveal_strlit("true");
    reveal_strlit("True");
    reveal_strlit("TRUE");
    reveal_strlit("false");
    reveal_strlit("False");
    reveal_strlit("FALSE");
    vstd::utf8::is_ascii_chars_encode_utf8("true"@);
    vstd::utf8::is_ascii_chars_encode_utf8("True"@);
    vstd::utf8::is_ascii_chars_encode_utf8("TRUE"@);
    vstd::utf8::is_ascii_chars_encode_utf8("false"@);
    vstd::utf8::is_ascii_chars_encode_utf8("False"@);
    vstd::utf8::is_ascii_chars_encode_utf8("FALSE"@);
}

/// A map under a section ends before the next section header, and a map at
/// the top reads the header as its next key.
pub proof fn law_section_boundary(s: Seq<u8>)
    requires
        !crate::grammar::at_end(s),
        ident(s).value is Section,
    ensures
        key_step(s, true) == Step::End,
        key_step(s, false) == Step::Section,
{
}

} // verus!
