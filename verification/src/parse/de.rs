//! Looking ahead: what the next identifier is, whether the line or the text
//! ends here, and the two signs that a cursor reads between tokens.

use crate::grammar;
use crate::grammar::{Atom, Mark, Rule};
use crate::parse::{eol, heading, key_like, reports, sign, Error, Key};
use crate::scan::{cut, span, Class};
use vstd::prelude::*;
use vstd::string::*;

verus! {

/// An `Error` that owns the text at which the rule stopped.
#[derive(Debug)]
pub struct OwnedError {
    pub code: Rule,
    pub input: String,
}

impl OwnedError {
    /// The same report, with a copy of the text.
    pub fn of(value: Error<'_>) -> (r: Self)
        ensures
            r.code == value.code,
            r.input@ == value.input@,
    {
        OwnedError { code: value.code, input: value.input.to_owned() }
    }
}

impl<'a> From<Error<'a>> for OwnedError {
    fn from(value: Error<'a>) -> (r: Self) {
        OwnedError::of(value)
    }
}

impl<'a> vstd::std_specs::convert::FromSpecImpl<Error<'a>> for OwnedError {
    open spec fn obeys_from_spec() -> bool {
        false
    }

    open spec fn from_spec(value: Error<'a>) -> Self {
        arbitrary()
    }
}

/// The next identifier: the name of a section header, or a key.
#[derive(Debug, Clone, PartialEq, Eq, Hash)]
pub enum Ident<'a> {
    Section(&'a str),
    Key(Key<'a>),
}

impl<'a> View for Ident<'a> {
    type V = Mark;

    open spec fn view(&self) -> Mark {
        match self {
            Ident::Section(name) => Mark::Section(name.spec_bytes()),
            Ident::Key(key) => Mark::Key(key@),
        }
    }
}

/// A `Key` that owns its text.
#[derive(Debug, Clone, PartialEq, Eq, Hash)]
pub enum OwnedKey {
    Num(i64),
    Str(String),
}

impl View for OwnedKey {
    type V = Atom;

    open spec fn view(&self) -> Atom {
        match self {
            OwnedKey::Num(n) => Atom::Num(*n),
            OwnedKey::Str(s) => Atom::Text(vstd::utf8::encode_utf8(s@)),
        }
    }
}

impl OwnedKey {
    /// The same key, with a copy of the text.
    pub fn of(value: Key<'_>) -> (r: Self)
        ensures
            r@ == value@,
    {
        match value {
            Key::Num(n) => OwnedKey::Num(n),
            Key::Str(s) => OwnedKey::Str(s.to_owned()),
        }
    }
}

impl<'a> From<Key<'a>> for OwnedKey {
    fn from(value: Key<'a>) -> (r: Self) {
        OwnedKey::of(value)
    }
}

impl<'a> vstd::std_specs::convert::FromSpecImpl<Key<'a>> for OwnedKey {
    open spec fn obeys_from_spec() -> bool {
        false
    }

    open spec fn from_spec(value: Key<'a>) -> Self {
        arbitrary()
    }
}

/// The next identifier, and the text after it. White space before it is
/// skipped; a section header, with the end of its line, comes before a key.
pub fn ident<'a>(i: &'a str) -> (r: (&'a str, Ident<'a>))
    ensures
        r.1@ == grammar::ident(i.spec_bytes()).value,
        r.0.spec_bytes() == i.spec_bytes().skip(grammar::ident(i.spec_bytes()).used as int),
{
    let ghost s = i.spec_bytes();
    let bytes = i.as_bytes();
    let g = span(bytes, 0, Class::Gap);
    let (_, t) = cut(i, g);
    proof {
        assert(s.skip(0) =~= s);
        grammar::lemma_section_used(t.spec_bytes());
        grammar::lemma_key_like_used(t.spec_bytes());
    }
    match heading(t) {
        Ok((rest, name)) => {
            proof {
                let h = grammar::heading(t.spec_bytes())->Ok_0;
                assert(s.skip(g as int).skip(h.used as int) =~= s.skip((g + h.used) as int));
            }
            (rest, Ident::Section(name))
        },
        Err(_) => {
            let (rest, key) = key_like(t);
            proof {
                let k = grammar::key_like(t.spec_bytes());
                assert(s.skip(g as int).skip(k.used as int) =~= s.skip((g + k.used) as int));
            }
            (rest, Ident::Key(key))
        },
    }
}

/// What the next identifier is. Nothing is taken from `i`. Every text has a
/// next identifier, for a key may be empty.
pub fn peek_ident<'a>(i: &'a str) -> (r: Option<Ident<'a>>)
    ensures
        match r {
            Some(m) => m@ == grammar::ident(i.spec_bytes()).value,
            None => false,
        },
{
    let (_, found) = ident(i);
    Some(found)
}

/// The white space at the start of `i`, and the text after it.
pub fn skip_end<'a>(i: &'a str) -> (r: (&'a str, &'a str))
    ensures
        r.1.spec_bytes() == i.spec_bytes().take(grammar::run(i.spec_bytes(), Class::Gap) as int),
        r.0.spec_bytes() == i.spec_bytes().skip(grammar::run(i.spec_bytes(), Class::Gap) as int),
{
    let bytes = i.as_bytes();
    let g = span(bytes, 0, Class::Gap);
    proof {
        assert(bytes@.skip(0) =~= bytes@);
    }
    let (spaces, rest) = cut(i, g);
    (rest, spaces)
}

/// Whether nothing but white space is left.
pub fn peek_eof(i: &str) -> (r: bool)
    ensures
        r == grammar::at_end(i.spec_bytes()),
{
    let bytes = i.as_bytes();
    proof {
        assert(bytes@.skip(0) =~= bytes@);
    }
    span(bytes, 0, Class::Gap) == bytes.len()
}

/// Whether a line ends here.
pub fn peek_eol(i: &str) -> (r: bool)
    ensures
        r == (grammar::eol(i.spec_bytes()) is Ok),
{
    eol(i).is_ok()
}

/// `=` with blanks before and after it.
pub fn assignment<'a>(i: &'a str) -> (r: Result<(&'a str, char), Error<'a>>)
    ensures
        match (r, grammar::sign(i.spec_bytes(), 0x3d)) {
            (Ok((rest, c)), Ok(n)) => c == '=' && rest.spec_bytes() == i.spec_bytes().skip(
                n as int,
            ),
            (Err(e), Err(m)) => reports(e, i.spec_bytes(), m),
            _ => false,
        },
{
    match sign(i, 0x3d) {
        Ok(rest) => Ok((rest, '=')),
        Err(e) => Err(e),
    }
}

/// `,` with blanks before and after it.
pub fn comma<'a>(i: &'a str) -> (r: Result<(&'a str, char), Error<'a>>)
    ensures
        match (r, grammar::sign(i.spec_bytes(), 0x2c)) {
            (Ok((rest, c)), Ok(n)) => c == ',' && rest.spec_bytes() == i.spec_bytes().skip(
                n as int,
            ),
            (Err(e), Err(m)) => reports(e, i.spec_bytes(), m),
            _ => false,
        },
{
    match sign(i, 0x2c) {
        Ok(rest) => Ok((rest, ',')),
        Err(e) => Err(e),
    }
}

} // verus!
