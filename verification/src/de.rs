//! The cursor: what is left of the text, and the section under which the
//! reader stands. It answers one typed request at a time, takes the tokens
//! that the request needs and no more, and only ever moves forward.

use crate::grammar;
use crate::grammar::{Atom, Mark, Rule};
use crate::parse;
use crate::parse::de::{Ident, OwnedError, OwnedKey};
use crate::parse::Key;
use crate::scan::{same_text, span, Class};
use std::borrow::Cow;
use vstd::prelude::*;
use vstd::string::*;
use vstd::utf8::encode_utf8;

verus! {

/// Why a text does not write a number.
#[derive(Debug, Clone, Copy, PartialEq, Eq)]
pub enum NumError {
    /// The text is empty.
    Empty,
    /// The text holds something else than a decimal digit.
    InvalidDigit,
    /// The number is too large for the type that was asked for.
    PosOverflow,
}

/// Why a request could not be answered.
#[derive(Debug)]
pub enum Error {
    /// A rule of the grammar did not match.
    Parser(OwnedError),
    /// What the receiver of the values had to say.
    Message(String),
    /// Something else than white space is left after the value.
    TrailingCharacters,
    /// No `=` follows the key.
    ExpectAssignment(OwnedError),
    /// The token is no truth value.
    ExpectBool(OwnedKey),
    /// The token holds no character.
    ExpectChar(OwnedKey),
    /// The token is no number of the type that was asked for.
    ExpectNum(NumError),
    /// Neither a section header nor a key stands here.
    ExpectIdent(String),
    /// The grammar has no way to write a value of this kind.
    Unsupported(&'static str),
}

/// What an `Error` says, as the contracts speak of it. A text that the
/// grammar stopped at is given by its bytes.
pub enum Fault {
    Parser(Rule, Seq<u8>),
    Message(Seq<char>),
    TrailingCharacters,
    ExpectAssignment(Rule, Seq<u8>),
    ExpectBool(Atom),
    ExpectChar(Atom),
    ExpectNum(NumError),
    ExpectIdent(Seq<u8>),
    Unsupported(Seq<char>),
}

impl View for Error {
    type V = Fault;

    open spec fn view(&self) -> Fault {
        match self {
            Error::Parser(e) => Fault::Parser(e.code, encode_utf8(e.input@)),
            Error::Message(m) => Fault::Message(m@),
            Error::TrailingCharacters => Fault::TrailingCharacters,
            Error::ExpectAssignment(e) => Fault::ExpectAssignment(e.code, encode_utf8(e.input@)),
            Error::ExpectBool(k) => Fault::ExpectBool(k@),
            Error::ExpectChar(k) => Fault::ExpectChar(k@),
            Error::ExpectNum(e) => Fault::ExpectNum(*e),
            Error::ExpectIdent(t) => Fault::ExpectIdent(encode_utf8(t@)),
            Error::Unsupported(kind) => Fault::Unsupported(kind@),
        }
    }
}

impl<'a> From<parse::Error<'a>> for Error {
    fn from(value: parse::Error<'a>) -> (r: Self) {
        Error::Parser(OwnedError::of(value))
    }
}

impl<'a> vstd::std_specs::convert::FromSpecImpl<parse::Error<'a>> for Error {
    open spec fn obeys_from_spec() -> bool {
        false
    }

    open spec fn from_spec(value: parse::Error<'a>) -> Self {
        arbitrary()
    }
}

impl From<NumError> for Error {
    fn from(value: NumError) -> (r: Self) {
        Error::ExpectNum(value)
    }
}

impl vstd::std_specs::convert::FromSpecImpl<NumError> for Error {
    open spec fn obeys_from_spec() -> bool {
        true
    }

    open spec fn from_spec(value: NumError) -> Self {
        Error::ExpectNum(value)
    }
}

/// The kinds of value that the grammar has no way to write.
#[derive(Debug, Clone, Copy, PartialEq, Eq)]
pub enum Kind {
    F32,
    F64,
    Bytes,
    ByteBuf,
    Unit,
    UnitStruct,
}

impl Kind {
    /// The name under which a request for this kind is refused.
    pub open spec fn name(self) -> Seq<char> {
        match self {
            Kind::F32 => "f32"@,
            Kind::F64 => "f64"@,
            Kind::Bytes => "bytes"@,
            Kind::ByteBuf => "byte buf"@,
            Kind::Unit => "unit"@,
            Kind::UnitStruct => "unit struct"@,
        }
    }

    /// The answer to a request for a value of this kind. Nothing is read.
    pub fn refuse(self) -> (e: Error)
        ensures
            e@ == Fault::Unsupported(self.name()),
    {
        match self {
            Kind::F32 => Error::Unsupported("f32"),
            Kind::F64 => Error::Unsupported("f64"),
            Kind::Bytes => Error::Unsupported("bytes"),
            Kind::ByteBuf => Error::Unsupported("byte buf"),
            Kind::Unit => Error::Unsupported("unit"),
            Kind::UnitStruct => Error::Unsupported("unit struct"),
        }
    }
}

/// The number that the text `t` writes in decimal digits alone, where it is
/// at most `max`. Too large a number is told before a byte that is no digit.
pub open spec fn decimal(t: Seq<u8>, max: nat) -> Result<nat, NumError> {
    let d = grammar::run(t, Class::Digit);
    if t.len() == 0 {
        Err(NumError::Empty)
    } else if grammar::digits_value(t.take(d as int)) > max {
        Err(NumError::PosOverflow)
    } else if d < t.len() {
        Err(NumError::InvalidDigit)
    } else {
        Ok(grammar::digits_value(t))
    }
}

/// The number that `text` writes in decimal digits alone, where it is at most `max`.
pub fn read_decimal(text: &str, max: u64) -> (r: Result<u64, NumError>)
    ensures
        match (r, decimal(text.spec_bytes(), max as nat)) {
            (Ok(n), Ok(m)) => n == m && n <= max,
            (Err(e), Err(f)) => e == f,
            _ => false,
        },
{
    let bytes = text.as_bytes();
    if bytes.len() == 0 {
        return Err(NumError::Empty);
    }
    let d = span(bytes, 0, Class::Digit);
    proof {
        assert(bytes@.skip(0) =~= bytes@);
        assert(bytes@.take(d as int) =~= bytes@.subrange(0, d as int));
    }
    match parse::number(bytes, 0, d, max) {
        None => Err(NumError::PosOverflow),
        Some(n) => {
            if d < bytes.len() {
                Err(NumError::InvalidDigit)
            } else {
                assert(bytes@.take(d as int) =~= bytes@);
                Ok(n)
            }
        },
    }
}

/// The character that writes the digit `d`.
pub open spec fn digit_char(d: nat) -> char {
    if d == 0 {
        '0'
    } else if d == 1 {
        '1'
    } else if d == 2 {
        '2'
    } else if d == 3 {
        '3'
    } else if d == 4 {
        '4'
    } else if d == 5 {
        '5'
    } else if d == 6 {
        '6'
    } else if d == 7 {
        '7'
    } else if d == 8 {
        '8'
    } else {
        '9'
    }
}

/// The number `n` written in decimal digits, without a leading zero.
pub open spec fn numeral(n: nat) -> Seq<char>
    decreases n,
{
    if n < 10 {
        seq![digit_char(n)]
    } else {
        numeral(n / 10).push(digit_char(n % 10))
    }
}

fn digit_text(d: u64) -> (r: &'static str)
    requires
        d < 10,
    ensures
        r@ == seq![digit_char(d as nat)],
{
    proof {
        reveal_strlit("0");
        reveal_strlit("1");
        reveal_strlit("2");
        reveal_strlit("3");
        reveal_strlit("4");
        reveal_strlit("5");
        reveal_strlit("6");
        reveal_strlit("7");
        reveal_strlit("8");
        reveal_strlit("9");
    }
    let r = if d == 0 {
        "0"
    } else if d == 1 {
        "1"
    } else if d == 2 {
        "2"
    } else if d == 3 {
        "3"
    } else if d == 4 {
        "4"
    } else if d == 5 {
        "5"
    } else if d == 6 {
        "6"
    } else if d == 7 {
        "7"
    } else if d == 8 {
        "8"
    } else {
        "9"
    };
    assert(r@ =~= seq![digit_char(d as nat)]);
    r
}

/// `n` written in decimal digits.
pub fn write_decimal(n: u64) -> (r: String)
    ensures
        r@ == numeral(n as nat),
    decreases n,
{
    if n < 10 {
        String::from_str(digit_text(n))
    } else {
        let head = write_decimal(n / 10);
        let r = head.concat(digit_text(n % 10));
        assert(r@ =~= numeral(n as nat));
        r
    }
}

/// `n` written in decimal digits, with `-` before it where it is below 0.
pub open spec fn signed_numeral(n: int) -> Seq<char> {
    if n < 0 {
        seq!['-'] + numeral((-n) as nat)
    } else {
        numeral(n as nat)
    }
}

/// `n` written in decimal digits, with `-` before it where it is below 0.
pub fn write_signed(n: i64) -> (r: String)
    ensures
        r@ == signed_numeral(n as int),
{
    if n < 0 {
        proof {
            reveal_strlit("-");
            assert("-"@ =~= seq!['-']);
        }
        let magnitude: u64 = (-(n + 1)) as u64 + 1;
        String::from_str("-").concat(write_decimal(magnitude).as_str())
    } else {
        write_decimal(n as u64)
    }
}

/// The text `s` as `{:?}` writes it: between quotes, and with `\` before
/// what would end the text or could not be seen.
pub uninterp spec fn quoted(s: Seq<char>) -> Seq<char>;

/// `format!` with `{:?}`, which is std's `Debug` for `str`, writes a text
/// between quotes and with its escapes; what it writes depends on the text
/// alone.
#[verifier::external_body]
fn quote(s: &str) -> (r: String)
    ensures
        r@ == quoted(s@),
{
    format!("{:?}", s)
}

/// The name of a rule.
pub open spec fn rule_name(rule: Rule) -> Seq<char> {
    match rule {
        Rule::Char => "Char"@,
        Rule::CrLf => "CrLf"@,
    }
}

/// The name of a reason.
pub open spec fn reason_name(reason: NumError) -> Seq<char> {
    match reason {
        NumError::Empty => "Empty"@,
        NumError::InvalidDigit => "InvalidDigit"@,
        NumError::PosOverflow => "PosOverflow"@,
    }
}

/// What is said of a rule that did not match: the rule, and the text at
/// which it stopped.
pub open spec fn miss_text(e: OwnedError) -> Seq<char> {
    "error "@ + rule_name(e.code) + " at: "@ + e.input@
}

/// What is said of a token that was found in place of another.
pub open spec fn key_text(key: OwnedKey) -> Seq<char> {
    match key {
        OwnedKey::Num(n) => "Num("@ + signed_numeral(n as int) + ")"@,
        OwnedKey::Str(s) => "Str("@ + quoted(s@) + ")"@,
    }
}

/// What an error says in words.
pub open spec fn message_of(e: Error) -> Seq<char> {
    match e {
        Error::Message(msg) => msg@,
        Error::TrailingCharacters => "junk at end of input"@,
        Error::Parser(e) => miss_text(e),
        Error::ExpectAssignment(e) => "expected assignment, found "@ + miss_text(e),
        Error::ExpectBool(key) => "expected bool, found "@ + key_text(key),
        Error::ExpectChar(key) => "expected char, found "@ + key_text(key),
        Error::ExpectNum(reason) => "expected number, found ParseIntError { kind: "@
            + reason_name(reason) + " }"@,
        Error::ExpectIdent(text) => "expected number, found "@ + quoted(text@),
        Error::Unsupported(kind) => kind@ + " is not unsupported"@,
    }
}

impl OwnedError {
    /// What the report says in words.
    pub fn message(&self) -> (r: String)
        ensures
            r@ == miss_text(*self),
    {
        let rule = match self.code {
            Rule::Char => "Char",
            Rule::CrLf => "CrLf",
        };
        String::from_str("error ").concat(rule).concat(" at: ").concat(self.input.as_str())
    }
}

fn write_key(key: &OwnedKey) -> (r: String)
    ensures
        r@ == key_text(*key),
{
    match key {
        OwnedKey::Num(n) => String::from_str("Num(").concat(write_signed(*n).as_str()).concat(
            ")",
        ),
        OwnedKey::Str(s) => String::from_str("Str(").concat(quote(s.as_str()).as_str()).concat(
            ")",
        ),
    }
}

impl Error {
    /// What the error says in words.
    pub fn message(&self) -> (r: String)
        ensures
            r@ == message_of(*self),
    {
        match self {
            Error::Message(msg) => msg.clone(),
            Error::TrailingCharacters => String::from_str("junk at end of input"),
            Error::Parser(e) => e.message(),
            Error::ExpectAssignment(e) => String::from_str("expected assignment, found ").concat(
                e.message().as_str(),
            ),
            Error::ExpectBool(key) => String::from_str("expected bool, found ").concat(
                write_key(key).as_str(),
            ),
            Error::ExpectChar(key) => String::from_str("expected char, found ").concat(
                write_key(key).as_str(),
            ),
            Error::ExpectNum(reason) => {
                let name = match reason {
                    NumError::Empty => "Empty",
                    NumError::InvalidDigit => "InvalidDigit",
                    NumError::PosOverflow => "PosOverflow",
                };
                String::from_str("expected number, found ParseIntError { kind: ").concat(
                    name,
                ).concat(" }")
            },
            Error::ExpectIdent(text) => String::from_str("expected number, found ").concat(
                quote(text.as_str()).as_str(),
            ),
            Error::Unsupported(kind) => String::from_str(kind).concat(" is not unsupported"),
        }
    }
}

/// The truth value that a token writes: `true`, `True`, `TRUE` and 1 for
/// true, `false`, `False`, `FALSE` and 0 for false, and no other.
pub open spec fn truth(a: Atom) -> Option<bool> {
    match a {
        Atom::Text(t) => {
            if t == "true".spec_bytes() || t == "True".spec_bytes() || t == "TRUE".spec_bytes() {
                Some(true)
            } else if t == "false".spec_bytes() || t == "False".spec_bytes() || t
                == "FALSE".spec_bytes() {
                Some(false)
            } else {
                None
            }
        },
        Atom::Num(n) => {
            if n == 1 {
                Some(true)
            } else if n == 0 {
                Some(false)
            } else {
                None
            }
        },
    }
}

/// The variant of an enum that a token picks: by its name, or by its place
/// in the list of variants, counted from 0.
#[derive(Debug, Clone, PartialEq, Eq)]
pub enum Variant<'de> {
    Name(&'de str),
    Index(u32),
}

/// What `next_key` found.
#[derive(Debug, Clone, Copy, PartialEq, Eq)]
pub enum Step {
    /// The map ends here: the text does, or a section follows that is not
    /// this map's to read.
    End,
    /// A section header follows, and its name is the next key.
    Section,
    /// A key follows, and after it `=` and the key's value.
    Key,
}

/// What `next_key` finds in the text `s`, for a map that stands under a
/// section (`nested`) or at the top.
pub open spec fn key_step(s: Seq<u8>, nested: bool) -> Step {
    if grammar::at_end(s) {
        Step::End
    } else {
        match grammar::ident(s).value {
            Mark::Section(_) => if nested {
                Step::End
            } else {
                Step::Section
            },
            Mark::Key(_) => Step::Key,
        }
    }
}

/// What a map does with the identifier that it found where `remaining` is
/// left of the text: it ends before a section header where it stands under
/// a section itself, it reads a section header as its next key where it is
/// at the top, and it reads a key. Where no identifier was found, the text
/// that is left is to blame.
pub fn choose_step(found: Option<Ident<'_>>, nested: bool, remaining: &str) -> (r: Result<
    Step,
    Error,
>)
    ensures
        match found {
            Some(Ident::Section(_)) => r matches Ok(step) && step == if nested {
                Step::End
            } else {
                Step::Section
            },
            Some(Ident::Key(_)) => r matches Ok(step) && step == Step::Key,
            None => r matches Err(e) && e@ == Fault::ExpectIdent(remaining.spec_bytes()),
        },
{
    match found {
        Some(Ident::Section(_)) => {
            if nested {
                Ok(Step::End)
            } else {
                Ok(Step::Section)
            }
        },
        Some(Ident::Key(_)) => Ok(Step::Key),
        None => Err(Error::ExpectIdent(remaining.to_owned())),
    }
}

/// Whether a list that is read from the text `s` is over: at the end of the
/// line, at the end of the text, and before a section header.
pub open spec fn list_ends(s: Seq<u8>) -> bool {
    grammar::eol(s) is Ok || grammar::at_end(s) || grammar::ident(s).value is Section
}

/// The cursor over a text.
#[derive(Debug)]
pub struct Deserializer<'de> {
    input: &'de str,
    ident: Option<&'de str>,
}

impl<'de> Deserializer<'de> {
    /// The bytes that are left to read.
    pub closed spec fn text(&self) -> Seq<u8> {
        self.input.spec_bytes()
    }

    /// The name of the section under which the reader stands, once it has
    /// read a section header as a key.
    pub closed spec fn section(&self) -> Option<Seq<u8>> {
        match self.ident {
            Some(name) => Some(name.spec_bytes()),
            None => None,
        }
    }

    /// A cursor at the start of `input`, under no section.
    pub fn from_str(input: &'de str) -> (r: Self)
        ensures
            r.text() == input.spec_bytes(),
            r.section() is None,
    {
        Deserializer { input, ident: None }
    }

    /// The text that is left to read.
    pub fn remaining(&self) -> (r: &'de str)
        ensures
            r.spec_bytes() == self.text(),
    {
        self.input
    }

    /// The name of the section under which the reader stands, if any.
    pub fn enclosing(&self) -> (r: Option<&'de str>)
        ensures
            match r {
                Some(name) => self.section() == Some(name.spec_bytes()),
                None => self.section() is None,
            },
    {
        self.ident
    }

    /// Whether nothing but white space is left.
    pub fn is_finished(&self) -> (r: bool)
        ensures
            r == grammar::at_end(self.text()),
    {
        parse::de::peek_eof(self.input)
    }

    /// The check after a whole value was read: nothing but white space may
    /// be left.
    pub fn finish(&self) -> (r: Result<(), Error>)
        ensures
            grammar::at_end(self.text()) ==> r is Ok,
            !grammar::at_end(self.text()) ==> (r matches Err(e) && e@ == Fault::TrailingCharacters),
    {
        if self.is_finished() {
            Ok(())
        } else {
            Err(Error::TrailingCharacters)
        }
    }

    /// What the next identifier is. The cursor stays where it is.
    pub fn peek_ident(&self) -> (r: Option<Ident<'de>>)
        ensures
            r matches Some(m) && m@ == grammar::ident(self.text()).value,
    {
        parse::de::peek_ident(self.input)
    }

    /// Reads one scalar token.
    pub fn parse_key_like(&mut self) -> (r: Result<Key<'de>, Error>)
        ensures
            r matches Ok(k) && k@ == grammar::key_like(old(self).text()).value,
            final(self).text() == old(self).text().skip(
                grammar::key_like(old(self).text()).used as int,
            ),
            final(self).section() == old(self).section(),
    {
        let (rest, key) = parse::key_like(self.input);
        self.input = rest;
        Ok(key)
    }

    /// Reads the next identifier: a section header with the end of its line,
    /// or else a key.
    pub fn parse_ident(&mut self) -> (r: Result<Ident<'de>, Error>)
        ensures
            r matches Ok(m) && m@ == grammar::ident(old(self).text()).value,
            final(self).text() == old(self).text().skip(
                grammar::ident(old(self).text()).used as int,
            ),
            final(self).section() == old(self).section(),
    {
        let (rest, found) = parse::de::ident(self.input);
        self.input = rest;
        Ok(found)
    }

    /// Reads `=`, with the blanks around it. Where something else stands
    /// there, says at which text, and stays.
    pub fn parse_assignment(&mut self) -> (r: Result<char, Error>)
        ensures
            final(self).section() == old(self).section(),
            match grammar::sign(old(self).text(), 0x3d) {
                Ok(n) => {
                    &&& r matches Ok(c) && c == '='
                    &&& final(self).text() == old(self).text().skip(n as int)
                },
                Err(m) => {
                    &&& r matches Err(e) && e@ == Fault::ExpectAssignment(
                        m.rule,
                        old(self).text().skip(m.at as int),
                    )
                    &&& final(self).text() == old(self).text()
                },
            },
    {
        match parse::de::assignment(self.input) {
            Ok((rest, c)) => {
                self.input = rest;
                Ok(c)
            },
            Err(e) => Err(Error::ExpectAssignment(OwnedError::of(e))),
        }
    }

    /// Reads `,`, with the blanks around it. Where something else stands
    /// there, says at which text, and stays.
    pub fn parse_comma(&mut self) -> (r: Result<char, Error>)
        ensures
            final(self).section() == old(self).section(),
            match grammar::sign(old(self).text(), 0x2c) {
                Ok(n) => {
                    &&& r matches Ok(c) && c == ','
                    &&& final(self).text() == old(self).text().skip(n as int)
                },
                Err(m) => {
                    &&& r matches Err(e) && e@ == Fault::Parser(
                        m.rule,
                        old(self).text().skip(m.at as int),
                    )
                    &&& final(self).text() == old(self).text()
                },
            },
    {
        match parse::de::comma(self.input) {
            Ok((rest, c)) => {
                self.input = rest;
                Ok(c)
            },
            Err(e) => Err(Error::Parser(OwnedError::of(e))),
        }
    }

    /// Reads the end of the line, where one stands here, and says whether
    /// one did.
    pub fn check_eol(&mut self) -> (r: bool)
        ensures
            r == (grammar::eol(old(self).text()) is Ok),
            final(self).text() == old(self).text().skip(
                grammar::opt_eol(old(self).text()) as int,
            ),
            final(self).section() == old(self).section(),
    {
        match parse::eol(self.input) {
            Ok((rest, _)) => {
                self.input = rest;
                true
            },
            Err(_) => {
                assert(self.text().skip(0) =~= self.text());
                false
            },
        }
    }

    /// Says whether nothing but white space is left, and if so drops it.
    pub fn check_eof(&mut self) -> (r: bool)
        ensures
            r == grammar::at_end(old(self).text()),
            r ==> final(self).text() == Seq::<u8>::empty(),
            !r ==> final(self).text() == old(self).text(),
            final(self).section() == old(self).section(),
    {
        if parse::de::peek_eof(self.input) {
            self.done();
            true
        } else {
            false
        }
    }

    /// Drops what is left of the text.
    pub fn done(&mut self)
        ensures
            final(self).text() == Seq::<u8>::empty(),
            final(self).section() == old(self).section(),
    {
        let (head, _) = crate::scan::cut(self.input, 0);
        assert(head.spec_bytes() =~= Seq::<u8>::empty());
        self.input = head;
    }

    /// Reads a signed number. A token of digits is the number; a text is not
    /// one, and the reason says why.
    pub fn deserialize_i64(&mut self) -> (r: Result<i64, Error>)
        ensures
            final(self).text() == old(self).text().skip(
                grammar::key_like(old(self).text()).used as int,
            ),
            final(self).section() == old(self).section(),
            match grammar::key_like(old(self).text()).value {
                Atom::Num(n) => r matches Ok(v) && v == n,
                Atom::Text(t) => match decimal(t, i64::MAX as nat) {
                    Ok(n) => r matches Ok(v) && v == n,
                    Err(f) => r matches Err(e) && e@ == Fault::ExpectNum(f),
                },
            },
    {
        let (rest, key) = parse::key_like(self.input);
        self.input = rest;
        match key {
            Key::Num(n) => Ok(n),
            Key::Str(s) => match read_decimal(s, 0x7fff_ffff_ffff_ffff) {
                Ok(n) => Ok(n as i64),
                Err(e) => Err(Error::ExpectNum(e)),
            },
        }
    }

    /// Reads an unsigned number. A token of digits is the number; a text is
    /// read as decimal digits, which may write more than an `i64` holds.
    pub fn deserialize_u64(&mut self) -> (r: Result<u64, Error>)
        ensures
            final(self).text() == old(self).text().skip(
                grammar::key_like(old(self).text()).used as int,
            ),
            final(self).section() == old(self).section(),
            match grammar::key_like(old(self).text()).value {
                Atom::Num(n) => r matches Ok(v) && v == n,
                Atom::Text(t) => match decimal(t, u64::MAX as nat) {
                    Ok(n) => r matches Ok(v) && v == n,
                    Err(f) => r matches Err(e) && e@ == Fault::ExpectNum(f),
                },
            },
    {
        let (rest, key) = parse::key_like(self.input);
        self.input = rest;
        match key {
            Key::Num(n) => Ok(n as u64),
            Key::Str(s) => match read_decimal(s, 0xffff_ffff_ffff_ffff) {
                Ok(n) => Ok(n),
                Err(e) => Err(Error::ExpectNum(e)),
            },
        }
    }

    /// Reads a text. A text token is handed out as it stands in the input;
    /// a number is written out in decimal digits.
    pub fn deserialize_str(&mut self) -> (r: Result<Cow<'de, str>, Error>)
        ensures
            final(self).text() == old(self).text().skip(
                grammar::key_like(old(self).text()).used as int,
            ),
            final(self).section() == old(self).section(),
            match grammar::key_like(old(self).text()).value {
                Atom::Text(t) => r matches Ok(Cow::Borrowed(s)) && s.spec_bytes() == t,
                Atom::Num(n) => r matches Ok(Cow::Owned(s)) && s@ == numeral(n as nat),
            },
    {
        let (rest, key) = parse::key_like(self.input);
        self.input = rest;
        match key {
            Key::Str(s) => Ok(Cow::Borrowed(s)),
            Key::Num(n) => Ok(Cow::Owned(write_decimal(n as u64))),
        }
    }

    /// Reads a character: the first one of a text token, which is one byte,
    /// as all of a token are. A number and an empty text hold none.
    pub fn deserialize_char(&mut self) -> (r: Result<char, Error>)
        ensures
            final(self).text() == old(self).text().skip(
                grammar::key_like(old(self).text()).used as int,
            ),
            final(self).section() == old(self).section(),
            match grammar::key_like(old(self).text()).value {
                Atom::Text(t) => if t.len() > 0 {
                    r matches Ok(c) && c == t[0] as char
                } else {
                    r matches Err(e) && e@ == Fault::ExpectChar(Atom::Text(t))
                },
                Atom::Num(n) => r matches Err(e) && e@ == Fault::ExpectChar(Atom::Num(n)),
            },
    {
        let (rest, key) = parse::key_like(self.input);
        self.input = rest;
        match key {
            Key::Str(s) => {
                let bytes = s.as_bytes();
                if bytes.len() > 0 {
                    Ok(bytes[0] as char)
                } else {
                    Err(Error::ExpectChar(OwnedKey::of(key)))
                }
            },
            Key::Num(_) => Err(Error::ExpectChar(OwnedKey::of(key))),
        }
    }

    /// Reads a truth value: see `truth`.
    pub fn deserialize_bool(&mut self) -> (r: Result<bool, Error>)
        ensures
            final(self).text() == old(self).text().skip(
                grammar::key_like(old(self).text()).used as int,
            ),
            final(self).section() == old(self).section(),
            match truth(grammar::key_like(old(self).text()).value) {
                Some(b) => r matches Ok(v) && v == b,
                None => r matches Err(e) && e@ == Fault::ExpectBool(
                    grammar::key_like(old(self).text()).value,
                ),
            },
    {
        let (rest, key) = parse::key_like(self.input);
        self.input = rest;
        let found = match key {
            Key::Str(s) => {
                if same_text(s, "true") || same_text(s, "True") || same_text(s, "TRUE") {
                    Some(true)
                } else if same_text(s, "false") || same_text(s, "False") || same_text(s, "FALSE") {
                    Some(false)
                } else {
                    None
                }
            },
            Key::Num(n) => {
                if n == 1 {
                    Some(true)
                } else if n == 0 {
                    Some(false)
                } else {
                    None
                }
            },
        };
        match found {
            Some(b) => Ok(b),
            None => Err(Error::ExpectBool(OwnedKey::of(key))),
        }
    }

    /// Reads the variant of an enum: a text token names it, a number counts
    /// to it from 0. A number beyond `u32::MAX` counts to no variant, and is
    /// refused as too large.
    pub fn deserialize_enum(&mut self) -> (r: Result<Variant<'de>, Error>)
        ensures
            final(self).text() == old(self).text().skip(
                grammar::key_like(old(self).text()).used as int,
            ),
            final(self).section() == old(self).section(),
            match grammar::key_like(old(self).text()).value {
                Atom::Text(t) => r matches Ok(Variant::Name(s)) && s.spec_bytes() == t,
                Atom::Num(n) => if n <= u32::MAX {
                    r matches Ok(Variant::Index(i)) && i == n
                } else {
                    r matches Err(e) && e@ == Fault::ExpectNum(NumError::PosOverflow)
                },
            },
    {
        let (rest, key) = parse::key_like(self.input);
        self.input = rest;
        match key {
            Key::Str(s) => Ok(Variant::Name(s)),
            Key::Num(n) => {
                if n <= 0xffff_ffff {
                    Ok(Variant::Index(n as u32))
                } else {
                    Err(Error::ExpectNum(NumError::PosOverflow))
                }
            },
        }
    }

    /// Reads the next identifier as a key. The name of a section header is a
    /// key too, and from then on the reader stands under that section.
    pub fn deserialize_identifier(&mut self) -> (r: Result<Key<'de>, Error>)
        ensures
            final(self).text() == old(self).text().skip(
                grammar::ident(old(self).text()).used as int,
            ),
            match grammar::ident(old(self).text()).value {
                Mark::Key(a) => {
                    &&& r matches Ok(k) && k@ == a
                    &&& final(self).section() == old(self).section()
                },
                Mark::Section(name) => {
                    &&& r matches Ok(k) && k@ == Atom::Text(name)
                    &&& final(self).section() == Some(name)
                },
            },
    {
        let (rest, found) = parse::de::ident(self.input);
        self.input = rest;
        match found {
            Ident::Key(key) => Ok(key),
            Ident::Section(name) => {
                self.ident = Some(name);
                Ok(Key::Str(name))
            },
        }
    }

    /// What a map finds next: see `key_step`. Nothing is read but the white
    /// space at the end of the text. After `Step::Section` and `Step::Key`
    /// the key is there to be read, and after the key of `Step::Key` the `=`.
    /// There is always a next identifier, so this never fails.
    pub fn next_key(&mut self, nested: bool) -> (r: Result<Step, Error>)
        ensures
            r matches Ok(step) && step == key_step(old(self).text(), nested),
            final(self).text() == if grammar::at_end(old(self).text()) {
                Seq::<u8>::empty()
            } else {
                old(self).text()
            },
            final(self).section() == old(self).section(),
    {
        if self.check_eof() {
            return Ok(Step::End);
        }
        choose_step(self.peek_ident(), nested, self.input)
    }

    /// What follows a key that a map has read: nothing after the name of a
    /// section, and `=` after any other key.
    pub fn end_key(&mut self, step: Step) -> (r: Result<(), Error>)
        ensures
            final(self).section() == old(self).section(),
            step != Step::Key ==> r is Ok && final(self).text() == old(self).text(),
            step == Step::Key ==> match grammar::sign(old(self).text(), 0x3d) {
                Ok(n) => r is Ok && final(self).text() == old(self).text().skip(n as int),
                Err(m) => {
                    &&& r matches Err(e) && e@ == Fault::ExpectAssignment(
                        m.rule,
                        old(self).text().skip(m.at as int),
                    )
                    &&& final(self).text() == old(self).text()
                },
            },
    {
        match step {
            Step::Key => match self.parse_assignment() {
                Ok(_) => Ok(()),
                Err(e) => Err(e),
            },
            _ => Ok(()),
        }
    }

    /// What follows a value that a map has read: the end of the line, where
    /// one stands there.
    pub fn end_value(&mut self)
        ensures
            final(self).text() == old(self).text().skip(
                grammar::opt_eol(old(self).text()) as int,
            ),
            final(self).section() == old(self).section(),
    {
        self.check_eol();
    }

    /// Whether a list has one more item: see `list_ends`. The end of the line
    /// is read, and so is, before every item but the first, the comma.
    pub fn next_element(&mut self, first: bool) -> (r: Result<bool, Error>)
        ensures
            final(self).section() == old(self).section(),
            list_ends(old(self).text()) ==> {
                &&& r matches Ok(more) && !more
                &&& final(self).text() == if grammar::eol(old(self).text()) is Ok {
                    old(self).text().skip(grammar::opt_eol(old(self).text()) as int)
                } else if grammar::at_end(old(self).text()) {
                    Seq::<u8>::empty()
                } else {
                    old(self).text()
                }
            },
            !list_ends(old(self).text()) && first ==> {
                &&& r matches Ok(more) && more
                &&& final(self).text() == old(self).text()
            },
            !list_ends(old(self).text()) && !first ==> match grammar::sign(
                old(self).text(),
                0x2c,
            ) {
                Ok(n) => {
                    &&& r matches Ok(more) && more
                    &&& final(self).text() == old(self).text().skip(n as int)
                },
                Err(m) => {
                    &&& r matches Err(e) && e@ == Fault::Parser(
                        m.rule,
                        old(self).text().skip(m.at as int),
                    )
                    &&& final(self).text() == old(self).text()
                },
            },
    {
        if self.check_eol() {
            return Ok(false);
        }
        assert(self.text() =~= old(self).text()) by {
            assert(old(self).text().skip(0) =~= old(self).text());
        }
        if self.check_eof() {
            return Ok(false);
        }
        if let Some(Ident::Section(_)) = self.peek_ident() {
            return Ok(false);
        }
        if !first {
            match self.parse_comma() {
                Ok(_) => {},
                Err(e) => {
                    return Err(e);
                },
            }
        }
        Ok(true)
    }
}

} // verus!
