//! A small configuration format with sections, typed scalars and comma lists,
//! read straight from the text: a grammar of recognisers over the bytes of a
//! `&str` (`grammar`, `parse`), the document that they build (`table`), and a
//! cursor that answers typed requests one token at a time (`de`).
//!
//! Every recogniser is stated over the UTF-8 bytes of its input. All bytes that
//! the grammar gives a meaning to are ASCII, so a character of several bytes is
//! never cut in two and never part of a number or of a word.
//!
//! Beside the format stands what a tax report makes of a configuration that
//! is written in it: the tables of the report (`sheet`), dates and trade
//! pairs as the tables write them (`date`, `pair`), and the booking of the
//! trades of an exchange (`account`, `import`).

pub mod account;
pub mod date;
pub mod de;
pub mod grammar;
pub mod import;
pub mod laws;
pub mod pair;
pub mod parse;
pub mod scan;
pub mod sheet;
pub mod table;

pub use parse::{Key, Value};
pub use table::{Group, Sections};

use vstd::prelude::*;
use vstd::string::*;

verus! {

/// Reads a whole document: the groups of its sections, each under the name of
/// its section, and under `_` the lines that stand before the first section
/// header, where there are any. Text that no rule of the grammar takes is
/// left unread, so every text is some document.
pub fn parse_str<'a>(input: &'a str) -> (r: Result<Sections<'a>, parse::Error<'a>>)
    ensures
        r matches Ok(doc) && doc@ == grammar::tables(input.spec_bytes()),
{
    let (_, sections) = parse::tables(input);
    Ok(sections)
}

} // verus!
