//! A pair of currencies as exchanges write it: the base, `/`, the quote.

use crate::scan::{cut, span, Class};
use std::borrow::Cow;
use vstd::prelude::*;
use vstd::string::*;

verus! {

/// A trade pair, such as BTC/USD: the currency that is bought or sold, and
/// the currency in which it is priced.
#[derive(Debug, PartialEq)]
pub struct Pair<'a>(pub Cow<'a, str>, pub Cow<'a, str>);

/// Reads a `Pair` from its text.
pub struct PairVisitor;

/// The two sides of the text `s` of a pair: what stands before the first `/`
/// and what stands after it. None where `s` holds no `/`.
pub open spec fn sides(s: Seq<u8>) -> Option<(Seq<u8>, Seq<u8>)> {
    let n = crate::scan::run(s, Class::Until(0x2f));
    if n < s.len() {
        Some((s.take(n as int), s.skip(n + 1 as int)))
    } else {
        None
    }
}

impl<'a> Pair<'a> {
    /// The pair of the base `pair0` and the quote `pair1`, each of which is
    /// anything that converts into a text, borrowed or owned: the two sides
    /// are what the conversion makes of them.
    pub fn new<I: Into<Cow<'a, str>>>(pair0: I, pair1: I) -> (r: Self)
        ensures
            call_ensures(<I as Into<Cow<'a, str>>>::into, (pair0,), r.0),
            call_ensures(<I as Into<Cow<'a, str>>>::into, (pair1,), r.1),
    {
        Pair(pair0.into(), pair1.into())
    }

    /// The pair as it is written: the base, `/`, the quote.
    pub fn to_text(&self) -> (r: String)
        ensures
            r@ == self.0@ + seq!['/'] + self.1@,
    {
        proof {
            reveal_strlit("/");
            assert("/"@ =~= seq!['/']);
        }
        let base: &str = match &self.0 {
            Cow::Borrowed(s) => s,
            Cow::Owned(s) => s.as_str(),
        };
        let quote: &str = match &self.1 {
            Cow::Borrowed(s) => s,
            Cow::Owned(s) => s.as_str(),
        };
        String::from_str(base).concat("/").concat(quote)
    }
}

impl PairVisitor {
    /// The pair that `v` writes, cut at its first `/`. Both sides are
    /// borrowed from `v`. None where `v` holds no `/`.
    pub fn visit_borrowed_str<'de>(v: &'de str) -> (r: Option<Pair<'de>>)
        ensures
            match (r, sides(v.spec_bytes())) {
                (Some(Pair(Cow::Borrowed(a), Cow::Borrowed(b))), Some(s)) => a.spec_bytes() == s.0
                    && b.spec_bytes() == s.1,
                (None, None) => true,
                _ => false,
            },
    {
        let bytes = v.as_bytes();
        let n = span(bytes, 0, Class::Until(0x2f));
        proof {
            assert(bytes@.skip(0) =~= bytes@);
        }
        if n < bytes.len() {
            let (base, tail) = cut(v, n);
            let (_, quote) = cut(tail, 1);
            assert(quote.spec_bytes() =~= v.spec_bytes().skip(n + 1));
            Some(Pair(Cow::Borrowed(base), Cow::Borrowed(quote)))
        } else {
            None
        }
    }

    /// The pair that `v` writes, cut at its first `/`, with copies of both
    /// sides. None where `v` holds no `/`.
    pub fn visit_str(v: &str) -> (r: Option<Pair<'static>>)
        ensures
            match (r, sides(v.spec_bytes())) {
                (Some(Pair(Cow::Owned(a), Cow::Owned(b))), Some(s)) => vstd::utf8::encode_utf8(a@)
                    == s.0 && vstd::utf8::encode_utf8(b@) == s.1,
                (None, None) => true,
                _ => false,
            },
    {
        match PairVisitor::visit_borrowed_str(v) {
            Some(Pair(Cow::Borrowed(a), Cow::Borrowed(b))) => Some(
                Pair(Cow::Owned(a.to_owned()), Cow::Owned(b.to_owned())),
            ),
            _ => None,
        }
    }
}

} // verus!
