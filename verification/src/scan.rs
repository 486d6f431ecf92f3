//! Byte classes, maximal runs of one class, and cutting a `&str` where a run ends.

use vstd::prelude::*;
use vstd::string::*;
use vstd::utf8::*;

verus! {

/// The sets of bytes that the grammar tells apart.
#[derive(Clone, Copy, Debug)]
pub enum Class {
    /// A space or a tab.
    Blank,
    /// A space, a tab, a carriage return or a line feed.
    Gap,
    /// `0` to `9`.
    Digit,
    /// A letter, a digit, a space, a tab or an underscore: what a text token is made of.
    Word,
    /// Anything but a carriage return or a line feed: what a comment is made of.
    Prose,
    /// Anything but the one byte that is given.
    Until(u8),
}

/// A space or a tab.
pub open spec fn is_blank(b: u8) -> bool {
    b == 0x20 || b == 0x09
}

/// White space: a blank, a carriage return or a line feed.
pub open spec fn is_gap(b: u8) -> bool {
    is_blank(b) || b == 0x0d || b == 0x0a
}

/// A decimal digit.
pub open spec fn is_digit(b: u8) -> bool {
    0x30 <= b <= 0x39
}

/// A letter of the ASCII alphabet, capital or small.
pub open spec fn is_alpha(b: u8) -> bool {
    (0x41 <= b <= 0x5a) || (0x61 <= b <= 0x7a)
}

/// A byte of a word: a letter, a digit, a blank or an underscore.
pub open spec fn is_word(b: u8) -> bool {
    is_alpha(b) || is_digit(b) || is_blank(b) || b == 0x5f
}

impl Class {
    /// Whether the byte `b` belongs to the class.
    pub open spec fn has(self, b: u8) -> bool {
        match self {
            Class::Blank => is_blank(b),
            Class::Gap => is_gap(b),
            Class::Digit => is_digit(b),
            Class::Word => is_word(b),
            Class::Prose => b != 0x0d && b != 0x0a,
            Class::Until(c) => b != c,
        }
    }

    /// Whether the byte `b` belongs to the class.
    pub fn holds(self, b: u8) -> (r: bool)
        ensures
            r == self.has(b),
    {
        match self {
            Class::Blank => b == 0x20 || b == 0x09,
            Class::Gap => b == 0x20 || b == 0x09 || b == 0x0d || b == 0x0a,
            Class::Digit => 0x30 <= b && b <= 0x39,
            Class::Word => (0x41 <= b && b <= 0x5a) || (0x61 <= b && b <= 0x7a) || (0x30 <= b
                && b <= 0x39) || b == 0x20 || b == 0x09 || b == 0x5f,
            Class::Prose => b != 0x0d && b != 0x0a,
            Class::Until(c) => b != c,
        }
    }
}

/// The length of the longest prefix of `s` whose bytes all belong to `c`.
#[verifier::opaque]
pub open spec fn run(s: Seq<u8>, c: Class) -> nat
    decreases s.len(),
{
    if s.len() > 0 && c.has(s[0]) {
        1 + run(s.drop_first(), c)
    } else {
        0
    }
}

/// A run is the one length `n` at which the prefix of `n` bytes is all in the
/// class and the byte after it, if there is one, is not.
pub proof fn lemma_run_is(s: Seq<u8>, c: Class, n: int)
    requires
        0 <= n <= s.len(),
        forall|j: int| 0 <= j < n ==> c.has(#[trigger] s[j]),
        n == s.len() || !c.has(s[n]),
    ensures
        run(s, c) == n,
    decreases n,
{
    reveal(run);
    if n > 0 {
        let t = s.drop_first();
        assert forall|j: int| 0 <= j < n - 1 implies c.has(#[trigger] t[j]) by {
            assert(t[j] == s[j + 1]);
        }
        lemma_run_is(t, c, n - 1);
    }
}

/// What a run promises of its bytes.
pub proof fn lemma_run_bytes(s: Seq<u8>, c: Class)
    ensures
        run(s, c) <= s.len(),
        forall|j: int| 0 <= j < run(s, c) ==> c.has(#[trigger] s[j]),
        run(s, c) == s.len() || !c.has(s[run(s, c) as int]),
    decreases s.len(),
{
    reveal(run);
    if s.len() > 0 && c.has(s[0]) {
        let t = s.drop_first();
        lemma_run_bytes(t, c);
        assert forall|j: int| 0 <= j < run(s, c) implies c.has(#[trigger] s[j]) by {
            if j > 0 {
                assert(s[j] == t[j - 1]);
            }
        }
    }
}

/// To leave out `a` bytes and then `b` more is to leave out `a + b`.
pub proof fn lemma_skip_skip(s: Seq<u8>, a: nat, b: nat)
    requires
        a + b <= s.len(),
    ensures
        s.skip(a as int).skip(b as int) == s.skip((a + b) as int),
{
    assert(s.skip(a as int).skip(b as int) =~= s.skip((a + b) as int));
}

/// Where the run of `c` that starts at `from` ends.
pub fn span(bytes: &[u8], from: usize, c: Class) -> (end: usize)
    requires
        from <= bytes@.len(),
    ensures
        from <= end <= bytes@.len(),
        end == from + run(bytes@.skip(from as int), c),
        forall|j: int| from <= j < end ==> c.has(#[trigger] bytes@[j]),
        end == bytes@.len() || !c.has(bytes@[end as int]),
{
    let mut i: usize = from;
    while i < bytes.len() && c.holds(bytes[i])
        invariant
            from <= i <= bytes@.len(),
            forall|j: int| from <= j < i ==> c.has(#[trigger] bytes@[j]),
        decreases bytes@.len() - i,
    {
        i += 1;
    }
    proof {
        lemma_run_is(bytes@.skip(from as int), c, i - from);
    }
    i
}

/// Whether a text with the bytes `b` may be cut in two before the byte at `at`:
/// at either end, before an ASCII byte, or after one.
pub open spec fn cuttable(b: Seq<u8>, at: int) -> bool {
    0 <= at <= b.len() && (at == 0 || at == b.len() || b[at] < 0x80 || b[at - 1] < 0x80)
}

proof fn lemma_after_ascii(b: Seq<u8>, i: int)
    requires
        valid_utf8(b),
        0 <= i < b.len(),
        b[i] < 0x80,
        is_char_boundary(b, i),
    ensures
        is_char_boundary(b, i + 1),
    decreases b.len(),
{
    reveal_with_fuel(is_char_boundary, 2);
    reveal_with_fuel(valid_utf8, 2);
    if i == 0 {
        assert(is_leading_byte_width_1(b[0]));
        assert(length_of_first_scalar(b) == 1);
        assert(valid_utf8(pop_first_scalar(b)));
    } else {
        let l = length_of_first_scalar(b);
        let t = pop_first_scalar(b);
        assert(1 <= l <= 4);
        if i < l {
            assert(is_continuation_byte(b[i]));
        }
        assert(t[i - l] == b[i]);
        lemma_after_ascii(t, i - l);
    }
}

/// Every place that `cuttable` admits lies between two characters.
pub proof fn lemma_cuttable(b: Seq<u8>, at: int)
    requires
        valid_utf8(b),
        cuttable(b, at),
    ensures
        is_char_boundary(b, at),
{
    if at == 0 || at == b.len() {
        is_char_boundary_start_end_of_seq(b);
    } else if b[at] < 0x80 {
        is_char_boundary_iff_not_is_continuation_byte(b, at);
    } else {
        is_char_boundary_iff_not_is_continuation_byte(b, at - 1);
        lemma_after_ascii(b, at - 1);
    }
}

/// Cuts `text` in two before its byte `at`.
pub fn cut<'a>(text: &'a str, at: usize) -> (r: (&'a str, &'a str))
    requires
        cuttable(text.spec_bytes(), at as int),
    ensures
        r.0.spec_bytes() == text.spec_bytes().take(at as int),
        r.1.spec_bytes() == text.spec_bytes().skip(at as int),
{
    proof {
        encode_utf8_valid_utf8(text@);
        lemma_cuttable(text.spec_bytes(), at as int);
    }
    text.split_at(at)
}

/// The piece of `text` from its byte `from` up to its byte `to`.
pub fn piece<'a>(text: &'a str, from: usize, to: usize) -> (r: &'a str)
    requires
        from <= to,
        cuttable(text.spec_bytes(), from as int),
        cuttable(text.spec_bytes(), to as int),
    ensures
        r.spec_bytes() == text.spec_bytes().subrange(from as int, to as int),
{
    let (head, _) = cut(text, to);
    let (_, r) = cut(head, from);
    assert(r.spec_bytes() =~= text.spec_bytes().subrange(from as int, to as int));
    r
}

/// Whether the two slices hold the same bytes.
pub fn same_bytes(a: &[u8], b: &[u8]) -> (r: bool)
    ensures
        r == (a@ == b@),
{
    if a.len() != b.len() {
        return false;
    }
    let mut i: usize = 0;
    while i < a.len()
        invariant
            a@.len() == b@.len(),
            i <= a@.len(),
            forall|j: int| 0 <= j < i ==> a@[j] == b@[j],
        decreases a@.len() - i,
    {
        if a[i] != b[i] {
            return false;
        }
        i += 1;
    }
    assert(a@ =~= b@);
    true
}

/// Whether the two texts are the same.
pub fn same_text(a: &str, b: &str) -> (r: bool)
    ensures
        r == (a.spec_bytes() == b.spec_bytes()),
{
    same_bytes(a.as_bytes(), b.as_bytes())
}

} // verus!
