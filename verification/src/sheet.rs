//! The tables of a tax report, as its configuration describes them: which
//! assets, exchanges and holders there are, in which column of a table each
//! field stands, and how each year is accounted.

use crate::scan::{cut, run, same_text, span, Class};
use std::collections::HashMap;
use vstd::prelude::*;
use vstd::string::*;

verus! {

/// Builds the column names of a table from the entries of its header section,
/// each of which gives a field's name and the column in which it stands.
pub struct Visitor;

/// The pieces of `s` that its commas part, in order: one more than it has
/// commas, and empty where two commas touch or a comma stands at an end.
pub open spec fn split(s: Seq<u8>) -> Seq<Seq<u8>>
    decreases s.len(),
{
    let n = run(s, Class::Until(0x2c));
    if n < s.len() {
        seq![s.take(n as int)] + split(s.skip(n + 1 as int))
    } else {
        seq![s]
    }
}

/// The bytes of each of the texts.
pub open spec fn bytes_of(texts: Seq<String>) -> Seq<Seq<u8>> {
    Seq::new(texts.len(), |i: int| vstd::utf8::encode_utf8(texts[i]@))
}

impl Visitor {
    /// The column names that `v` lists with commas between them.
    pub fn visit_str(v: &str) -> (r: Vec<String>)
        ensures
            bytes_of(r@) == split(v.spec_bytes()),
    {
        let ghost s = v.spec_bytes();
        let mut inner: Vec<String> = Vec::new();
        let mut rest = v;
        proof {
            assert(bytes_of(inner@) + split(s) =~= split(s));
        }
        loop
            invariant_except_break
                split(s) == bytes_of(inner@) + split(rest.spec_bytes()),
            ensures
                split(s) == bytes_of(inner@),
            decreases rest.spec_bytes().len(),
        {
            let ghost cur = rest.spec_bytes();
            let ghost before = bytes_of(inner@);
            let bytes = rest.as_bytes();
            let n = span(bytes, 0, Class::Until(0x2c));
            proof {
                assert(cur.skip(0) =~= cur);
            }
            if n < bytes.len() {
                let (head, tail) = cut(rest, n);
                let (_, after) = cut(tail, 1);
                inner.push(head.to_owned());
                rest = after;
                proof {
                    assert(after.spec_bytes() =~= cur.skip(n + 1));
                    assert(bytes_of(inner@) =~= before.push(cur.take(n as int)));
                    assert(before + (seq![cur.take(n as int)] + split(cur.skip(n + 1)))
                        =~= bytes_of(inner@) + split(cur.skip(n + 1)));
                }
            } else {
                inner.push(rest.to_owned());
                proof {
                    assert(bytes_of(inner@) =~= before.push(cur));
                    assert(before + seq![cur] =~= bytes_of(inner@));
                }
                break ;
            }
        }
        inner
    }

    /// Writes `key` into the column `value`. Where the table is too short for
    /// that, it grows by columns without a name.
    pub fn visit_entry(inner: &mut Vec<String>, key: &str, value: usize)
        requires
            value < usize::MAX,
        ensures
            final(inner)@.len() == if value < old(inner)@.len() {
                old(inner)@.len() as int
            } else {
                value + 1
            },
            final(inner)@[value as int]@ == key@,
            forall|j: int|
                0 <= j < final(inner)@.len() && j != value ==> (#[trigger] final(inner)@[j])@
                    == if j < old(inner)@.len() {
                    old(inner)@[j]@
                } else {
                    Seq::<char>::empty()
                },
    {
        while inner.len() <= value
            invariant
                old(inner)@.len() <= inner@.len(),
                inner@.len() <= value + 1 || inner@.len() == old(inner)@.len(),
                forall|j: int|
                    0 <= j < inner@.len() ==> (#[trigger] inner@[j])@ == if j < old(
                        inner,
                    )@.len() {
                        old(inner)@[j]@
                    } else {
                        Seq::<char>::empty()
                    },
            decreases value + 1 - inner@.len(),
        {
            inner.push(String::new());
        }
        inner.set(value, key.to_owned());
    }
}

/// What the report is about.
#[derive(Debug)]
pub struct General {
    pub assets: Vec<String>,
    pub exchanges: Vec<String>,
    pub holders: Vec<String>,
    pub spouse: Option<String>,
    pub generator: Option<String>,
    pub extra: HashMap<String, String>,
}

/// The column names of the table of incoming transactions.
#[derive(Debug)]
pub struct InputHeader(pub Vec<String>);

/// The column names of the table of outgoing transactions.
#[derive(Debug)]
pub struct OutputHeader(pub Vec<String>);

/// The column names of the table of transfers.
#[derive(Debug)]
pub struct IntraHeader(pub Vec<String>);

impl InputHeader {
    /// The name of the column `index`.
    pub fn column(&self, index: usize) -> (r: &String)
        requires
            index < self.0@.len(),
        ensures
            *r == self.0@[index as int],
    {
        &self.0[index]
    }
}

impl OutputHeader {
    /// The name of the column `index`.
    pub fn column(&self, index: usize) -> (r: &String)
        requires
            index < self.0@.len(),
        ensures
            *r == self.0@[index as int],
    {
        &self.0[index]
    }
}

impl IntraHeader {
    /// The name of the column `index`.
    pub fn column(&self, index: usize) -> (r: &String)
        requires
            index < self.0@.len(),
        ensures
            *r == self.0@[index as int],
    {
        &self.0[index]
    }
}

/// How an asset came in.
#[derive(Debug, Clone, Copy, PartialEq, Eq)]
pub enum Input {
    Airdrop,
    Buy,
    Donate,
    Gift,
    Hardfork,
    Income,
    Interest,
    Mining,
    Staking,
    Wages,
}

impl Input {
    /// The word that a table writes for this kind of transaction.
    pub open spec fn name(self) -> Seq<char> {
        match self {
            Input::Airdrop => "airdrop"@,
            Input::Buy => "buy"@,
            Input::Donate => "donate"@,
            Input::Gift => "gift"@,
            Input::Hardfork => "hardfork"@,
            Input::Income => "income"@,
            Input::Interest => "interest"@,
            Input::Mining => "mining"@,
            Input::Staking => "staking"@,
            Input::Wages => "wages"@,
        }
    }

    /// The word that a table writes for this kind of transaction.
    pub fn to_string(&self) -> (r: String)
        ensures
            r@ == self.name(),
    {
        match self {
            Input::Airdrop => String::from_str("airdrop"),
            Input::Buy => String::from_str("buy"),
            Input::Donate => String::from_str("donate"),
            Input::Gift => String::from_str("gift"),
            Input::Hardfork => String::from_str("hardfork"),
            Input::Income => String::from_str("income"),
            Input::Interest => String::from_str("interest"),
            Input::Mining => String::from_str("mining"),
            Input::Staking => String::from_str("staking"),
            Input::Wages => String::from_str("wages"),
        }
    }
}

/// How an asset went out.
#[derive(Debug, Clone, Copy, PartialEq, Eq)]
pub enum Output {
    Donate,
    Fee,
    Gift,
    Lost,
    Sell,
    Staking,
}

/// The field of a record of an incoming transaction that stands under the
/// header `h`, counted from 0 in the order in which a record holds its
/// fields. None for a header that names no field.
pub open spec fn input_field_of(h: Seq<u8>) -> Option<usize> {
    if h == "timestamp".spec_bytes() {
        Some(0)
    } else if h == "asset".spec_bytes() {
        Some(1)
    } else if h == "exchange".spec_bytes() {
        Some(2)
    } else if h == "holder".spec_bytes() {
        Some(3)
    } else if h == "transaction_type".spec_bytes() || h == "type".spec_bytes() {
        Some(4)
    } else if h == "spot_price".spec_bytes() {
        Some(5)
    } else if h == "crypto_in".spec_bytes() {
        Some(6)
    } else if h == "crypto_fee".spec_bytes() {
        Some(7)
    } else if h == "fiat_in_no_fee".spec_bytes() {
        Some(8)
    } else if h == "fiat_in_with_fee".spec_bytes() {
        Some(9)
    } else if h == "fiat_fee".spec_bytes() {
        Some(10)
    } else if h == "unique_id".spec_bytes() {
        Some(11)
    } else if h == "notes".spec_bytes() {
        Some(12)
    } else {
        None
    }
}

/// The field of a record of an incoming transaction that stands under `header`.
pub fn input_field(header: &str) -> (r: Option<usize>)
    ensures
        r == input_field_of(header.spec_bytes()),
{
    if same_text(header, "timestamp") {
        Some(0)
    } else if same_text(header, "asset") {
        Some(1)
    } else if same_text(header, "exchange") {
        Some(2)
    } else if same_text(header, "holder") {
        Some(3)
    } else if same_text(header, "transaction_type") || same_text(header, "type") {
        Some(4)
    } else if same_text(header, "spot_price") {
        Some(5)
    } else if same_text(header, "crypto_in") {
        Some(6)
    } else if same_text(header, "crypto_fee") {
        Some(7)
    } else if same_text(header, "fiat_in_no_fee") {
        Some(8)
    } else if same_text(header, "fiat_in_with_fee") {
        Some(9)
    } else if same_text(header, "fiat_fee") {
        Some(10)
    } else if same_text(header, "unique_id") {
        Some(11)
    } else if same_text(header, "notes") {
        Some(12)
    } else {
        None
    }
}

/// `csv::StringRecord`: one record of a table, a list of fields that are texts.
#[verifier::external_type_specification]
#[verifier::external_body]
pub struct ExStringRecord(csv::StringRecord);

/// The fields that a record holds, in order.
pub uninterp spec fn fields(record: csv::StringRecord) -> Seq<Seq<char>>;

/// `csv::StringRecord::new` makes a record without fields.
pub assume_specification[ csv::StringRecord::new ]() -> (r: csv::StringRecord)
    ensures
        fields(r) == Seq::<Seq<char>>::empty(),
;

/// `csv::StringRecord::push_field` puts a copy of `field` behind the fields
/// that the record has, and leaves those as they are.
pub assume_specification[ csv::StringRecord::push_field ](
    record: &mut csv::StringRecord,
    field: &str,
)
    ensures
        fields(*final(record)) == fields(*old(record)).push(field@),
;

/// `csv::StringRecord::get` hands out the field `i`, counted from 0, where
/// the record has that many fields, and nothing where it has not.
pub assume_specification<'a>[ csv::StringRecord::get ](
    record: &'a csv::StringRecord,
    i: usize,
) -> (r: Option<&'a str>)
    ensures
        match r {
            Some(field) => i < fields(*record).len() && field@ == fields(*record)[i as int],
            None => i >= fields(*record).len(),
        },
;

/// `csv::StringRecord::len` counts the fields of the record.
pub assume_specification[ csv::StringRecord::len ](record: &csv::StringRecord) -> (r: usize)
    ensures
        r == fields(*record).len(),
;

/// What stands under the header `h` once the fields `record` of an incoming
/// transaction are laid out by headers: the field that `h` names, and the
/// empty text where it names none.
pub open spec fn placed(h: Seq<char>, record: Seq<Seq<char>>) -> Seq<char> {
    match input_field_of(vstd::utf8::encode_utf8(h)) {
        Some(f) => record[f as int],
        None => Seq::empty(),
    }
}

/// Lays the fields of the record of an incoming transaction out in the order
/// of `headers`: under each header the field that it names, and an empty
/// field under a header that names none. The record must have every field
/// that a header names.
pub fn sort(headers: &Vec<String>, record: csv::StringRecord) -> (sorted: csv::StringRecord)
    requires
        covers(headers@, fields(record).len()),
    ensures
        fields(sorted).len() == headers@.len(),
        forall|i: int|
            0 <= i < headers@.len() ==> #[trigger] fields(sorted)[i] == placed(
                headers@[i]@,
                fields(record),
            ),
{
    let mut sorted = csv::StringRecord::new();
    let mut n: usize = 0;
    proof {
        reveal_strlit("");
    }
    while n < headers.len()
        invariant
            n <= headers@.len(),
            ""@ == Seq::<char>::empty(),
            covers(headers@, fields(record).len()),
            fields(sorted).len() == n,
            forall|i: int|
                0 <= i < n ==> #[trigger] fields(sorted)[i] == placed(
                    headers@[i]@,
                    fields(record),
                ),
        decreases headers@.len() - n,
    {
        let header = headers[n].as_str();
        let ghost before = fields(sorted);
        match input_field(header) {
            Some(f) => match record.get(f) {
                Some(field) => sorted.push_field(field),
                None => sorted.push_field(""),
            },
            None => sorted.push_field(""),
        }
        proof {
            assert(fields(sorted)[n as int] == placed(headers@[n as int]@, fields(record)));
            assert forall|i: int| 0 <= i < n + 1 implies #[trigger] fields(sorted)[i] == placed(
                headers@[i]@,
                fields(record),
            ) by {
                if i < n {
                    assert(fields(sorted)[i] == before[i]);
                }
            }
        }
        n += 1;
    }
    sorted
}

/// Whether a record of `len` fields has every field that one of `headers` names.
pub open spec fn covers(headers: Seq<String>, len: nat) -> bool {
    forall|i: int|
        0 <= i < headers.len() ==> (input_field_of(
            vstd::utf8::encode_utf8((#[trigger] headers[i])@),
        ) matches Some(f) ==> f < len)
}

/// Lays the fields of `record` out in the order of `headers`, as `sort` does,
/// where the record has every field that a header names, and hands back
/// nothing where it lacks one.
pub fn try_sort(headers: &Vec<String>, record: csv::StringRecord) -> (r: Option<
    csv::StringRecord,
>)
    ensures
        r is Some <==> covers(headers@, fields(record).len()),
        r matches Some(sorted) ==> {
            &&& fields(sorted).len() == headers@.len()
            &&& forall|i: int|
                0 <= i < headers@.len() ==> #[trigger] fields(sorted)[i] == placed(
                    headers@[i]@,
                    fields(record),
                )
        },
{
    let len = record.len();
    let mut n: usize = 0;
    while n < headers.len()
        invariant
            n <= headers@.len(),
            len == fields(record).len(),
            forall|i: int|
                0 <= i < n ==> (input_field_of(
                    vstd::utf8::encode_utf8((#[trigger] headers@[i])@),
                ) matches Some(f) ==> f < len),
        decreases headers@.len() - n,
    {
        if let Some(f) = input_field(headers[n].as_str()) {
            if f >= len {
                return None;
            }
        }
        n += 1;
    }
    Some(sort(headers, record))
}

/// The order in which the lots of an asset are sold.
#[derive(Debug, Clone, Copy, PartialEq, Eq, Hash)]
pub enum AccountingMethod {
    Fifo,
    Lifo,
    Hifo,
}

/// The accounting method of each year.
#[derive(Debug)]
pub struct AccountingMethods {
    pub year: HashMap<u16, AccountingMethod>,
}

/// The whole configuration of a report.
#[derive(Debug)]
pub struct Config {
    pub general: General,
    pub in_header: InputHeader,
    pub out_header: OutputHeader,
    pub intra_header: IntraHeader,
    pub accounting_methods: Option<AccountingMethods>,
}

} // verus!
