use dungeon_ini::de::{Deserializer, Step, Variant};
use dungeon_ini::sheet::{
    AccountingMethod, AccountingMethods, Config, General, InputHeader, IntraHeader, OutputHeader,
    Visitor,
};
use dungeon_ini::Key;
use std::borrow::Cow;
use std::collections::HashMap;

const CONFIG: &str = "[general]
assets = B1, B2, B3, B4
exchanges = BlockFi, Coinbase, Coinbase Pro, Kraken
holders = Bob, Alice
meta = debug

[in_header]
timestamp = 0
asset = 6
exchange = 1
holder = 2
transaction_type = 5
spot_price = 8
crypto_in = 7
fiat_fee = 11
fiat_in_no_fee = 9
fiat_in_with_fee = 10
notes = 12

[out_header]
timestamp = 0
asset = 6
exchange = 1
holder = 2
transaction_type = 5
spot_price = 8
crypto_out_no_fee = 7
crypto_fee = 9

[intra_header]
timestamp = 0
asset = 6
from_exchange = 1
from_holder = 2
to_exchange = 3
to_holder = 4
spot_price = 8
crypto_sent = 7
crypto_received = 10
notes = 12

[accounting_methods]
2020 = fifo
2021 = lifo
2022 = hifo
2023 = fifo

";

fn word(de: &mut Deserializer) -> String {
    match de.deserialize_str().unwrap() {
        Cow::Borrowed(s) => s.to_string(),
        Cow::Owned(s) => s,
    }
}

fn words(de: &mut Deserializer) -> Vec<String> {
    let mut items = Vec::new();
    let mut first = true;
    while de.next_element(first).unwrap() {
        first = false;
        items.push(word(de));
    }
    items
}

/// Reads the lines of the section under which the cursor stands, and hands
/// each key to `line`, which reads the value.
fn section<'de>(de: &mut Deserializer<'de>, mut line: impl FnMut(Key<'de>, &mut Deserializer<'de>)) {
    let nested = de.enclosing().is_some();
    loop {
        match de.next_key(nested).unwrap() {
            Step::End => break,
            Step::Section => panic!("a section holds no section"),
            Step::Key => {
                let key = de.deserialize_identifier().unwrap();
                de.parse_assignment().unwrap();
                line(key, de);
                de.check_eol();
            }
        }
    }
}

fn general(de: &mut Deserializer) -> General {
    let mut general = General {
        assets: Vec::new(),
        exchanges: Vec::new(),
        holders: Vec::new(),
        spouse: None,
        generator: None,
        extra: HashMap::new(),
    };
    section(de, |key, de| match key {
        Key::Str("assets") => general.assets = words(de),
        Key::Str("exchanges") => general.exchanges = words(de),
        Key::Str("holders") => general.holders = words(de),
        Key::Str("spouse") => general.spouse = Some(word(de)),
        Key::Str("generator") => general.generator = Some(word(de)),
        Key::Str(other) => {
            general.extra.insert(other.to_string(), word(de));
        }
        Key::Num(n) => panic!("unknown field {}", n),
    });
    general
}

fn header(de: &mut Deserializer) -> Vec<String> {
    let mut inner = Vec::new();
    section(de, |key, de| match key {
        Key::Str(name) => {
            let column = usize::try_from(de.deserialize_u64().unwrap()).unwrap();
            assert!(column < usize::MAX);
            Visitor::visit_entry(&mut inner, name, column);
        }
        Key::Num(n) => panic!("a column is named by a text, found {}", n),
    });
    inner
}

fn accounting_methods(de: &mut Deserializer) -> AccountingMethods {
    let mut year = HashMap::new();
    section(de, |key, de| match key {
        Key::Num(n) => {
            let method = match de.deserialize_enum().unwrap() {
                Variant::Name("fifo") | Variant::Index(0) => AccountingMethod::Fifo,
                Variant::Name("lifo") | Variant::Index(1) => AccountingMethod::Lifo,
                Variant::Name("hifo") | Variant::Index(2) => AccountingMethod::Hifo,
                other => panic!("unknown variant {:?}", other),
            };
            year.insert(u16::try_from(n).unwrap(), method);
        }
        Key::Str(s) => panic!("a year is a number, found {}", s),
    });
    AccountingMethods { year }
}

fn from_str(input: &str) -> Config {
    let mut de = Deserializer::from_str(input);
    let (mut general_, mut in_header, mut out_header, mut intra_header, mut methods) =
        (None, None, None, None, None);
    loop {
        match de.next_key(false).unwrap() {
            Step::End => break,
            Step::Key => panic!("the configuration holds sections alone"),
            Step::Section => {
                match de.deserialize_identifier().unwrap() {
                    Key::Str("general") => general_ = Some(general(&mut de)),
                    Key::Str("in_header") => in_header = Some(InputHeader(header(&mut de))),
                    Key::Str("out_header") => out_header = Some(OutputHeader(header(&mut de))),
                    Key::Str("intra_header") => intra_header = Some(IntraHeader(header(&mut de))),
                    Key::Str("accounting_methods") => methods = Some(accounting_methods(&mut de)),
                    other => panic!("unknown section {:?}", other),
                }
                de.check_eol();
            }
        }
    }
    de.finish().unwrap();
    Config {
        general: general_.expect("missing field `general`"),
        in_header: in_header.expect("missing field `in_header`"),
        out_header: out_header.expect("missing field `out_header`"),
        intra_header: intra_header.expect("missing field `intra_header`"),
        accounting_methods: methods,
    }
}

#[test]
fn should_parse_config() {
    let input = CONFIG;
    let config = from_str(input);
    assert_eq!(4, config.general.assets.len());
    assert_eq!("B1", config.general.assets[0]);
    assert_eq!("B2", config.general.assets[1]);
    assert_eq!("B3", config.general.assets[2]);
    assert_eq!("B4", config.general.assets[3]);
    assert_eq!(
        Some("debug"),
        config
            .general
            .extra
            .get("meta")
            .as_ref()
            .map(|s| s.as_str())
    );
    assert_eq!("timestamp", config.in_header.0[0]);
    assert_eq!("asset", config.in_header.column(6));
    assert_eq!("exchange", config.in_header.column(1));
    assert_eq!("holder", config.in_header.column(2));
    assert_eq!("transaction_type", config.in_header.column(5));
    assert_eq!("spot_price", config.in_header.column(8));
    assert_eq!("crypto_in", config.in_header.column(7));
    assert_eq!("fiat_fee", config.in_header.column(11));
    assert_eq!("fiat_in_no_fee", config.in_header.column(9));
    assert_eq!("fiat_in_with_fee", config.in_header.column(10));
    assert_eq!("notes", config.in_header.column(12));
    assert_eq!("crypto_fee", config.out_header.column(9));
    assert_eq!("notes", config.intra_header.column(12));

    let expect_input = [
        "timestamp",
        "exchange",
        "holder",
        "",
        "",
        "transaction_type",
        "asset",
        "crypto_in",
        "spot_price",
        "fiat_in_no_fee",
        "fiat_in_with_fee",
        "fiat_fee",
        "notes",
    ];
    assert_eq!(expect_input, config.in_header.0.as_slice());
    assert_eq!(
        Some(&AccountingMethod::Hifo),
        config.accounting_methods.unwrap().year.get(&2022)
    );
}
