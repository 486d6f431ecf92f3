use dungeon_ini::account::BuySell;
use dungeon_ini::date::{parse, Stamp};
use dungeon_ini::import::{booking, holder, is_listed, Booking};
use dungeon_ini::pair::{Pair, PairVisitor};
use dungeon_ini::sheet::{input_field, Input, InputHeader, Visitor};
use std::borrow::Cow;

#[test]
fn header_entries_fill_their_columns() {
    let mut inner: Vec<String> = Vec::new();
    Visitor::visit_entry(&mut inner, "timestamp", 0);
    Visitor::visit_entry(&mut inner, "asset", 6);
    Visitor::visit_entry(&mut inner, "exchange", 1);
    Visitor::visit_entry(&mut inner, "holder", 2);
    Visitor::visit_entry(&mut inner, "transaction_type", 5);
    let expect = ["timestamp", "exchange", "holder", "", "", "transaction_type", "asset"];
    assert_eq!(expect.as_slice(), inner.as_slice());
    Visitor::visit_entry(&mut inner, "again", 6);
    assert_eq!(7, inner.len());
    assert_eq!("again", inner[6]);
    let header = InputHeader(inner);
    assert_eq!("holder", header.column(2));
}

#[test]
fn input_kinds_have_their_words() {
    assert_eq!("airdrop", Input::Airdrop.to_string());
    assert_eq!("buy", Input::Buy.to_string());
    assert_eq!("donate", Input::Donate.to_string());
    assert_eq!("gift", Input::Gift.to_string());
    assert_eq!("hardfork", Input::Hardfork.to_string());
    assert_eq!("income", Input::Income.to_string());
    assert_eq!("interest", Input::Interest.to_string());
    assert_eq!("mining", Input::Mining.to_string());
    assert_eq!("staking", Input::Staking.to_string());
    assert_eq!("wages", Input::Wages.to_string());
}

#[test]
fn input_fields_by_header() {
    let headers = [
        ("timestamp", 0),
        ("asset", 1),
        ("exchange", 2),
        ("holder", 3),
        ("transaction_type", 4),
        ("type", 4),
        ("spot_price", 5),
        ("crypto_in", 6),
        ("crypto_fee", 7),
        ("fiat_in_no_fee", 8),
        ("fiat_in_with_fee", 9),
        ("fiat_fee", 10),
        ("unique_id", 11),
        ("notes", 12),
    ];
    for (header, field) in headers {
        assert_eq!(Some(field), input_field(header), "{}", header);
    }
    assert_eq!(None, input_field("Timestamp"));
    assert_eq!(None, input_field(""));
    assert_eq!(None, input_field("notes "));
}

#[test]
fn pair_is_cut_at_the_first_slash() {
    assert_eq!(Some(Pair::new("BTC", "USD")), PairVisitor::visit_borrowed_str("BTC/USD"));
    assert_eq!(Some(Pair::new("", "")), PairVisitor::visit_borrowed_str("/"));
    assert_eq!(Some(Pair::new("a", "b/c")), PairVisitor::visit_borrowed_str("a/b/c"));
    assert_eq!(None, PairVisitor::visit_borrowed_str("BTCUSD"));
    assert_eq!(None, PairVisitor::visit_str(""));
    match PairVisitor::visit_str("ETH/BTC") {
        Some(Pair(Cow::Owned(a), Cow::Owned(b))) => {
            assert_eq!("ETH", a);
            assert_eq!("BTC", b);
        }
        other => panic!("{:?}", other),
    }
    assert!(matches!(
        PairVisitor::visit_borrowed_str("ETH/BTC"),
        Some(Pair(Cow::Borrowed("ETH"), Cow::Borrowed("BTC")))
    ));
}

#[test]
fn should_serialize() {
    let pair = Pair::new("BTC", "USD");
    assert_eq!("BTC/USD", pair.to_text());
}

#[test]
fn pair_is_made_of_borrowed_and_of_owned_texts() {
    assert!(matches!(Pair::new("BTC", "USD"), Pair(Cow::Borrowed("BTC"), Cow::Borrowed("USD"))));
    match Pair::new("ETH".to_string(), "BTC".to_string()) {
        Pair(Cow::Owned(a), Cow::Owned(b)) => {
            assert_eq!("ETH", a);
            assert_eq!("BTC", b);
        }
        other => panic!("{:?}", other),
    }
    let pair = Pair::new(Cow::Borrowed("a"), Cow::Owned("b".to_string()));
    assert_eq!("a/b", pair.to_text());
}

#[test]
fn pair_is_written_with_a_slash() {
    let pair = Pair(Cow::Owned("ETH".to_string()), Cow::Borrowed(""));
    assert_eq!("ETH/", pair.to_text());
    let pair = Pair(Cow::Borrowed("a/b"), Cow::Owned("c".to_string()));
    assert_eq!("a/b/c", pair.to_text());
}

#[test]
fn trade_is_booked_by_quote_and_side() {
    let assets = vec!["BTC".to_string(), "ETH".to_string()];
    assert!(is_listed(&assets, "ETH"));
    assert!(!is_listed(&assets, "eth"));
    assert_eq!(Booking::Convert, booking(&assets, "BTC", BuySell::Buy));
    assert_eq!(Booking::Convert, booking(&assets, "ETH", BuySell::Sell));
    assert_eq!(Booking::Buy, booking(&assets, "USD", BuySell::Buy));
    assert_eq!(Booking::Sell, booking(&assets, "USD", BuySell::Sell));
    assert_eq!(Booking::Sell, booking(&Vec::new(), "BTC", BuySell::Sell));
}

#[test]
fn holder_is_the_first_or_unknown() {
    assert_eq!("Bob", holder(&vec!["Bob".to_string(), "Alice".to_string()]));
    assert_eq!("_UNKNOWN", holder(&Vec::new()));
}

#[test]
fn record_is_laid_out_by_headers() {
    let record = csv::StringRecord::from(vec![
        "t", "a", "e", "h", "ty", "sp", "ci", "cf", "nf", "wf", "ff", "id", "n",
    ]);
    let headers: Vec<String> = ["notes", "bogus", "type", "timestamp", "transaction_type", "unique_id"]
        .iter()
        .map(|h| h.to_string())
        .collect();
    let sorted = dungeon_ini::sheet::sort(&headers, record.clone());
    assert_eq!(csv::StringRecord::from(vec!["n", "", "ty", "t", "ty", "id"]), sorted);
    let sorted = dungeon_ini::sheet::sort(&Vec::new(), record);
    assert_eq!(0, sorted.len());
    let short = csv::StringRecord::from(vec!["t", "a"]);
    let headers = vec!["asset".to_string(), "x".to_string(), "timestamp".to_string()];
    let sorted = dungeon_ini::sheet::sort(&headers, short);
    assert_eq!(csv::StringRecord::from(vec!["a", "", "t"]), sorted);
}

#[test]
fn record_that_lacks_a_field_is_not_laid_out() {
    let short = csv::StringRecord::from(vec!["t", "a"]);
    let headers = vec!["asset".to_string(), "exchange".to_string()];
    assert_eq!(None, dungeon_ini::sheet::try_sort(&headers, short.clone()));
    let headers = vec!["asset".to_string(), "no field".to_string()];
    assert_eq!(
        Some(csv::StringRecord::from(vec!["a", ""])),
        dungeon_ini::sheet::try_sort(&headers, short)
    );
}

#[test]
fn date_is_read_with_or_without_offset() {
    let expect = Stamp { secs: 1460573469, nanos: 3443 };
    assert_eq!(Ok(expect), parse("2016-04-13 18:51:09.3443"));
    assert_eq!(Ok(expect), parse("2016-04-13 18:51:09.3443+00:00"));
    assert_eq!(Ok(expect), parse("2016-04-13 18:51:09.3443+02:00"));
    assert_eq!(Ok(Stamp { secs: 0, nanos: 0 }), parse("1970-01-01 00:00:00.0"));
    assert!(parse("2016-04-13").is_err());
    assert!(parse("").is_err());
    assert!(parse("2016-04-13 18:51:09").is_err());
}

#[test]
fn column_names_are_parted_by_commas() {
    assert_eq!(vec!["a", "b c", " d"], Visitor::visit_str("a,b c, d"));
    assert_eq!(vec![""], Visitor::visit_str(""));
    assert_eq!(vec!["", ""], Visitor::visit_str(","));
    assert_eq!(vec!["x", "", "y", ""], Visitor::visit_str("x,,y,"));
    assert_eq!(vec!["no comma"], Visitor::visit_str("no comma"));
    assert_eq!(vec!["\u{e9}", "\u{fc}"], Visitor::visit_str("\u{e9},\u{fc}"));
}
