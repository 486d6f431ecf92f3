use dungeon_ini::{parse_str, Key, Value};

const DOCUMENT: &str = "anon = 42
boop = hi
8 = great
[general]
foo = bar
num=42
bum    =     42
a = world 
b = world ;skip me (mind the gap)

c = world;skip me
d = tom foo
e = 1, 2, 3
f = one, two, three; junk skip
[bar junk]
foo = bar
num=42
bum    =     42
a = world 
b = world ;skip me (mind the gap)

c = world;skip me
d = tom foo
e = 1, 2, 3
f = one, two, three; junk skip

[another]  ; with comment
foo = bar
num=42
bum    =     42
a = world 
b = world ;skip me (mind the gap)

c = world;skip me
d = tom foo
e = 1, 2, 3
f = one, two, three; junk skip

[empty]

";

#[test]
fn should_parse() {
    let input = DOCUMENT;
    let table = parse_str(input).unwrap();

    // read the anonymous table
    let anon = table.get("_").unwrap();
    assert_eq!(3, anon.len());
    assert_eq!(Some(&Value::Num(42)), anon.get(&Key::Str("anon")));
    assert_eq!(Some(&Value::Str("hi")), anon.get(&"boop".into()));
    assert_eq!(Some(&Value::Str("great")), anon.get(&Key::Num(8)));

    // read the empty table
    let empty = table.get("empty").unwrap();
    assert_eq!(0, empty.len());

    // Read the categories
    for i in ["general", "bar junk", "another"] {
        let map = table.get(i).unwrap();
        assert_eq!(9, map.len());
        assert_eq!(Some(&Value::Str("bar")), map.get(&"foo".into()));
        assert_eq!(Some(&Value::Num(42)), map.get(&"num".into()));
        assert_eq!(Some(&Value::Num(42)), map.get(&"bum".into()));
        assert_eq!(Some(&Value::Str("world")), map.get(&"a".into()));
        assert_eq!(Some(&Value::Str("world")), map.get(&"b".into()));
        assert_eq!(Some(&Value::Str("world")), map.get(&"c".into()));
        assert_eq!(Some(&Value::Str("tom foo")), map.get(&"d".into()));
        assert_eq!(
            Some(&Value::Array(vec![
                Value::Num(1),
                Value::Num(2),
                Value::Num(3)
            ])),
            map.get(&"e".into())
        );
        assert_eq!(
            Some(&Value::Array(vec![
                Value::Str("one"),
                Value::Str("two"),
                Value::Str("three")
            ])),
            map.get(&"f".into())
        );
    }
}

#[test]
fn digits_in_key_position_are_a_number() {
    let table = parse_str("8 = great\n").unwrap();
    let anon = table.get("_").unwrap();
    assert_eq!(Some(&Value::Str("great")), anon.get(&Key::Num(8)));
    assert_eq!(None, anon.get(&Key::Str("8")));
}

#[test]
fn lines_before_first_header_go_under_underscore() {
    let table = parse_str("anon = 42\nboop = hi\n[general]\nfoo = bar\n").unwrap();
    assert_eq!(2, table.len());
    let anon = table.get("_").unwrap();
    assert_eq!(2, anon.len());
    assert_eq!(Some(&Value::Num(42)), anon.get(&Key::Str("anon")));
    assert_eq!(Some(&Value::Str("hi")), anon.get(&Key::Str("boop")));
    let general = table.get("general").unwrap();
    assert_eq!(1, general.len());
    assert_eq!(Some(&Value::Str("bar")), general.get(&Key::Str("foo")));
}

#[test]
fn no_lines_before_first_header_leave_no_underscore() {
    let table = parse_str("[general]\nfoo = bar\n").unwrap();
    assert_eq!(1, table.len());
    assert!(table.get("_").is_none());
    assert!(!table.contains_key("_"));
    assert!(table.contains_key("general"));
}

#[test]
fn empty_text_is_an_empty_document() {
    let table = parse_str("").unwrap();
    assert_eq!(0, table.len());
}

#[test]
fn later_key_overwrites_earlier_key() {
    let table = parse_str("a = 1\na = 2\nb = 3\n").unwrap();
    let anon = table.get("_").unwrap();
    assert_eq!(2, anon.len());
    assert_eq!(Some(&Value::Num(2)), anon.get(&Key::Str("a")));
    assert_eq!(Some(&Value::Num(3)), anon.get(&Key::Str("b")));
}

#[test]
fn later_section_overwrites_earlier_section() {
    let table = parse_str("[s]\na = 1\n[t]\nb = 2\n[s]\nc = 3\n").unwrap();
    assert_eq!(2, table.len());
    let s = table.get("s").unwrap();
    assert_eq!(1, s.len());
    assert_eq!(None, s.get(&Key::Str("a")));
    assert_eq!(Some(&Value::Num(3)), s.get(&Key::Str("c")));
}

#[test]
fn lines_before_header_overwrite_section_named_underscore() {
    let table = parse_str("a = 1\n[_]\nb = 2\n").unwrap();
    assert_eq!(1, table.len());
    let anon = table.get("_").unwrap();
    assert_eq!(Some(&Value::Num(1)), anon.get(&Key::Str("a")));
    assert_eq!(None, anon.get(&Key::Str("b")));
}

#[test]
fn text_that_no_rule_takes_is_left_unread() {
    let (rest, table) = dungeon_ini::parse::tables("a = 1\n!!! junk\n[s]\nb = 2\n");
    assert_eq!("!!! junk\n[s]\nb = 2\n", rest);
    assert_eq!(1, table.len());
    assert!(table.get("s").is_none());
}

#[test]
fn key_like_reads_a_token_of_digits_as_a_number() {
    assert_eq!(("= x", Key::Num(8)), dungeon_ini::parse::key_like("8 = x"));
    assert_eq!((",2", Key::Num(42)), dungeon_ini::parse::key_like("42 \t,2"));
    assert_eq!(("", Key::Num(0)), dungeon_ini::parse::key_like("  \n\t 000"));
    assert_eq!(
        ("", Key::Num(9223372036854775807)),
        dungeon_ini::parse::key_like("9223372036854775807")
    );
    assert_eq!(
        ("", Key::Num(42)),
        dungeon_ini::parse::key_like("0000000000000000000000042")
    );
    assert_eq!(Key::Num(7), dungeon_ini::parse::atom("7"));
}

#[test]
fn key_like_reads_a_token_that_only_starts_with_digits_as_a_text() {
    assert_eq!(("", Key::Str("1B")), dungeon_ini::parse::key_like("1B"));
    assert_eq!(("", Key::Str("42abc")), dungeon_ini::parse::key_like("42abc"));
    assert_eq!(("=", Key::Str("4_2")), dungeon_ini::parse::key_like("4_2="));
    assert_eq!((";", Key::Str("1 2")), dungeon_ini::parse::key_like(" 1 2 ;"));
    assert_eq!(("", Key::Str("x1")), dungeon_ini::parse::key_like("x1"));
    assert_eq!(Key::Str("1 "), dungeon_ini::parse::atom("1 "));
    assert_eq!(Key::Str(""), dungeon_ini::parse::atom(""));
}

#[test]
fn key_like_reads_digits_too_large_as_a_word() {
    assert_eq!(
        ("", Key::Str("9223372036854775808")),
        dungeon_ini::parse::key_like("9223372036854775808")
    );
    assert_eq!(
        ("=1", Key::Str("99999999999999999999 big")),
        dungeon_ini::parse::key_like(" 99999999999999999999 big =1")
    );
    assert_eq!(
        (",", Key::Str("99999999999999999999")),
        dungeon_ini::parse::key_like("99999999999999999999  ,")
    );
}

#[test]
fn key_like_trims_the_end_of_a_word() {
    assert_eq!(("= x", Key::Str("tom foo")), dungeon_ini::parse::key_like("tom foo \t = x"));
    assert_eq!((";c", Key::Str("a_b9")), dungeon_ini::parse::key_like("\r\n a_b9;c"));
    assert_eq!(("", Key::Str("")), dungeon_ini::parse::key_like(""));
    assert_eq!(("=5", Key::Str("")), dungeon_ini::parse::key_like("  =5"));
    assert_eq!(("\u{e9}t\u{e9}", Key::Str("")), dungeon_ini::parse::key_like("\u{e9}t\u{e9}"));
    assert_eq!(("\u{e9}", Key::Str("caf")), dungeon_ini::parse::key_like("caf\u{e9}"));
}

#[test]
fn space_separated_keeps_leading_blanks() {
    assert_eq!(("]", " bar junk"), dungeon_ini::parse::space_separated(" bar junk  ]"));
    assert_eq!(("\nx", ""), dungeon_ini::parse::space_separated("\nx"));
}

#[test]
fn value_is_a_list_only_when_a_comma_follows_at_once() {
    assert_eq!(
        ("\nnext", Value::Array(vec![Value::Num(1), Value::Num(2), Value::Num(3)])),
        dungeon_ini::parse::value("1, 2, 3\nnext")
    );
    assert_eq!(
        ("; junk", Value::Array(vec![Value::Str("one"), Value::Num(2), Value::Str("three")])),
        dungeon_ini::parse::value(" one, 2,three; junk")
    );
    assert_eq!(
        ("", Value::Array(vec![Value::Num(1), Value::Num(2)])),
        dungeon_ini::parse::value("1 , 2")
    );
    assert_eq!(
        ("\n", Value::Array(vec![Value::Num(1), Value::Str("b"), Value::Num(3)])),
        dungeon_ini::parse::value("1\t ,\t b  ,3 \n")
    );
    assert_eq!(("; c", Value::Num(1)), dungeon_ini::parse::value("1  ; c"));
    assert_eq!(("", Value::Str("1 2")), dungeon_ini::parse::value("1 2"));
    assert_eq!(
        ("", Value::Array(vec![Value::Str("one"), Value::Str("two")])),
        dungeon_ini::parse::value("one , two")
    );
    assert_eq!(
        ("", Value::Array(vec![Value::Num(1), Value::Str("")])),
        dungeon_ini::parse::value("1,")
    );
    assert_eq!(("", Value::Str("world")), dungeon_ini::parse::value("world "));
}

#[test]
fn values_reads_one_or_more() {
    assert_eq!(("", vec![Value::Num(7)]), dungeon_ini::parse::values("7"));
    assert_eq!(
        ("!", vec![Value::Str("a"), Value::Str("b")]),
        dungeon_ini::parse::values("a,\n b!")
    );
}

#[test]
fn key_value_reads_key_sign_value() {
    let r = dungeon_ini::parse::key_value("hello = tom foo").unwrap();
    assert_eq!(("", (Key::Str("hello"), Value::Str("tom foo"))), r);
    let r = dungeon_ini::parse::key_value("hello=   42  ; foop ").unwrap();
    assert_eq!(("; foop ", (Key::Str("hello"), Value::Num(42))), r);
    let r = dungeon_ini::parse::key_value("num\t=\t42\nx").unwrap();
    assert_eq!(("\nx", (Key::Str("num"), Value::Num(42))), r);
}

#[test]
fn key_value_misses_the_sign() {
    let e = dungeon_ini::parse::key_value("hello world\n").unwrap_err();
    assert_eq!(dungeon_ini::grammar::Rule::Char, e.code);
    assert_eq!("\n", e.input);
    let e = dungeon_ini::parse::key_value("key  : 5").unwrap_err();
    assert_eq!(": 5", e.input);
}

#[test]
fn eol_reads_comment_and_line_breaks() {
    assert_eq!(("x", None), dungeon_ini::parse::eol("\n\r\n\nx").unwrap());
    assert_eq!(
        ("c = 1", Some("skip me (mind the gap)")),
        dungeon_ini::parse::eol(" ;skip me (mind the gap)\n\nc = 1").unwrap()
    );
    assert_eq!(("", Some("")), dungeon_ini::parse::eol(";\r\n").unwrap());
    assert_eq!(
        ("x", Some(" two")),
        dungeon_ini::parse::eol("  \n\n ; two\nx").unwrap()
    );
}

#[test]
fn eol_needs_a_line_break() {
    let e = dungeon_ini::parse::eol("x\n").unwrap_err();
    assert_eq!(dungeon_ini::grammar::Rule::CrLf, e.code);
    assert_eq!("x\n", e.input);
    // blanks before the line break are no end of line
    let e = dungeon_ini::parse::eol("  \n").unwrap_err();
    assert_eq!("  \n", e.input);
    // a comment that the text ends in has no line break after it
    let e = dungeon_ini::parse::eol("; last").unwrap_err();
    assert_eq!(dungeon_ini::grammar::Rule::CrLf, e.code);
    assert_eq!("", e.input);
    // a carriage return alone ends no line
    let e = dungeon_ini::parse::eol("\rx").unwrap_err();
    assert_eq!("\rx", e.input);
    // a comment with a carriage return alone in it is no comment
    let e = dungeon_ini::parse::eol(";a\rb\n").unwrap_err();
    assert_eq!(";a\rb\n", e.input);
}

#[test]
fn section_reads_the_name_between_brackets() {
    assert_eq!(("", "something"), dungeon_ini::parse::section("[something]").unwrap());
    assert_eq!((" ; x", "bar junk"), dungeon_ini::parse::section("[bar junk] ; x").unwrap());
    assert_eq!(("\n", ""), dungeon_ini::parse::section("[]\n").unwrap());
    assert_eq!(("", " a_1"), dungeon_ini::parse::section("[ a_1 ]").unwrap());
}

#[test]
fn section_misses_a_bracket() {
    let e = dungeon_ini::parse::section("general]").unwrap_err();
    assert_eq!(dungeon_ini::grammar::Rule::Char, e.code);
    assert_eq!("general]", e.input);
    let e = dungeon_ini::parse::section("[general").unwrap_err();
    assert_eq!("", e.input);
    let e = dungeon_ini::parse::section("[a.b]").unwrap_err();
    assert_eq!(".b]", e.input);
    let e = dungeon_ini::parse::section("").unwrap_err();
    assert_eq!("", e.input);
}

#[test]
fn group_reads_header_and_body() {
    let (rest, (name, body)) = dungeon_ini::parse::group("[general]\nfoo = bar\nnum = 42\n").unwrap();
    assert_eq!("", rest);
    assert_eq!("general", name);
    assert_eq!(2, body.len());
    assert_eq!(Some(&Value::Str("bar")), body.get(&"foo".into()));
    assert_eq!(Some(&Value::Num(42)), body.get(&"num".into()));
    let (rest, (name, body)) = dungeon_ini::parse::group("[general]").unwrap();
    assert_eq!("", rest);
    assert_eq!("general", name);
    assert_eq!(0, body.len());
    assert!(body.is_empty());
    assert!(dungeon_ini::parse::group("foo = bar").is_err());
}

#[test]
fn key_values_stops_at_the_first_line_that_is_none() {
    let (rest, body) = dungeon_ini::parse::key_values("a = 1\n\n\nb = 2 ; two\n[next]\nc = 3");
    assert_eq!("[next]\nc = 3", rest);
    assert_eq!(2, body.len());
    assert!(body.contains_key(&Key::Str("b")));
    assert!(!body.contains_key(&Key::Str("c")));
}

#[test]
fn group_insert_and_get() {
    let mut group = dungeon_ini::Group::new();
    assert!(group.is_empty());
    group.insert(Key::Num(1), Value::Str("one"));
    group.insert(Key::Str("1"), Value::Str("text"));
    group.insert(Key::Num(1), Value::Num(11));
    assert_eq!(2, group.len());
    assert_eq!(Some(&Value::Num(11)), group.get(&Key::Num(1)));
    assert_eq!(Some(&Value::Str("text")), group.get(&Key::Str("1")));
    assert_eq!(None, group.get(&Key::Num(2)));
}

#[test]
fn keys_and_values_are_equal_by_what_they_hold() {
    assert!(Key::Num(1) == Key::Num(1));
    assert!(Key::Num(1) != Key::Num(2));
    assert!(Key::Num(1) != Key::Str("1"));
    assert!(Key::Str("a") == Key::Str(&String::from("a")));
    assert!(Key::Str("a") != Key::Str("b"));
    assert!(Value::Num(1) == Value::Num(1));
    assert!(Value::Num(1) != Value::Str("1"));
    assert!(Value::Str("x") == Value::Str("x"));
    assert!(Value::Array(vec![]) == Value::Array(vec![]));
    assert!(Value::Array(vec![Value::Num(1)]) != Value::Array(vec![]));
    assert!(Value::Array(vec![Value::Num(1)]) != Value::Array(vec![Value::Num(2)]));
    assert!(Value::Array(vec![Value::Num(1)]) != Value::Num(1));
    assert!(
        Value::Array(vec![Value::Str("a"), Value::Array(vec![Value::Num(1)])])
            == Value::Array(vec![Value::Str("a"), Value::Array(vec![Value::Num(1)])])
    );
}

#[test]
fn sections_insert_and_get() {
    let mut doc = dungeon_ini::Sections::new();
    let mut a = dungeon_ini::Group::new();
    a.insert(Key::Str("k"), Value::Num(1));
    doc.insert("a", a);
    doc.insert("b", dungeon_ini::Group::new());
    doc.insert("a", dungeon_ini::Group::new());
    assert_eq!(2, doc.len());
    assert_eq!(0, doc.get("a").unwrap().len());
    assert!(doc.get("c").is_none());
}

#[test]
fn value_clone_is_equal() {
    let v = Value::Array(vec![Value::Num(1), Value::Str("two"), Value::Array(vec![])]);
    assert_eq!(v, v.clone());
    assert_eq!(Value::Num(5), Value::from(Key::Num(5)));
    assert_eq!(Value::Str("s"), Value::from(Key::Str("s")));
    assert_eq!(Key::Num(5), Key::from(5));
    assert_eq!(Key::Str("s"), Key::from("s"));
}

#[test]
fn entries_come_in_the_order_of_first_mention() {
    let table = parse_str("b = 1\na = 2\nb = 3\n[z]\n[y]\nk = v\n[z]\n").unwrap();
    let names: Vec<&str> = table.entries().iter().map(|(name, _)| *name).collect();
    assert_eq!(vec!["z", "y", "_"], names);
    let anon = table.get("_").unwrap();
    assert_eq!(
        &vec![(Key::Str("b"), Value::Num(3)), (Key::Str("a"), Value::Num(2))],
        anon.entries()
    );
}

#[test]
fn should_parse_empty_group() {
    let input = "[general]";
    let (_, (table, map)) = dungeon_ini::parse::group(input).unwrap();
    assert_eq!("general", table);
    assert_eq!(0, map.len());
}

#[test]
fn should_parse_group() {
    let input = "[general]\nfoo = bar\nnum = 42\n";
    let (_, (table, map)) = dungeon_ini::parse::group(input).unwrap();
    assert_eq!("[general]\nfoo = bar\nnum = 42\n", input);
    println!("{:?}", map);
    assert_eq!("general", table);
    assert_eq!(2, map.len());
    assert_eq!(Some(&Value::Str("bar")), map.get(&"foo".into()));
    assert_eq!(Some(&Value::Num(42)), map.get(&"num".into()));
}
