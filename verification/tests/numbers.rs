use dungeon_ini::de::{read_decimal, write_decimal, write_signed, Error, NumError};
use dungeon_ini::parse::de::OwnedKey;
use std::num::IntErrorKind;

fn reason(kind: &IntErrorKind) -> NumError {
    match kind {
        IntErrorKind::Empty => NumError::Empty,
        IntErrorKind::InvalidDigit => NumError::InvalidDigit,
        IntErrorKind::PosOverflow => NumError::PosOverflow,
        other => panic!("{:?}", other),
    }
}

/// Holds the library to std on `prefix` and on every text that puts up to
/// `len` pieces of `alphabet` behind it. A token holds no sign, so none is
/// tried here.
fn all(alphabet: &[&str], len: usize, prefix: &mut String) {
    let text = prefix.as_str();
    match (text.parse::<i64>(), read_decimal(text, i64::MAX as u64)) {
        (Ok(a), Ok(b)) => assert_eq!(a as u64, b, "{:?}", text),
        (Err(e), Err(f)) => {
            assert_eq!(reason(e.kind()), f, "{:?}", text);
            assert_eq!(
                format!("expected number, found {:?}", e),
                Error::ExpectNum(f).message()
            );
        }
        (a, b) => panic!("{:?}: {:?} / {:?}", text, a, b),
    }
    match (text.parse::<u64>(), read_decimal(text, u64::MAX)) {
        (Ok(a), Ok(b)) => assert_eq!(a, b, "{:?}", text),
        (Err(e), Err(f)) => assert_eq!(reason(e.kind()), f, "{:?}", text),
        (a, b) => panic!("{:?}: {:?} / {:?}", text, a, b),
    }
    let key = OwnedKey::Str(text.to_string());
    assert_eq!(format!("expected bool, found {:?}", key), Error::ExpectBool(key).message());
    assert_eq!(
        format!("expected number, found {:?}", text),
        Error::ExpectIdent(text.to_string()).message()
    );
    if len == 0 {
        return;
    }
    for a in alphabet {
        let n = prefix.len();
        prefix.push_str(a);
        all(alphabet, len - 1, prefix);
        prefix.truncate(n);
    }
}

#[test]
fn digits_are_read_as_std_reads_them() {
    let alphabet = [
        "0", "9", "a", "_", " ", "\t", "922337203685477580", "1844674407370955161", "7", "5",
        "6", "8",
    ];
    all(&alphabet, 4, &mut String::new());
}

#[test]
fn numbers_are_written_as_std_writes_them() {
    let mut n: u64 = 0;
    for i in 0..200000u64 {
        assert_eq!(n.to_string(), write_decimal(n));
        let s = n as i64;
        assert_eq!(s.to_string(), write_signed(s));
        assert_eq!(
            format!("expected char, found {:?}", OwnedKey::Num(s)),
            Error::ExpectChar(OwnedKey::Num(s)).message()
        );
        n = n.wrapping_mul(6364136223846793005).wrapping_add(1442695040888963407 + i);
    }
    for n in [0, 1, 9, 10, 99, 100, u64::MAX, u64::MAX - 1, i64::MAX as u64, i64::MAX as u64 + 1] {
        assert_eq!(n.to_string(), write_decimal(n));
        assert_eq!((n as i64).to_string(), write_signed(n as i64));
    }
}
