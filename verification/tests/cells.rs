use dbf_reader::{
    as_bool, as_char, as_date, as_text_lhs, as_text_raw, as_text_rhs, is_blank, Cell, CellKind, Date,
    Error,
};

#[test]
fn blank_cells() {
    assert!(is_blank(b""));
    assert!(is_blank(b" \t\n\r\x0C"));
    assert!(!is_blank(b"  a "));
    assert!(!is_blank(b"\x0B"));
}

#[test]
fn text_readings() {
    assert_eq!(as_text_raw(b"  ab  ").unwrap(), "  ab  ");
    assert_eq!(as_text_lhs(b"ab  \t").unwrap(), "ab");
    assert_eq!(as_text_rhs(b"   42").unwrap(), "42");
    assert_eq!(as_text_lhs(b"  ab").unwrap(), "  ab");
    assert_eq!(as_text_raw("caf\u{e9}".as_bytes()).unwrap(), "caf\u{e9}");
    assert!(matches!(as_text_raw(b"\xFF"), Err(Error::ConvertText(_))));
    assert!(matches!(as_text_lhs(b"a\xC3"), Err(Error::ConvertText(_))));
    assert!(matches!(as_text_rhs(b"\x80"), Err(Error::ConvertText(_))));
}

#[test]
fn bool_codes() {
    for code in [b"T", b"t", b"Y", b"y"] {
        assert_eq!(as_bool(code).unwrap(), Some(true));
    }
    for code in [b"F", b"f", b"N", b"n"] {
        assert_eq!(as_bool(code).unwrap(), Some(false));
    }
    assert_eq!(as_bool(b"?").unwrap(), None);
    assert_eq!(as_bool(b" ").unwrap(), None);
}

#[test]
fn bool_errors() {
    match as_bool(b"X") {
        Err(Error::InvalidBool(text)) => assert_eq!(text, "X"),
        _ => panic!("expected InvalidBool"),
    }
    match as_bool(b"TT") {
        Err(Error::InvalidBool(text)) => assert_eq!(text, "TT"),
        _ => panic!("expected InvalidBool"),
    }
    match as_bool(b"") {
        Err(Error::InvalidBool(text)) => assert_eq!(text, ""),
        _ => panic!("expected InvalidBool"),
    }
    assert!(matches!(as_bool(b"\xFF"), Err(Error::ConvertText(_))));
}

#[test]
fn char_cells() {
    assert_eq!(as_char(b"  x ").unwrap(), 'x');
    assert_eq!(as_char(b"   ").unwrap(), ' ');
    assert_eq!(as_char(b"").unwrap(), ' ');
    assert_eq!(as_char("\u{e9}".as_bytes()).unwrap(), '\u{e9}');
    assert!(matches!(as_char(b" ab "), Err(Error::InvalidChar('a', 'b'))));
    assert!(matches!(as_char(b"a b c"), Err(Error::InvalidChar('a', 'b'))));
    assert!(matches!(as_char(b"\xFF"), Err(Error::ConvertText(_))));
}

#[test]
fn date_cells() {
    assert_eq!(as_date(b"        ").unwrap(), None);
    assert_eq!(as_date(b"").unwrap(), None);
    assert_eq!(as_date(b"20240131").unwrap(), Some(Date { year: 2024, month: 1, day: 31 }));
    assert!(matches!(as_date(b"20240231"), Err(Error::ConvertDate(_))));
    assert!(matches!(as_date(b"2024013x"), Err(Error::ConvertDate(_))));
    assert!(matches!(as_date(b"\xFF2024"), Err(Error::ConvertText(_))));
}

#[test]
fn date_text_is_iso() {
    assert_eq!(Date { year: 2024, month: 1, day: 5 }.to_string(), "2024-01-05");
    assert_eq!(Date { year: 987, month: 12, day: 31 }.to_string(), "0987-12-31");
    assert_eq!(Date { year: 0, month: 2, day: 29 }.to_string(), "0000-02-29");
    assert_eq!(Date { year: 12345, month: 6, day: 7 }.to_string(), "+12345-06-07");
    assert_eq!(Date { year: -44, month: 3, day: 15 }.to_string(), "-0044-03-15");
    assert_eq!(Date { year: 10000, month: 1, day: 1 }.to_string(), "+10000-01-01");
}

#[test]
fn date_text_matches_chrono() {
    for (y, m, d) in [(2024, 1, 5), (987, 12, 31), (12345, 6, 7), (-44, 3, 15), (-262000, 1, 1)] {
        let date = chrono::NaiveDate::from_ymd_opt(y, m, d).unwrap();
        assert_eq!(Date { year: y, month: m, day: d }.to_string(), date.to_string());
    }
}

#[test]
fn cell_text() {
    let cell = Cell { kind: CellKind::Text, data: b"hello   " };
    assert_eq!(cell.text().unwrap(), "hello");
    let cell = Cell { kind: CellKind::Integer, data: b"   12" };
    assert_eq!(cell.text().unwrap(), "   12");
    let cell = Cell { kind: CellKind::Date, data: b"19991231" };
    assert_eq!(cell.text().unwrap(), "1999-12-31");
    let cell = Cell { kind: CellKind::Date, data: b"        " };
    assert_eq!(cell.text().unwrap(), "");
    let cell = Cell { kind: CellKind::Date, data: b"1999x231" };
    assert!(matches!(cell.text(), Err(Error::ConvertDate(_))));
    let cell = Cell { kind: CellKind::Text, data: b"\xFF" };
    assert!(matches!(cell.text(), Err(Error::ConvertText(_))));
}

#[test]
fn cell_to_bool() {
    assert!(Cell { kind: CellKind::Bool, data: b"Y" }.to_bool().unwrap());
    assert!(!Cell { kind: CellKind::Bool, data: b"n" }.to_bool().unwrap());
    assert!(matches!(Cell { kind: CellKind::Bool, data: b"?" }.to_bool(), Err(Error::UnwrapBool)));
    assert!(matches!(Cell { kind: CellKind::Bool, data: b"Q" }.to_bool(), Err(Error::InvalidBool(_))));
}

#[test]
fn cell_is_null() {
    assert!(Cell { kind: CellKind::Text, data: b"   " }.is_null().unwrap());
    assert!(Cell { kind: CellKind::Integer, data: b"" }.is_null().unwrap());
    assert!(!Cell { kind: CellKind::Text, data: b" x " }.is_null().unwrap());
    assert!(Cell { kind: CellKind::Bool, data: b"?" }.is_null().unwrap());
    assert!(Cell { kind: CellKind::Bool, data: b" " }.is_null().unwrap());
    assert!(!Cell { kind: CellKind::Bool, data: b"T" }.is_null().unwrap());
    assert!(matches!(Cell { kind: CellKind::Bool, data: b"Z" }.is_null(), Err(Error::InvalidBool(_))));
    assert!(!Cell { kind: CellKind::Text, data: b"Z" }.is_null().unwrap());
}

#[test]
fn integer_cells() {
    let cell = |data: &'static [u8]| Cell { kind: CellKind::Integer, data };
    assert_eq!(cell(b"   42").to_i64().unwrap(), 42);
    assert_eq!(cell(b"  -42").to_i64().unwrap(), -42);
    assert_eq!(cell(b"+7").to_u8().unwrap(), 7);
    assert_eq!(cell(b"007").to_i16().unwrap(), 7);
    assert_eq!(cell(b"-128").to_i8().unwrap(), -128);
    assert_eq!(cell(b"255").to_u8().unwrap(), 255);
    assert_eq!(cell(b"65535").to_u16().unwrap(), 65535);
    assert_eq!(cell(b"-2147483648").to_i32().unwrap(), i32::MIN);
    assert_eq!(cell(b"4294967295").to_u32().unwrap(), u32::MAX);
    assert_eq!(cell(b"18446744073709551615").to_u64().unwrap(), u64::MAX);
    assert!(matches!(cell(b"256").to_u8(), Err(Error::ConvertInt(_))));
    assert!(matches!(cell(b"-129").to_i8(), Err(Error::ConvertInt(_))));
    assert!(matches!(cell(b"-1").to_u32(), Err(Error::ConvertInt(_))));
    assert!(matches!(cell(b"42  ").to_i64(), Err(Error::ConvertInt(_))));
    assert!(matches!(cell(b"     ").to_i64(), Err(Error::ConvertInt(_))));
    assert!(matches!(cell(b"+").to_i64(), Err(Error::ConvertInt(_))));
    assert!(matches!(cell(b"1.5").to_i64(), Err(Error::ConvertInt(_))));
    assert!(matches!(cell(b"\xFF1").to_i64(), Err(Error::ConvertText(_))));
}
