use dbf_reader::{CellKind, Column, Error, Field, Record};

fn descriptor(name: &[u8], code: u8, size: u8, dots: u8) -> Vec<u8> {
    let mut chunk = vec![0u8; 32];
    chunk[..name.len()].copy_from_slice(name);
    chunk[11] = code;
    chunk[16] = size;
    chunk[17] = dots;
    chunk
}

#[test]
fn cell_kind_codes_without_dots() {
    assert_eq!(CellKind::parse(b'N', 0).unwrap(), CellKind::Integer);
    assert_eq!(CellKind::parse(b'N', 1).unwrap(), CellKind::Decimal);
    assert_eq!(CellKind::parse(b'C', 0).unwrap(), CellKind::Text);
    assert_eq!(CellKind::parse(b'L', 0).unwrap(), CellKind::Bool);
    assert_eq!(CellKind::parse(b'D', 0).unwrap(), CellKind::Date);
    assert_eq!(CellKind::parse(b'M', 0).unwrap(), CellKind::Memo);
}

#[test]
fn cell_kind_errors() {
    assert!(matches!(CellKind::parse(b'X', 0), Err(Error::UnknownCellType(b'X'))));
    assert!(matches!(CellKind::parse(b'X', 7), Err(Error::UnknownCellType(b'X'))));
    assert!(matches!(CellKind::parse(b'C', 1), Err(Error::ContainsDots(CellKind::Text))));
    assert!(matches!(CellKind::parse(b'D', 1), Err(Error::ContainsDots(CellKind::Date))));
    assert!(matches!(CellKind::parse(b'N', 2), Err(Error::MultipleDots(2))));
    assert!(matches!(CellKind::parse(b'L', 3), Err(Error::MultipleDots(3))));
}

#[test]
fn column_name_stops_at_nul() {
    let chunk = descriptor(b"NAME", b'C', 10, 0);
    let mut index = 1;
    let column = Column::parse(&chunk, &mut index).unwrap();
    assert_eq!(column.name, "NAME");
    assert_eq!(column.kind, CellKind::Text);
    assert_eq!(column.zone, 1..11);
    assert_eq!(index, 11);
}

#[test]
fn column_name_of_eleven_bytes() {
    let chunk = descriptor(b"ABCDEFGHIJK", b'N', 4, 1);
    let mut index = 5;
    let column = Column::parse(&chunk, &mut index).unwrap();
    assert_eq!(column.name, "ABCDEFGHIJK");
    assert_eq!(column.kind, CellKind::Decimal);
    assert_eq!(column.zone, 5..9);
    assert_eq!(index, 9);
}

#[test]
fn column_name_after_nul_is_ignored() {
    let chunk = descriptor(b"AB\0\xFF\xFE", b'L', 1, 0);
    let mut index = 1;
    let column = Column::parse(&chunk, &mut index).unwrap();
    assert_eq!(column.name, "AB");
}

#[test]
fn column_errors_still_advance_the_index() {
    let chunk = descriptor(b"\xFF\xFE", b'C', 3, 0);
    let mut index = 1;
    assert!(matches!(Column::parse(&chunk, &mut index), Err(Error::ConvertText(_))));
    assert_eq!(index, 4);

    let chunk = descriptor(b"X", b'Q', 8, 0);
    assert!(matches!(Column::parse(&chunk, &mut index), Err(Error::UnknownCellType(b'Q'))));
    assert_eq!(index, 12);
}

#[test]
fn column_bad_name_reported_before_bad_type() {
    let chunk = descriptor(b"\xC3", b'Q', 1, 0);
    let mut index = 1;
    assert!(matches!(Column::parse(&chunk, &mut index), Err(Error::ConvertText(_))));
}

#[test]
fn record_parse_lays_fields_side_by_side() {
    let mut header = descriptor(b"ID", b'N', 5, 0);
    header.extend(descriptor(b"NAME", b'C', 20, 0));
    header.extend(descriptor(b"OK", b'L', 1, 0));
    header.push(0x0D);
    let record = Record::parse(header).unwrap();
    assert_eq!(record.fields.len(), 3);
    assert_eq!(record.fields[0].zone, 1..6);
    assert_eq!(record.fields[1].zone, 6..26);
    assert_eq!(record.fields[2].zone, 26..27);
    assert_eq!(record.buffer, vec![0u8; 27]);
}

#[test]
fn record_parse_without_fields() {
    let record = Record::parse(vec![0x0D]).unwrap();
    assert!(record.fields.is_empty());
    assert_eq!(record.buffer, vec![0u8]);
}

#[test]
fn record_parse_needs_terminator() {
    let mut header = descriptor(b"ID", b'N', 5, 0);
    match Record::parse(header.clone()) {
        Err(Error::HeaderRemain(rest)) => assert!(rest.is_empty()),
        _ => panic!("expected HeaderRemain"),
    }
    header.extend([0x0D, 0x00]);
    match Record::parse(header) {
        Err(Error::HeaderRemain(rest)) => assert_eq!(rest, vec![0x0D, 0x00]),
        _ => panic!("expected HeaderRemain"),
    }
}

#[test]
fn record_parse_reports_first_bad_field() {
    let mut header = descriptor(b"ID", b'N', 5, 0);
    header.extend(descriptor(b"BAD", b'N', 5, 4));
    header.extend(descriptor(b"WORSE", b'Z', 5, 0));
    header.push(0x0D);
    assert!(matches!(Record::parse(header), Err(Error::MultipleDots(4))));
}

#[test]
fn record_alive_reads_the_deletion_flag() {
    let mut record = Record::parse(vec![0x0D]).unwrap();
    assert!(!record.alive());
    record.buffer[0] = b' ';
    assert!(record.alive());
    record.buffer[0] = b'*';
    assert!(!record.alive());
    record.buffer.clear();
    assert!(!record.alive());
}

#[test]
fn field_new_trims_zero_bytes() {
    let chunk = descriptor(b"\0CODE", b'C', 12, 0);
    let field = Field::new(&chunk).unwrap();
    assert_eq!(field.name(), "CODE");
    assert_eq!(field.kind(), CellKind::Text);
    assert_eq!(field.size(), 12);
}

#[test]
fn field_new_errors() {
    let chunk = descriptor(b"\xFF", b'C', 1, 0);
    assert!(matches!(Field::new(&chunk), Err(Error::ConvertText(_))));
    let chunk = descriptor(b"A", b'N', 1, 9);
    assert!(matches!(Field::new(&chunk), Err(Error::MultipleDots(9))));
}
