use dbf_reader::{BytesIter, CellKind, Document, Error, Header, Record};

fn descriptor(name: &[u8], code: u8, size: u8, dots: u8) -> Vec<u8> {
    let mut chunk = vec![0u8; 32];
    chunk[..name.len()].copy_from_slice(name);
    chunk[11] = code;
    chunk[16] = size;
    chunk[17] = dots;
    chunk
}

fn head(count: u32, header_size: u16, record_size: u16) -> Vec<u8> {
    let mut head = vec![0u8; 32];
    head[0] = 3;
    head[4..8].copy_from_slice(&count.to_le_bytes());
    head[8..10].copy_from_slice(&header_size.to_le_bytes());
    head[10..12].copy_from_slice(&record_size.to_le_bytes());
    head
}

fn rest() -> Vec<u8> {
    let mut rest = descriptor(b"ID", b'N', 3, 0);
    rest.extend(descriptor(b"NAME", b'C', 4, 0));
    rest.push(0x0D);
    rest
}

#[test]
fn header_fields() {
    let h = Header::parse(&head(0x0102_0304, 97, 8)).unwrap();
    assert_eq!(h, Header { count: 0x0102_0304, header_size: 65, record_size: 8 });
    let h = Header::parse(&head(0, 32, 1)).unwrap();
    assert_eq!(h.header_size, 0);
    assert!(matches!(Header::parse(&head(1, 31, 1)), Err(Error::HeaderLength)));
}

#[test]
fn document_opens() {
    let doc = Document::new((), &head(2, 97, 8), rest()).unwrap();
    assert_eq!(doc.size_hint(), (2, Some(2)));
    assert_eq!(doc.record_len(), 8);
    assert!(doc.get().is_none());
}

#[test]
fn document_open_errors() {
    assert!(matches!(Document::new((), &head(2, 20, 8), Vec::new()), Err(Error::HeaderLength)));
    match Document::new((), &head(2, 97, 9), rest()) {
        Err(Error::RecordLength(found, expected)) => assert_eq!((found, expected), (8, 9)),
        _ => panic!("expected RecordLength"),
    }
    let mut bad = rest();
    bad.pop();
    bad.push(0x0A);
    assert!(matches!(Document::new((), &head(2, 97, 8), bad), Err(Error::HeaderRemain(_))));
}

#[test]
fn document_streams_records() {
    let records = vec![b" 12 abcd".to_vec(), b"*99 zzzz".to_vec(), b" 7  q   ".to_vec()];
    let mut doc = Document::new(records, &head(3, 97, 8), rest()).unwrap();
    let mut scratch = vec![0u8; doc.record_len()];
    let mut seen = Vec::new();
    let mut stops = Vec::new();
    while doc.claim() {
        let next = doc.source_mut().remove(0);
        scratch.copy_from_slice(&next);
        stops.push(doc.accept(&mut scratch));
        seen.push(doc.get().map(|record| record.buffer.clone()));
        assert_eq!(doc.record_len(), 8);
    }
    assert_eq!(stops, vec![true, false, true]);
    assert_eq!(
        seen,
        vec![Some(b" 12 abcd".to_vec()), None, Some(b" 7  q   ".to_vec())]
    );
    assert_eq!(doc.size_hint(), (0, Some(0)));
    assert!(doc.get().is_none());
    assert!(!doc.claim());
}

#[test]
fn document_stream_ends_after_the_last_record() {
    let mut doc = Document::new(vec![b" 1  aaaa".to_vec()], &head(1, 97, 8), rest()).unwrap();
    let mut scratch = vec![0u8; doc.record_len()];
    assert!(doc.claim());
    let next = doc.source_mut().remove(0);
    scratch.copy_from_slice(&next);
    assert!(doc.accept(&mut scratch));
    assert!(doc.get().is_some());
    assert!(!doc.claim());
    assert!(doc.get().is_none());
}

#[test]
fn cell_cursor_walks_fields() {
    let mut record = Record::parse(rest()).unwrap();
    record.buffer.copy_from_slice(b" 42 ab  ");
    let mut cells = record.cells();
    assert!(cells.cell().is_none());
    assert_eq!(cells.next_name(), Some("ID"));
    let cell = cells.cell().unwrap();
    assert_eq!(cell.kind, CellKind::Integer);
    assert_eq!(cell.data, b"42 ");
    assert_eq!(cells.next_name(), Some("NAME"));
    let cell = cells.cell().unwrap();
    assert_eq!(cell.kind, CellKind::Text);
    assert_eq!(cell.data, b"ab  ");
    assert_eq!(cells.next_name(), None);
    assert!(cells.cell().is_none());
    assert_eq!(cells.next_name(), None);
}

#[test]
fn bytes_iter_lends_live_records() {
    let mut count = 2;
    let mut iter = BytesIter::new((), 4, &mut count);
    assert!(iter.lent().is_none());
    assert!(iter.claim());
    {
        let (_, buffer) = iter.read_target();
        buffer.copy_from_slice(b" abc");
    }
    assert!(iter.live());
    assert_eq!(iter.lent(), Some(&b"abc"[..]));
    assert!(iter.claim());
    {
        let (_, buffer) = iter.read_target();
        buffer.copy_from_slice(b"*abc");
    }
    assert!(!iter.live());
    assert!(iter.lent().is_none());
    assert!(!iter.claim());
    drop(iter);
    assert_eq!(count, 0);
}

#[test]
fn cells_cover_the_record_after_its_flag() {
    let mut record = Record::parse(rest()).unwrap();
    record.buffer.copy_from_slice(b"*123WXYZ");
    let mut cells = record.cells();
    let mut joined = Vec::new();
    while cells.next_name().is_some() {
        joined.extend_from_slice(cells.cell().unwrap().data);
    }
    assert_eq!(joined, b"123WXYZ".to_vec());
}
