//! The current row of a table: the field descriptions and one record buffer.

use crate::de::cell::Cell;
use crate::de::column::{
    column_outcome, column_readable, lemma_column_error, lemma_column_read, Column,
};
use crate::error::Error;
use vstd::prelude::*;

verus! {

/// The number of whole 32-byte field descriptors in a header.
pub open spec fn descriptor_count(header: Seq<u8>) -> int {
    header.len() as int / 32
}

/// The `i`-th 32-byte field descriptor of a header.
pub open spec fn descriptor(header: Seq<u8>, i: int) -> Seq<u8> {
    header.subrange(32 * i, 32 * i + 32)
}

/// The bytes after the last whole descriptor; a well-formed header has just
/// the terminator `0x0D` there.
pub open spec fn header_rest(header: Seq<u8>) -> Seq<u8> {
    header.skip(32 * descriptor_count(header))
}

/// Where the data of the `i`-th field starts in a record: after the one-byte
/// deletion flag and the widths of the fields before it.
pub open spec fn zone_start(header: Seq<u8>, i: nat) -> int
    decreases i,
{
    if i == 0 {
        1
    } else {
        zone_start(header, (i - 1) as nat) + descriptor(header, i - 1)[16]
    }
}

/// Field positions only grow.
pub proof fn lemma_zone_start_monotone(header: Seq<u8>, i: nat, j: nat)
    requires
        i <= j,
    ensures
        zone_start(header, i) <= zone_start(header, j),
    decreases j,
{
    if i < j {
        lemma_zone_start_monotone(header, i, (j - 1) as nat);
    }
}

/// Every field adds at most 255 bytes to a record.
pub proof fn lemma_zone_start_bound(header: Seq<u8>, i: nat)
    ensures
        1 <= zone_start(header, i) <= 1 + 255 * i,
    decreases i,
{
    if i > 0 {
        lemma_zone_start_bound(header, (i - 1) as nat);
    }
}

/// What parsing the field descriptors of a header gives. A header is its
/// 32-byte descriptors followed by the terminator `0x0D`; the fields are read in
/// order, each placed right after the previous one, and the first descriptor
/// that cannot be read ends the parse with its error. The record buffer is
/// zeroed and one byte longer than all fields together.
#[verifier::opaque]
pub open spec fn record_outcome(header: Seq<u8>, r: Result<Record, Error>) -> bool {
    let n = descriptor_count(header);
    match r {
        Err(Error::HeaderRemain(rest)) => header_rest(header) != seq![0x0Du8] && rest@
            == header_rest(header),
        Ok(rec) => {
            &&& header_rest(header) == seq![0x0Du8]
            &&& rec.fields@.len() == n
            &&& forall|i: int|
                0 <= i < n ==> column_outcome(
                    descriptor(header, i),
                    zone_start(header, i as nat),
                    Ok(#[trigger] rec.fields@[i]),
                )
            &&& rec.buffer@ == Seq::new(zone_start(header, n as nat) as nat, |_i: int| 0u8)
        },
        Err(e) => {
            &&& header_rest(header) == seq![0x0Du8]
            &&& exists|k: int|
                0 <= k < n && (forall|i: int|
                    0 <= i < k ==> column_readable(#[trigger] descriptor(header, i)))
                    && column_outcome(descriptor(header, k), zone_start(header, k as nat), Err(e))
        },
    }
}

/// Whether the bytes of a record mark it live: its deletion flag, the first
/// byte, is a space.
pub open spec fn live_flag(bytes: Seq<u8>) -> bool {
    bytes.len() > 0 && bytes[0] == 0x20
}

/// The current row in a [`Document`](crate::de::document::Document).
pub struct Record {
    pub fields: Vec<Column>,
    pub buffer: Vec<u8>,
}

impl Record {
    /// Whether every field's byte range lies in the record buffer.
    pub open spec fn wf(&self) -> bool {
        forall|i: int|
            0 <= i < self.fields@.len() ==> (#[trigger] self.fields@[i]).zone.start
                <= self.fields@[i].zone.end <= self.buffer@.len()
    }

    /// Whether the fields lie side by side after the deletion flag and fill the
    /// rest of the buffer.
    pub open spec fn tiled(&self) -> bool {
        let n = self.fields@.len() as int;
        &&& forall|i: int|
            0 <= i < n ==> (#[trigger] self.fields@[i]).zone.start <= self.fields@[i].zone.end
        &&& n > 0 ==> self.fields@[0].zone.start == 1
        &&& forall|i: int|
            0 < i < n ==> (#[trigger] self.fields@[i]).zone.start == self.fields@[i - 1].zone.end
        &&& self.buffer@.len() == if n > 0 {
            self.fields@[n - 1].zone.end as int
        } else {
            1
        }
    }

    /// Whether the record is live: its deletion flag is a space.
    pub open spec fn spec_alive(&self) -> bool {
        live_flag(self.buffer@)
    }

    /// Parses the field descriptors that follow the first 32 bytes of a file
    /// header, and makes a zeroed buffer for one record.
    pub fn parse(header: Vec<u8>) -> (r: Result<Record, Error>)
        requires
            zone_start(header@, descriptor_count(header@) as nat) <= usize::MAX,
        ensures
            record_outcome(header@, r),
            r matches Ok(rec) ==> {
                &&& fields_read(header@, rec.fields@, descriptor_count(header@))
                &&& rec.buffer@ == Seq::new(
                    zone_start(header@, descriptor_count(header@) as nat) as nat,
                    |_i: int| 0u8,
                )
                &&& rec.tiled()
                &&& rec.wf()
                &&& !rec.spec_alive()
            },
    {
        let count = header.len() / 32;
        proof {
            lemma_descriptors_fit(header@.len() as int);
        }
        let rest = vstd::slice::slice_subrange(header.as_slice(), count * 32, header.len());
        assert(rest@ =~= header_rest(header@));
        if !terminator_only(rest) {
            let remain = vstd::slice::slice_to_vec(rest);
            proof {
                lemma_record_remain(header@, remain@);
            }
            return Err(Error::HeaderRemain(remain));
        }
        let (fields, end) = match parse_fields(header.as_slice(), count) {
            Ok(parsed) => parsed,
            Err(e) => {
                proof {
                    lemma_record_err(header@, e);
                }
                return Err(e);
            },
        };
        let buffer = vec![0u8; end];
        let record = Record { fields, buffer };
        proof {
            assert(record.buffer@ =~= Seq::new(end as nat, |_i: int| 0u8));
            lemma_record_ok(header@, record);
            lemma_fields_tile(header@, record);
            lemma_zone_start_bound(header@, count as nat);
            lemma_zeroed_not_alive(record, end as nat);
        }
        Ok(record)
    }

    /// Whether the record is live, that is, not marked as deleted.
    pub fn alive(&self) -> (r: bool)
        ensures
            r == self.spec_alive(),
    {
        self.buffer.len() > 0 && self.buffer[0] == 0x20
    }

    /// A cursor over the record's fields, before the first of them.
    pub fn cells(&self) -> (r: CellPeek<'_>)
        requires
            self.wf(),
        ensures
            r.columns() == self.fields@,
            r.data() == self.buffer@,
            r.position() == 0,
            r.current() is None,
    {
        CellPeek { fields: self.fields.as_slice(), buffer: self.buffer.as_slice(), next: 0, active: None }
    }
}

/// The bytes of the first `k` fields of a record, one after the other.
pub open spec fn fields_bytes(rec: Record, k: int) -> Seq<u8>
    decreases k,
{
    if k <= 0 {
        Seq::empty()
    } else {
        fields_bytes(rec, k - 1) + rec.buffer@.subrange(
            rec.fields@[k - 1].zone.start as int,
            rec.fields@[k - 1].zone.end as int,
        )
    }
}

/// In a record laid out by [`Record::parse`], the fields' bytes taken in order
/// are exactly the record's bytes after its deletion flag.
pub proof fn lemma_fields_cover_record(rec: Record)
    requires
        rec.tiled(),
    ensures
        fields_bytes(rec, rec.fields@.len() as int) == rec.buffer@.skip(1),
{
    let n = rec.fields@.len() as int;
    lemma_fields_prefix(rec, n);
    if n == 0 {
        assert(rec.buffer@.skip(1) =~= Seq::<u8>::empty());
    } else {
        assert(rec.buffer@.subrange(1, rec.fields@[n - 1].zone.end as int) =~= rec.buffer@.skip(1));
    }
}

proof fn lemma_fields_prefix(rec: Record, k: int)
    requires
        rec.tiled(),
        0 <= k <= rec.fields@.len(),
    ensures
        k == 0 ==> fields_bytes(rec, k) == Seq::<u8>::empty(),
        k > 0 ==> fields_bytes(rec, k) == rec.buffer@.subrange(1, rec.fields@[k - 1].zone.end as int),
    decreases k,
{
    if k > 0 {
        lemma_fields_prefix(rec, k - 1);
        let n = rec.fields@.len() as int;
        lemma_zones_within(rec, k - 1);
        if k == 1 {
            assert(fields_bytes(rec, 1) =~= rec.buffer@.subrange(1, rec.fields@[0].zone.end as int));
        } else {
            let a = rec.fields@[k - 2].zone.end as int;
            assert(rec.fields@[k - 1].zone.start == a);
            assert(rec.buffer@.subrange(1, a) + rec.buffer@.subrange(
                a,
                rec.fields@[k - 1].zone.end as int,
            ) =~= rec.buffer@.subrange(1, rec.fields@[k - 1].zone.end as int));
        }
    }
}

/// In a tiled record, every field's range lies between the deletion flag and
/// the end of the buffer.
proof fn lemma_zones_within(rec: Record, j: int)
    requires
        rec.tiled(),
        0 <= j < rec.fields@.len(),
    ensures
        1 <= rec.fields@[j].zone.start <= rec.fields@[j].zone.end <= rec.buffer@.len(),
    decreases rec.fields@.len() - j,
{
    let n = rec.fields@.len() as int;
    if j == n - 1 {
        lemma_starts_after_flag(rec, j);
    } else {
        lemma_zones_within(rec, j + 1);
        lemma_starts_after_flag(rec, j);
        assert(rec.fields@[j + 1].zone.start == rec.fields@[j].zone.end);
    }
}

proof fn lemma_starts_after_flag(rec: Record, j: int)
    requires
        rec.tiled(),
        0 <= j < rec.fields@.len(),
    ensures
        1 <= rec.fields@[j].zone.start,
    decreases j,
{
    if j > 0 {
        lemma_starts_after_flag(rec, j - 1);
        assert(rec.fields@[j].zone.start == rec.fields@[j - 1].zone.end);
    }
}

/// A cursor over the fields of a record that yields, field by field, the
/// field's name and then its cell.
pub struct CellPeek<'a> {
    fields: &'a [Column],
    buffer: &'a [u8],
    next: usize,
    active: Option<&'a Column>,
}

impl<'a> CellPeek<'a> {
    #[verifier::type_invariant]
    spec fn consistent(&self) -> bool {
        &&& forall|i: int|
            0 <= i < self.fields@.len() ==> (#[trigger] self.fields@[i]).zone.start
                <= self.fields@[i].zone.end <= self.buffer@.len()
        &&& self.next <= self.fields@.len()
        &&& self.active matches Some(c) ==> self.next > 0 && *c == self.fields@[self.next - 1]
    }

    /// The fields being walked.
    pub closed spec fn columns(&self) -> Seq<Column> {
        self.fields@
    }

    /// The record's bytes.
    pub closed spec fn data(&self) -> Seq<u8> {
        self.buffer@
    }

    /// How many fields have been stepped onto.
    pub closed spec fn position(&self) -> nat {
        self.next as nat
    }

    /// The field the cursor is on, if any.
    pub closed spec fn current(&self) -> Option<Column> {
        match self.active {
            Some(c) => Some(*c),
            None => None,
        }
    }

    /// Steps onto the next field and gives its name; past the last field the
    /// cursor is on no field and gives `None`.
    pub fn next_name(&mut self) -> (r: Option<&'a str>)
        ensures
            final(self).columns() == old(self).columns(),
            final(self).data() == old(self).data(),
            old(self).position() < old(self).columns().len() ==> {
                &&& final(self).position() == old(self).position() + 1
                &&& final(self).current() == Some(old(self).columns()[old(self).position() as int])
                &&& r matches Some(name) && name@ == old(self).columns()[old(
                    self,
                ).position() as int].name@
            },
            old(self).position() >= old(self).columns().len() ==> {
                &&& final(self).position() == old(self).position()
                &&& final(self).current() is None
                &&& r is None
            },
    {
        proof {
            use_type_invariant(&*self);
        }
        if self.next < self.fields.len() {
            let field: &'a Column = &self.fields[self.next];
            *self = CellPeek {
                fields: self.fields,
                buffer: self.buffer,
                next: self.next + 1,
                active: Some(field),
            };
            Some(field.name.as_str())
        } else {
            self.active = None;
            None
        }
    }

    /// The cell of the field the cursor is on: the field's kind and its bytes
    /// of the record.
    pub fn cell(&self) -> (r: Option<Cell<'a>>)
        ensures
            match self.current() {
                None => r is None,
                Some(c) => r matches Some(cell) && cell.kind == c.kind && cell.data@
                    == self.data().subrange(c.zone.start as int, c.zone.end as int),
            },
    {
        proof {
            use_type_invariant(self);
        }
        match self.active {
            Some(field) => {
                proof {
                    let k = self.next - 1;
                    assert(self.fields@[k].zone.start <= self.fields@[k].zone.end
                        <= self.buffer@.len());
                }
                Some(
                    Cell {
                        kind: field.kind,
                        data: vstd::slice::slice_subrange(
                            self.buffer,
                            field.zone.start,
                            field.zone.end,
                        ),
                    },
                )
            },
            None => None,
        }
    }
}

/// The whole descriptors of a header lie inside it.
proof fn lemma_descriptors_fit(len: int)
    requires
        0 <= len,
    ensures
        0 <= 32 * (len / 32) <= len,
{
    assert(0 <= 32 * (len / 32) <= len) by (nonlinear_arith)
        requires
            0 <= len,
    ;
}

/// Whether some bytes are exactly the header terminator `0x0D`.
fn terminator_only(rest: &[u8]) -> (r: bool)
    ensures
        r == (rest@ == seq![0x0Du8]),
{
    let r = rest.len() == 1 && rest[0] == 0x0D;
    proof {
        if rest@ == seq![0x0Du8] {
            assert(rest@[0] == 0x0D);
        }
        if r {
            assert(rest@ =~= seq![0x0Du8]);
        }
    }
    r
}

/// Whether `fields` are what the first `k` descriptors of `header` read as.
pub open spec fn fields_read(header: Seq<u8>, fields: Seq<Column>, k: int) -> bool {
    &&& fields.len() == k
    &&& forall|j: int|
        0 <= j < k ==> (#[trigger] fields[j]).zone.start == zone_start(header, j as nat)
            && fields[j].zone.end == zone_start(header, (j + 1) as nat)
    &&& forall|j: int|
        0 <= j < k ==> column_outcome(
            descriptor(header, j),
            zone_start(header, j as nat),
            Ok(#[trigger] fields[j]),
        )
}

/// Reads the first `count` descriptors in order, stopping at the first
/// error; on success also gives where the last field ends.
fn parse_fields(header: &[u8], count: usize) -> (r: Result<(Vec<Column>, usize), Error>)
    requires
        count == descriptor_count(header@),
        zone_start(header@, count as nat) <= usize::MAX,
    ensures
        match r {
            Ok((fields, end)) => fields_read(header@, fields@, count as int) && end == zone_start(
                header@,
                count as nat,
            ),
            Err(e) => !(e is HeaderRemain) && exists|k: int|
                0 <= k < count && (forall|i: int|
                    0 <= i < k ==> column_readable(#[trigger] descriptor(header@, i)))
                    && column_outcome(descriptor(header@, k), zone_start(header@, k as nat), Err(e)),
        },
{
    let len = header.len();
    let mut index: usize = 1;
    let mut fields: Vec<Column> = Vec::new();
    let mut i: usize = 0;
    proof {
        lemma_descriptors_fit(header@.len() as int);
    }
    while i < count
        invariant
            count == descriptor_count(header@),
            32 * count <= header@.len() <= usize::MAX,
            zone_start(header@, count as nat) <= usize::MAX,
            0 <= i <= count,
            index == zone_start(header@, i as nat),
            fields_read(header@, fields@, i as int),
        decreases count - i,
    {
        assert(32 * i + 32 <= header@.len()) by (nonlinear_arith)
            requires
                i < count,
                32 * count <= header@.len(),
        ;
        let chunk = vstd::slice::slice_subrange(header, 32 * i, 32 * i + 32);
        assert(chunk@ == descriptor(header@, i as int));
        proof {
            lemma_zone_start_monotone(header@, (i + 1) as nat, count as nat);
        }
        let ghost start = index;
        match Column::parse(chunk, &mut index) {
            Ok(column) => {
                proof {
                    lemma_column_read(descriptor(header@, i as int), start as int, column);
                }
                fields.push(column);
            },
            Err(e) => {
                proof {
                    assert forall|j: int| 0 <= j < i implies column_readable(
                        #[trigger] descriptor(header@, j),
                    ) by {
                        lemma_column_read(
                            descriptor(header@, j),
                            zone_start(header@, j as nat),
                            fields@[j],
                        );
                    }
                    assert(column_outcome(descriptor(header@, i as int), start as int, Err(e)));
                    lemma_column_error(descriptor(header@, i as int), start as int, e);
                }
                return Err(e);
            },
        }
        i = i + 1;
    }
    Ok((fields, index))
}

proof fn lemma_record_ok(header: Seq<u8>, record: Record)
    requires
        header_rest(header) == seq![0x0Du8],
        fields_read(header, record.fields@, descriptor_count(header)),
        record.buffer@ == Seq::new(
            zone_start(header, descriptor_count(header) as nat) as nat,
            |_i: int| 0u8,
        ),
    ensures
        record_outcome(header, Ok(record)),
{
    reveal(record_outcome);
}

/// A zeroed record buffer is not live.
proof fn lemma_zeroed_not_alive(record: Record, len: nat)
    requires
        len >= 1,
        record.buffer@ == Seq::new(len, |_i: int| 0u8),
    ensures
        !record.spec_alive(),
{
    assert(record.buffer@[0] == 0u8);
}

proof fn lemma_record_remain(header: Seq<u8>, rest: Seq<u8>)
    requires
        header_rest(header) != seq![0x0Du8],
        rest == header_rest(header),
    ensures
        forall|v: Vec<u8>| v@ == rest ==> record_outcome(header, Err(Error::HeaderRemain(v))),
{
    reveal(record_outcome);
}

proof fn lemma_record_err(header: Seq<u8>, e: Error)
    requires
        header_rest(header) == seq![0x0Du8],
        !(e is HeaderRemain),
        exists|k: int|
            0 <= k < descriptor_count(header) && (forall|i: int|
                0 <= i < k ==> column_readable(#[trigger] descriptor(header, i)))
                && column_outcome(descriptor(header, k), zone_start(header, k as nat), Err(e)),
    ensures
        record_outcome(header, Err(e)),
{
    reveal(record_outcome);
}

/// The fields read from a header lie side by side after the deletion flag and
/// fill the record buffer.
proof fn lemma_fields_tile(header: Seq<u8>, record: Record)
    requires
        fields_read(header, record.fields@, descriptor_count(header)),
        record.buffer@.len() == zone_start(header, descriptor_count(header) as nat),
    ensures
        record.tiled(),
        record.wf(),
{
    let n = descriptor_count(header);
    assert forall|j: int| 0 <= j < n implies (#[trigger] record.fields@[j]).zone.start
        <= record.fields@[j].zone.end <= record.buffer@.len() by {
        lemma_zone_start_monotone(header, (j + 1) as nat, n as nat);
    }
    if n > 0 {
        assert(record.fields@[0].zone.start == 1);
    }
}

} // verus!
