//! A table as it is being streamed: the parsed header, the current record and
//! the number of records still to come.

use crate::de::column::{column_outcome, column_readable, lemma_column_error, lemma_column_read};
use crate::de::record::{
    live_flag,
    descriptor, descriptor_count, header_rest, lemma_zone_start_bound, record_outcome,
    zone_start, Record,
};
use crate::error::Error;
use vstd::prelude::*;

verus! {

/// The little-endian 16-bit number at `at`.
pub open spec fn le_u16(bytes: Seq<u8>, at: int) -> int {
    bytes[at] + 256 * bytes[at + 1]
}

/// The little-endian 32-bit number at `at`.
pub open spec fn le_u32(bytes: Seq<u8>, at: int) -> int {
    bytes[at] + 256 * bytes[at + 1] + 65536 * bytes[at + 2] + 16777216 * bytes[at + 3]
}

/// What the first 32 bytes of a table say about the rest of it.
#[derive(Clone, Copy, Debug, PartialEq, Eq, Structural)]
pub struct Header {
    /// The number of records in the table.
    pub count: usize,
    /// The number of header bytes after these first 32: the field descriptors
    /// and the terminator.
    pub header_size: usize,
    /// The length of one record.
    pub record_size: usize,
}

/// The header that the first 32 bytes of a table describe: the record count
/// at bytes 4..8, the header length at bytes 8..10 (at least these 32 bytes)
/// and the record length at bytes 10..12, all little-endian.
pub open spec fn spec_header(head: Seq<u8>) -> Result<Header, Error> {
    if le_u16(head, 8) < 32 {
        Err(Error::HeaderLength)
    } else {
        Ok(
            Header {
                count: le_u32(head, 4) as usize,
                header_size: (le_u16(head, 8) - 32) as usize,
                record_size: le_u16(head, 10) as usize,
            },
        )
    }
}

/// The law of the file header: the record count is the little-endian 32-bit
/// number at bytes 4..8, the header is at least 32 bytes long as the
/// little-endian 16-bit number at bytes 8..10 says, and then the header bytes
/// after the first 32 and the record length are that number less 32 and the
/// little-endian 16-bit number at bytes 10..12.
pub proof fn lemma_header_fields(head: Seq<u8>)
    requires
        head.len() == 32,
    ensures
        head[8] + 256 * head[9] < 32 ==> spec_header(head) == Err::<Header, Error>(
            Error::HeaderLength,
        ),
        head[8] + 256 * head[9] >= 32 ==> {
            &&& spec_header(head) matches Ok(h)
            &&& h.count == head[4] + 256 * head[5] + 65536 * head[6] + 16777216 * head[7]
            &&& h.header_size == head[8] + 256 * head[9] - 32
            &&& h.record_size == head[10] + 256 * head[11]
        },
{
}

/// Whether a header's descriptors all read as columns and are properly
/// terminated.
pub open spec fn header_readable(rest: Seq<u8>) -> bool {
    &&& header_rest(rest) == seq![0x0Du8]
    &&& forall|i: int|
        0 <= i < descriptor_count(rest) ==> column_readable(#[trigger] descriptor(rest, i))
}

/// The length of a record that a header's descriptors describe.
pub open spec fn described_length(rest: Seq<u8>) -> int {
    zone_start(rest, descriptor_count(rest) as nat)
}

impl Header {
    /// Reads the first 32 bytes of a table.
    pub fn parse(head: &[u8]) -> (r: Result<Header, Error>)
        requires
            head@.len() == 32,
        ensures
            r == spec_header(head@),
    {
        let count = head[4] as u32 + 256 * head[5] as u32 + 65536 * head[6] as u32 + 16777216
            * head[7] as u32;
        let header_size = head[8] as u16 + 256 * head[9] as u16;
        let record_size = head[10] as u16 + 256 * head[11] as u16;
        match (header_size as usize).checked_sub(32) {
            Some(size) => Ok(
                Header {
                    count: count as usize,
                    header_size: size,
                    record_size: record_size as usize,
                },
            ),
            None => Err(Error::HeaderLength),
        }
    }
}

/// The reading state of a table: the current record, the records still to
/// come, and whether the stream has ended. Its record's fields always lie in
/// its buffer.
struct Stream {
    record: Record,
    count: usize,
    ended: bool,
}

impl Stream {
    #[verifier::type_invariant]
    spec fn consistent(&self) -> bool {
        &&& self.record.wf()
        &&& self.ended ==> self.count == 0
    }

    fn start(record: Record, count: usize) -> (r: Stream)
        requires
            record.wf(),
        ensures
            r.record == record,
            r.count == count,
            !r.ended,
    {
        Stream { record, count, ended: false }
    }

    fn get(&self) -> (r: Option<&Record>)
        ensures
            match r {
                Some(rec) => !self.ended && self.record.spec_alive() && *rec == self.record
                    && rec.wf(),
                None => self.ended || !self.record.spec_alive(),
            },
    {
        proof {
            use_type_invariant(self);
        }
        if !self.ended && self.record.alive() {
            Some(&self.record)
        } else {
            None
        }
    }

    fn claim(&mut self) -> (r: bool)
        ensures
            r == (old(self).count > 0),
            r ==> final(self).count == old(self).count - 1 && final(self).ended == old(self).ended,
            !r ==> final(self).count == old(self).count && final(self).ended,
            final(self).record == old(self).record,
    {
        proof {
            use_type_invariant(&*self);
        }
        match self.count.checked_sub(1) {
            Some(count) => {
                self.count = count;
                true
            },
            None => {
                self.ended = true;
                false
            },
        }
    }

    fn accept(&mut self, bytes: &mut Vec<u8>) -> (stop: bool)
        requires
            old(bytes)@.len() == old(self).record.buffer@.len(),
        ensures
            final(self).record.fields == old(self).record.fields,
            final(self).record.buffer@ == old(bytes)@,
            final(bytes)@ == old(self).record.buffer@,
            final(self).count == old(self).count,
            final(self).ended == old(self).ended,
            stop == final(self).record.spec_alive(),
    {
        proof {
            use_type_invariant(&*self);
        }
        core::mem::swap(&mut self.record.buffer, bytes);
        self.record.alive()
    }
}

/// A .dbf file as it is being streamed.
pub struct Document<File> {
    stream: Stream,
    file: File,
}

impl<File> Document<File> {
    /// The current record.
    pub closed spec fn current(&self) -> Record {
        self.stream.record
    }

    /// The number of records not read yet.
    pub closed spec fn remaining(&self) -> nat {
        self.stream.count as nat
    }

    /// Whether the stream has ended: a record was asked for when none was left.
    pub closed spec fn ended(&self) -> bool {
        self.stream.ended
    }

    /// The source the records are read from.
    pub closed spec fn source(&self) -> File {
        self.file
    }
}

impl<File> Document<File> {
    /// Opens a table from its first 32 bytes `head` and the `rest` of its
    /// header, which [`Header::parse`] says how long it is; `file` yields the
    /// records that follow.
    pub fn new(file: File, head: &[u8], rest: Vec<u8>) -> (r: Result<Self, Error>)
        requires
            head@.len() == 32,
            spec_header(head@) matches Ok(h) ==> rest@.len() == h.header_size,
        ensures
            spec_header(head@) is Err ==> r matches Err(Error::HeaderLength),
            spec_header(head@) matches Ok(h) ==> match r {
                Ok(doc) => {
                    &&& record_outcome(rest@, Ok(doc.current()))
                    &&& doc.current().buffer@.len() == h.record_size
                    &&& doc.remaining() == h.count
                    &&& doc.source() == file
                    &&& !doc.ended()
                },
                Err(Error::RecordLength(found, expected)) => {
                    &&& header_readable(rest@)
                    &&& found == described_length(rest@)
                    &&& expected == h.record_size
                    &&& found != expected
                },
                Err(e) => record_outcome(rest@, Err(e)),
            },
    {
        let header = match Header::parse(head) {
            Ok(header) => header,
            Err(e) => {
                return Err(e);
            },
        };
        proof {
            lemma_zone_start_bound(rest@, descriptor_count(rest@) as nat);
        }
        let record = match Record::parse(rest) {
            Ok(record) => record,
            Err(e) => {
                proof {
                    lemma_not_record_length(rest@, e);
                }
                return Err(e);
            },
        };
        if record.buffer.len() == header.record_size {
            Ok(Document { stream: Stream::start(record, header.count), file })
        } else {
            proof {
                lemma_readable(rest@, record);
            }
            Err(Error::RecordLength(record.buffer.len(), header.record_size))
        }
    }

    /// The current record, while the stream has not ended and the record is
    /// live.
    pub fn get(&self) -> (r: Option<&Record>)
        ensures
            match r {
                Some(rec) => !self.ended() && self.current().spec_alive() && *rec
                    == self.current() && rec.wf(),
                None => self.ended() || !self.current().spec_alive(),
            },
    {
        self.stream.get()
    }

    /// How many records are still to come, as a lower and an upper bound.
    pub fn size_hint(&self) -> (r: (usize, Option<usize>))
        ensures
            r == (self.remaining() as usize, Some(self.remaining() as usize)),
    {
        (self.stream.count, Some(self.stream.count))
    }

    /// The first step of moving to the next record: takes the next record
    /// slot when one is left, after which the caller reads the record and
    /// hands it to [`Document::accept`]. When none is left the stream ends,
    /// and from then on [`Document::get`] gives nothing.
    pub fn claim(&mut self) -> (r: bool)
        ensures
            r == (old(self).remaining() > 0),
            r ==> final(self).remaining() == old(self).remaining() - 1 && final(self).ended()
                == old(self).ended(),
            !r ==> final(self).remaining() == old(self).remaining() && final(self).ended(),
            final(self).current() == old(self).current(),
            final(self).source() == old(self).source(),
            final(self).ended() ==> final(self).remaining() == 0,
    {
        proof {
            use_type_invariant(&self.stream);
        }
        let r = self.stream.claim();
        proof {
            use_type_invariant(&self.stream);
        }
        r
    }

    /// The source of the records, for reading the next one.
    pub fn source_mut(&mut self) -> (r: &mut File)
        ensures
            *r == old(self).source(),
            final(self).source() == *final(r),
            final(self).current() == old(self).current(),
            final(self).remaining() == old(self).remaining(),
            final(self).ended() == old(self).ended(),
    {
        &mut self.file
    }

    /// The length of a record.
    pub fn record_len(&self) -> (r: usize)
        ensures
            r == self.current().buffer@.len(),
    {
        self.stream.record.buffer.len()
    }

    /// The second step of moving to the next record: makes `bytes`, the
    /// record just read, the current record, and hands back the previous
    /// record's bytes for reuse. Moving stops at this record exactly when it
    /// is live (`true`); a deleted record asks for the next one.
    pub fn accept(&mut self, bytes: &mut Vec<u8>) -> (stop: bool)
        requires
            old(bytes)@.len() == old(self).current().buffer@.len(),
        ensures
            final(self).current().fields == old(self).current().fields,
            final(self).current().buffer@ == old(bytes)@,
            final(bytes)@ == old(self).current().buffer@,
            final(self).source() == old(self).source(),
            final(self).remaining() == old(self).remaining(),
            final(self).ended() == old(self).ended(),
            stop == final(self).current().spec_alive(),
            final(self).ended() ==> final(self).remaining() == 0,
    {
        let stop = self.stream.accept(bytes);
        proof {
            use_type_invariant(&self.stream);
        }
        stop
    }
}

/// Moving to the next record, as a run of [`Document::claim`] and
/// [`Document::accept`] steps: from a current record with bytes `buffer`,
/// `remaining` records left and the `ended` flag, over the records `next` that
/// the source yields in order. Each step claims a record (the stream ends when
/// none is left), reads the next one and stops when it is live; when the
/// source gives out the read fails after the claim. The result is the current
/// record's bytes, the records left and the flag.
pub open spec fn advance_outcome(
    buffer: Seq<u8>,
    remaining: nat,
    ended: bool,
    next: Seq<Seq<u8>>,
) -> (Seq<u8>, nat, bool)
    decreases remaining,
{
    if remaining == 0 {
        (buffer, 0, true)
    } else if next.len() == 0 {
        (buffer, (remaining - 1) as nat, ended)
    } else if live_flag(next[0]) {
        (next[0], (remaining - 1) as nat, ended)
    } else {
        advance_outcome(next[0], (remaining - 1) as nat, ended, next.drop_first())
    }
}

/// The law of moving to the next record: the count of records left never
/// rises and the record keeps its length. When the source holds the records
/// still to come, the move ends either on the first live one among them, with
/// the stream going on, or, when none of them is live, at the end of the
/// stream with no record left.
pub proof fn lemma_advance(buffer: Seq<u8>, remaining: nat, ended: bool, next: Seq<Seq<u8>>)
    requires
        ended ==> remaining == 0,
        forall|i: int| 0 <= i < next.len() ==> (#[trigger] next[i]).len() == buffer.len(),
    ensures
        ({
            let (now, left, over) = advance_outcome(buffer, remaining, ended, next);
            let read = remaining - left;
            &&& left <= remaining
            &&& now.len() == buffer.len()
            &&& over ==> left == 0
            &&& next.len() >= remaining ==> {
                ||| over && forall|j: int| 0 <= j < remaining ==> !live_flag(#[trigger] next[j])
                ||| {
                    &&& !over
                    &&& 1 <= read
                    &&& now == next[read - 1]
                    &&& live_flag(now)
                    &&& forall|j: int| 0 <= j < read - 1 ==> !live_flag(#[trigger] next[j])
                }
            }
        }),
    decreases remaining,
{
    if remaining > 0 && next.len() > 0 && !live_flag(next[0]) {
        let rest = next.drop_first();
        assert forall|i: int| 0 <= i < rest.len() implies (#[trigger] rest[i]).len()
            == next[0].len() by {
            assert(rest[i] == next[i + 1]);
        }
        lemma_advance(next[0], (remaining - 1) as nat, ended, rest);
        let (now, left, over) = advance_outcome(next[0], (remaining - 1) as nat, ended, rest);
        if next.len() >= remaining {
            if over {
                assert forall|j: int| 0 <= j < remaining implies !live_flag(#[trigger] next[j]) by {
                    if j > 0 {
                        assert(next[j] == rest[j - 1]);
                    }
                }
            } else {
                let read = remaining - left;
                assert(rest[read - 2] == next[read - 1]);
                assert forall|j: int| 0 <= j < read - 1 implies !live_flag(#[trigger] next[j]) by {
                    if j > 0 {
                        assert(next[j] == rest[j - 1]);
                    }
                }
            }
        }
    }
}

proof fn lemma_not_record_length(rest: Seq<u8>, e: Error)
    requires
        record_outcome(rest, Err(e)),
    ensures
        !(e is RecordLength),
{
    reveal(record_outcome);
    if e is RecordLength {
        let k = choose|k: int|
            0 <= k < descriptor_count(rest) && (forall|i: int|
                0 <= i < k ==> column_readable(#[trigger] descriptor(rest, i)))
                && column_outcome(descriptor(rest, k), zone_start(rest, k as nat), Err(e));
        lemma_column_error(descriptor(rest, k), zone_start(rest, k as nat), e);
    }
}

proof fn lemma_readable(rest: Seq<u8>, record: Record)
    requires
        record_outcome(rest, Ok(record)),
    ensures
        header_readable(rest),
        record.buffer@.len() == described_length(rest),
{
    reveal(record_outcome);
    lemma_zone_start_bound(rest, descriptor_count(rest) as nat);
    assert forall|i: int| 0 <= i < descriptor_count(rest) implies column_readable(
        #[trigger] descriptor(rest, i),
    ) by {
        lemma_column_read(descriptor(rest, i), zone_start(rest, i as nat), record.fields@[i]);
    }
}

} // verus!
