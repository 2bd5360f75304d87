//! Lending of raw record bytes, one live record at a time.

use crate::de::record::live_flag;
use crate::error::Error;
use vstd::prelude::*;

verus! {

/// A source that lends one item at a time, borrowed from itself.
pub trait IterLend<'t> {
    type Item;

    fn next(&'t mut self) -> Result<Option<Self::Item>, Error>;
}

/// The records of a table as raw bytes, with a shared count of the records
/// still to read.
pub struct BytesIter<'n, File> {
    file: File,
    count: &'n mut usize,
    buffer: Vec<u8>,
}

impl<'n, File> BytesIter<'n, File> {
    /// A reader of records `bytes` long; `count` says how many are left.
    pub fn new(file: File, bytes: usize, count: &'n mut usize) -> (r: Self)
        ensures
            r.source() == file,
            r.buffer_view() == Seq::new(bytes as nat, |_i: int| 0u8),
            r.remaining() == *old(count),
    {
        let buffer = vec![0u8; bytes];
        proof {
            assert(buffer@ =~= Seq::new(bytes as nat, |_i: int| 0u8));
        }
        BytesIter { file, count, buffer }
    }

    /// The source the records are read from.
    pub closed spec fn source(&self) -> File {
        self.file
    }

    /// The bytes of the record read last.
    pub closed spec fn buffer_view(&self) -> Seq<u8> {
        self.buffer@
    }

    /// How many records are left to read.
    pub closed spec fn remaining(&self) -> nat {
        *self.count as nat
    }

    /// Takes the next record, if one is left: the shared count goes down by
    /// one and the caller reads the record into the buffer.
    pub fn claim(&mut self) -> (r: bool)
        ensures
            r == (old(self).remaining() > 0),
            final(self).remaining() == if r {
                (old(self).remaining() - 1) as nat
            } else {
                old(self).remaining()
            },
            final(self).source() == old(self).source(),
            final(self).buffer_view() == old(self).buffer_view(),
    {
        match self.count.checked_sub(1) {
            Some(remaining) => {
                *self.count = remaining;
                true
            },
            None => false,
        }
    }

    /// The source and the buffer, for reading the next record into it.
    pub fn read_target(&mut self) -> (r: (&mut File, &mut [u8]))
        ensures
            *r.0 == old(self).source(),
            r.1@ == old(self).buffer_view(),
            final(self).source() == *final(r.0),
            final(self).buffer_view() == final(r.1)@,
            final(self).remaining() == old(self).remaining(),
    {
        (&mut self.file, self.buffer.as_mut_slice())
    }

    /// Whether the record in the buffer is live (its deletion flag is a space).
    pub fn live(&self) -> (r: bool)
        ensures
            r == live_flag(self.buffer_view()),
    {
        self.buffer.len() > 0 && self.buffer[0] == 0x20
    }

    /// The data of the record in the buffer, after its deletion flag, when the
    /// record is live.
    pub fn lent(&self) -> (r: Option<&[u8]>)
        ensures
            match r {
                Some(data) => live_flag(self.buffer_view())
                    && data@ == self.buffer_view().skip(1),
                None => !live_flag(self.buffer_view()),
            },
    {
        if self.live() {
            let data = vstd::slice::slice_subrange(self.buffer.as_slice(), 1, self.buffer.len());
            assert(data@ =~= self.buffer@.skip(1));
            Some(data)
        } else {
            None
        }
    }
}

/// Lending the next record, as a run of [`BytesIter::claim`], a read into the
/// buffer and [`BytesIter::live`] steps: from the buffer `buffer` with
/// `remaining` records left, over the records `next` that the source yields
/// in order. It gives the buffer, the records left, and the data lent: that
/// of the first live record, after its deletion flag, or nothing when no
/// record is left. When the source gives out, the read fails after the claim
/// and nothing is lent.
pub open spec fn lend_outcome(buffer: Seq<u8>, remaining: nat, next: Seq<Seq<u8>>) -> (
    Seq<u8>,
    nat,
    Option<Seq<u8>>,
)
    decreases remaining,
{
    if remaining == 0 {
        (buffer, 0, None)
    } else if next.len() == 0 {
        (buffer, (remaining - 1) as nat, None)
    } else if live_flag(next[0]) {
        (next[0], (remaining - 1) as nat, Some(next[0].skip(1)))
    } else {
        lend_outcome(next[0], (remaining - 1) as nat, next.drop_first())
    }
}

/// The law of lending: the count of records left never rises. When the
/// source holds the records still to come, the data lent is that of the first
/// live record among them, after its deletion flag, and nothing is lent only
/// when none of them is live, which leaves no record.
pub proof fn lemma_lend(buffer: Seq<u8>, remaining: nat, next: Seq<Seq<u8>>)
    ensures
        ({
            let (now, left, data) = lend_outcome(buffer, remaining, next);
            let read = remaining - left;
            &&& left <= remaining
            &&& next.len() >= remaining ==> match data {
                None => left == 0 && forall|j: int|
                    0 <= j < remaining ==> !live_flag(#[trigger] next[j]),
                Some(d) => {
                    &&& 1 <= read
                    &&& now == next[read - 1]
                    &&& live_flag(now)
                    &&& d == now.skip(1)
                    &&& forall|j: int| 0 <= j < read - 1 ==> !live_flag(#[trigger] next[j])
                },
            }
        }),
    decreases remaining,
{
    if remaining > 0 && next.len() > 0 && !live_flag(next[0]) {
        let rest = next.drop_first();
        lemma_lend(next[0], (remaining - 1) as nat, rest);
        let (now, left, data) = lend_outcome(next[0], (remaining - 1) as nat, rest);
        if next.len() >= remaining {
            if data is None {
                assert forall|j: int| 0 <= j < remaining implies !live_flag(#[trigger] next[j]) by {
                    if j > 0 {
                        assert(next[j] == rest[j - 1]);
                    }
                }
            } else {
                let read = remaining - left;
                assert(rest[read - 2] == next[read - 1]);
                assert forall|j: int| 0 <= j < read - 1 implies !live_flag(#[trigger] next[j]) by {
                    if j > 0 {
                        assert(next[j] == rest[j - 1]);
                    }
                }
            }
        }
    }
}

} // verus!
