//! The encoder: appends records to an in-memory byte stream, tracking how much
//! of the stream has been flushed to the backing medium.
//!
//! The writer models the write side of the file: `spec_data` is the byte
//! sequence appended so far and `spec_flushed` the length of the prefix that
//! has been handed to durable storage. An I/O shell drains the bytes to the
//! actual file; flushing never changes the bytes, only their durability.

use vstd::prelude::*;

use crate::format::{
    encode_line,
    spec_encode_record,
    spec_encode_records,
    Sentinel,
    spec_sentinel_or_default,
};

verus! {

/// How many records may be written between two forced flushes: `write_lines`
/// flushes after every record whose index is a multiple of this cadence.
pub const FLUSH_CADENCE: usize = 10000;

/// Number of records covered by the last forced flush after writing `n`
/// records: the cadence flushes after records `0`, `FLUSH_CADENCE`,
/// `2 * FLUSH_CADENCE`, ... so the last flush happened right after record
/// `((n - 1) / FLUSH_CADENCE) * FLUSH_CADENCE`.
pub open spec fn spec_last_flush_count(n: nat) -> nat {
    if n == 0 {
        0
    } else {
        ((n - 1) as nat / FLUSH_CADENCE as nat) * FLUSH_CADENCE as nat + 1
    }
}

/// Serializes records onto a byte stream.
pub struct TokensWriter {
    sentinel: Sentinel,
    data: Vec<u8>,
    flushed: usize,
}

impl TokensWriter {
    /// The sentinel this writer terminates records with.
    pub closed spec fn spec_sentinel(&self) -> Sentinel {
        self.sentinel
    }

    /// The bytes appended to the stream so far.
    pub closed spec fn spec_data(&self) -> Seq<u8> {
        self.data@
    }

    /// The length of the prefix of the stream that has been flushed.
    pub closed spec fn spec_flushed(&self) -> nat {
        self.flushed as nat
    }

    /// Only bytes that were written can have been flushed.
    pub open spec fn wf(&self) -> bool {
        self.spec_flushed() <= self.spec_data().len()
    }

    /// A fresh writer over an empty stream, with the given sentinel or the
    /// default one.
    pub fn new(sentinel: Option<Sentinel>) -> (w: Self)
        ensures
            w.wf(),
            w.spec_sentinel() == spec_sentinel_or_default(sentinel),
            w.spec_data() == Seq::<u8>::empty(),
            w.spec_flushed() == 0,
    {
        let s = match sentinel {
            Some(s) => s,
            None => Sentinel::default(),
        };
        TokensWriter { sentinel: s, data: Vec::new(), flushed: 0 }
    }

    /// Append one record: each token as two little-endian bytes, then the
    /// sentinel. Nothing is flushed.
    pub fn write_line(&mut self, line: &Vec<u16>)
        requires
            old(self).wf(),
        ensures
            final(self).wf(),
            final(self).spec_sentinel() == old(self).spec_sentinel(),
            final(self).spec_data() == old(self).spec_data() + spec_encode_record(
                line@,
                old(self).spec_sentinel(),
            ),
            final(self).spec_flushed() == old(self).spec_flushed(),
    {
        let mut bytes = encode_line(line, self.sentinel);
        self.data.append(&mut bytes);
    }

    /// Mark the whole stream written so far as flushed. The bytes themselves
    /// are untouched: flushing affects durability only, never content.
    pub fn flush(&mut self)
        requires
            old(self).wf(),
        ensures
            final(self).wf(),
            final(self).spec_sentinel() == old(self).spec_sentinel(),
            final(self).spec_data() == old(self).spec_data(),
            final(self).spec_flushed() == old(self).spec_data().len(),
    {
        self.flushed = self.data.len();
    }

    /// Hand the whole stream over, consuming the writer: the bytes an I/O
    /// shell writes to the backing file.
    pub fn into_bytes(self) -> (b: Vec<u8>)
        ensures
            b@ == self.spec_data(),
    {
        self.data
    }

    /// The bytes appended so far, for inspection without ending the stream.
    pub fn bytes(&self) -> (b: &Vec<u8>)
        ensures
            b@ == self.spec_data(),
    {
        &self.data
    }

    /// Append every record, in order, flushing after each record whose index
    /// is a multiple of `FLUSH_CADENCE`. The bytes appended are exactly the
    /// encoding of the records; the flush cadence decides only how much of
    /// them is durable when the call returns.
    pub fn write_lines(&mut self, lines: &Vec<Vec<u16>>)
        requires
            old(self).wf(),
        ensures
            final(self).wf(),
            final(self).spec_sentinel() == old(self).spec_sentinel(),
            final(self).spec_data() == old(self).spec_data() + spec_encode_records(
                lines.deep_view(),
                old(self).spec_sentinel(),
            ),
            lines.len() == 0 ==> final(self).spec_flushed() == old(self).spec_flushed(),
            lines.len() > 0 ==> final(self).spec_flushed() == old(self).spec_data().len()
                + spec_encode_records(
                lines.deep_view().take(spec_last_flush_count(lines.len() as nat) as int),
                old(self).spec_sentinel(),
            ).len(),
    {
        let ghost s = self.sentinel;
        let ghost rs = lines.deep_view();
        let mut i: usize = 0;
        while i < lines.len()
            invariant
                i <= lines.len(),
                rs == lines.deep_view(),
                rs.len() == lines.len(),
                self.wf(),
                self.spec_sentinel() == old(self).spec_sentinel(),
                s == old(self).spec_sentinel(),
                self.spec_data() == old(self).spec_data() + spec_encode_records(
                    rs.take(i as int),
                    s,
                ),
                i == 0 ==> self.spec_flushed() == old(self).spec_flushed(),
                i > 0 ==> self.spec_flushed() == old(self).spec_data().len()
                    + spec_encode_records(rs.take(spec_last_flush_count(i as nat) as int), s).len(),
            decreases lines.len() - i,
        {
            proof {
                assert(lines.deep_view()[i as int] == lines@[i as int].deep_view());
                assert(lines@[i as int].deep_view() =~= lines@[i as int]@);
                lemma_encode_records_push(rs.take(i as int), rs[i as int], s);
                assert(rs.take(i + 1) =~= rs.take(i as int).push(rs[i as int]));
            }
            self.write_line(&lines[i]);
            if i % FLUSH_CADENCE == 0 {
                self.flush();
                proof {
                    lemma_last_flush_count_at_flush(i as nat);
                }
            } else {
                proof {
                    lemma_last_flush_count_between(i as nat);
                }
            }
            i = i + 1;
        }
        proof {
            assert(rs.take(rs.len() as int) =~= rs);
        }
    }
}

/// Encoding one more record appends that record's encoding to the stream.
pub proof fn lemma_encode_records_push(rs: Seq<Seq<u16>>, r: Seq<u16>, s: Sentinel)
    ensures
        spec_encode_records(rs.push(r), s) == spec_encode_records(rs, s) + spec_encode_record(r, s),
    decreases rs.len(),
{
    if rs.len() == 0 {
        assert(rs.push(r).skip(1) =~= Seq::<Seq<u16>>::empty());
        assert(rs.push(r)[0] == r);
        assert(spec_encode_records(rs.push(r), s) == spec_encode_record(r, s)
            + spec_encode_records(rs.push(r).skip(1), s));
        assert(spec_encode_records(rs.push(r), s) =~= spec_encode_records(rs, s)
            + spec_encode_record(r, s));
    } else {
        assert(rs.push(r).skip(1) =~= rs.skip(1).push(r));
        lemma_encode_records_push(rs.skip(1), r, s);
        assert(rs.push(r)[0] == rs[0]);
        assert(spec_encode_records(rs.push(r), s) == spec_encode_record(rs[0], s) + (
        spec_encode_records(rs.skip(1), s) + spec_encode_record(r, s)));
        assert(spec_encode_record(rs[0], s) + (spec_encode_records(rs.skip(1), s)
            + spec_encode_record(r, s)) =~= (spec_encode_record(rs[0], s) + spec_encode_records(
            rs.skip(1),
            s,
        )) + spec_encode_record(r, s));
    }
}

/// After a flush at record `i`, the flushed prefix covers the first `i + 1`
/// records.
proof fn lemma_last_flush_count_at_flush(i: nat)
    requires
        i % FLUSH_CADENCE as nat == 0,
    ensures
        spec_last_flush_count(i + 1) == i + 1,
{
    let c = FLUSH_CADENCE as nat;
    vstd::arithmetic::div_mod::lemma_fundamental_div_mod(i as int, c as int);
}

/// Between flushes, the count of records covered by the last flush does not
/// move.
proof fn lemma_last_flush_count_between(i: nat)
    requires
        0 < i,
        i % FLUSH_CADENCE as nat != 0,
    ensures
        spec_last_flush_count(i + 1) == spec_last_flush_count(i),
{
    let c = FLUSH_CADENCE as int;
    let x = i as int;
    vstd::arithmetic::div_mod::lemma_fundamental_div_mod(x, c);
    vstd::arithmetic::div_mod::lemma_mod_bound(x, c);
    let q = x / c;
    let r = x % c;
    assert(x == q * c + r);
    assert(1 <= r < c);
    vstd::arithmetic::div_mod::lemma_fundamental_div_mod_converse(x - 1, c, q, r - 1);
    assert((x - 1) / c == q);
}

} // verus!
