//! The guarantees the format gives, proved once and for all against the
//! mathematical encoder and decoder of `format`.

use vstd::prelude::*;

use crate::format::{
    spec_collides,
    spec_decode,
    spec_decode_from,
    spec_default_sentinel,
    spec_encode_record,
    spec_encode_records,
    spec_is_sentinel,
    spec_le_bytes,
    spec_record_collision_free,
    spec_records_collision_free,
    spec_token_bytes,
    spec_token_value,
    Sentinel,
};

verus! {

/// Combining the two little-endian bytes of a token gives the token back.
pub proof fn lemma_le_bytes_value(t: u16)
    ensures
        spec_token_value((t & 0xff) as u8, (t >> 8) as u8) == t,
{
    assert((((t & 0xff) as u8) as u16) | ((((t >> 8) as u8) as u16) << 8) == t) by (bit_vector);
}

/// A token whose bytes are read as the sentinel is exactly a colliding token.
pub proof fn lemma_sentinel_bytes_collide(t: u16, s: Sentinel)
    ensures
        spec_is_sentinel((t & 0xff) as u8, (t >> 8) as u8, s) == spec_collides(t, s),
{
}

/// Decoding the encoding of one collision-free record, whatever follows it
/// and whatever tokens were already accumulated, closes exactly one record —
/// the accumulated tokens followed by the record — and goes on decoding the
/// tail from a clean accumulator.
pub proof fn lemma_decode_encode_record(r: Seq<u16>, tail: Seq<u8>, acc: Seq<u16>, s: Sentinel)
    requires
        spec_record_collision_free(r, s),
    ensures
        spec_decode_from(spec_encode_record(r, s) + tail, s, acc) == seq![acc + r]
            + spec_decode_from(tail, s, Seq::empty()),
    decreases r.len(),
{
    let b = spec_encode_record(r, s) + tail;
    if r.len() == 0 {
        assert(b =~= seq![s.first, s.second] + tail);
        assert(b[0] == s.first && b[1] == s.second);
        assert(b.skip(2) =~= tail);
        assert(acc + r =~= acc);
    } else {
        let t = r[0];
        assert(spec_token_bytes(r) == spec_le_bytes(t) + spec_token_bytes(r.skip(1)));
        assert(b =~= spec_le_bytes(t) + (spec_encode_record(r.skip(1), s) + tail));
        assert(b[0] == (t & 0xff) as u8 && b[1] == (t >> 8) as u8);
        assert(!spec_collides(t, s));
        lemma_sentinel_bytes_collide(t, s);
        assert(!spec_is_sentinel(b[0], b[1], s));
        assert(b.skip(2) =~= spec_encode_record(r.skip(1), s) + tail);
        lemma_le_bytes_value(t);
        assert(spec_token_value(b[0], b[1]) == t);
        assert(forall|i: int|
            0 <= i < r.skip(1).len() ==> !spec_collides(#[trigger] r.skip(1)[i], s));
        lemma_decode_encode_record(r.skip(1), tail, acc.push(t), s);
        assert(acc.push(t) + r.skip(1) =~= acc + r);
    }
}

/// Round-trip: encoding any sequence of records in which no token's byte
/// pattern equals the sentinel, then decoding the bytes with the same
/// sentinel, yields back exactly the original records, in order, empty
/// records included.
pub proof fn lemma_round_trip(rs: Seq<Seq<u16>>, s: Sentinel)
    requires
        spec_records_collision_free(rs, s),
    ensures
        spec_decode(spec_encode_records(rs, s), s) == rs,
    decreases rs.len(),
{
    if rs.len() == 0 {
        assert(spec_decode(spec_encode_records(rs, s), s) =~= rs);
    } else {
        let tail = spec_encode_records(rs.skip(1), s);
        lemma_decode_encode_record(rs[0], tail, Seq::empty(), s);
        assert(Seq::<u16>::empty() + rs[0] =~= rs[0]);
        assert(forall|i: int|
            0 <= i < rs.skip(1).len() ==> spec_record_collision_free(
                #[trigger] rs.skip(1)[i],
                s,
            ));
        lemma_round_trip(rs.skip(1), s);
        assert(seq![rs[0]] + rs.skip(1) =~= rs);
    }
}

/// Sentinel configurability: any sentinel works as well as the default. Two
/// codecs configured with different sentinels, each free of collisions with
/// its own, round-trip to the same records.
pub proof fn lemma_sentinel_configurability(rs: Seq<Seq<u16>>, s: Sentinel)
    requires
        spec_records_collision_free(rs, s),
        spec_records_collision_free(rs, spec_default_sentinel()),
    ensures
        spec_decode(spec_encode_records(rs, s), s) == spec_decode(
            spec_encode_records(rs, spec_default_sentinel()),
            spec_default_sentinel(),
        ),
{
    lemma_round_trip(rs, s);
    lemma_round_trip(rs, spec_default_sentinel());
}

/// A record encodes to two bytes per token plus the two sentinel bytes.
pub proof fn lemma_encode_record_len(r: Seq<u16>, s: Sentinel)
    ensures
        spec_encode_record(r, s).len() == 2 * r.len() + 2,
    decreases r.len(),
{
    if r.len() == 0 {
    } else {
        assert(spec_token_bytes(r) == spec_le_bytes(r[0]) + spec_token_bytes(r.skip(1)));
        lemma_encode_record_len(r.skip(1), s);
    }
}

/// A whole stream of encoded records has even length.
pub proof fn lemma_encode_records_even(rs: Seq<Seq<u16>>, s: Sentinel)
    ensures
        spec_encode_records(rs, s).len() % 2 == 0,
    decreases rs.len(),
{
    if rs.len() == 0 {
    } else {
        lemma_encode_record_len(rs[0], s);
        lemma_encode_records_even(rs.skip(1), s);
    }
}

/// Appending one byte to an even-length stream changes nothing the decoder
/// sees: the dangling byte is discarded.
pub proof fn lemma_dangling_byte_ignored(b: Seq<u8>, extra: u8, acc: Seq<u16>, s: Sentinel)
    requires
        b.len() % 2 == 0,
    ensures
        spec_decode_from(b.push(extra), s, acc) == spec_decode_from(b, s, acc),
    decreases b.len(),
{
    if b.len() == 0 {
        assert(b.push(extra).len() == 1);
    } else {
        let c = b.push(extra);
        assert(c[0] == b[0] && c[1] == b[1]);
        assert(c.skip(2) =~= b.skip(2).push(extra));
        if spec_is_sentinel(b[0], b[1], s) {
            lemma_dangling_byte_ignored(b.skip(2), extra, Seq::empty(), s);
        } else {
            lemma_dangling_byte_ignored(b.skip(2), extra, acc.push(spec_token_value(b[0], b[1])), s);
        }
    }
}

/// Truncation tolerance: a stream of encoded records with one trailing byte
/// after the last record decodes to the same records as the stream without
/// it, and decoding ends normally either way.
pub proof fn lemma_truncation_tolerance(rs: Seq<Seq<u16>>, extra: u8, s: Sentinel)
    ensures
        spec_decode(spec_encode_records(rs, s).push(extra), s) == spec_decode(
            spec_encode_records(rs, s),
            s,
        ),
{
    lemma_encode_records_even(rs, s);
    lemma_dangling_byte_ignored(spec_encode_records(rs, s), extra, Seq::empty(), s);
}

/// One step of an encoding session, as the writer's callers see it: append
/// one record, or flush the stream.
pub enum WriterOp {
    Write(Seq<u16>),
    Flush,
}

/// The records a session writes, in order, flushes skipped.
pub open spec fn spec_ops_records(ops: Seq<WriterOp>) -> Seq<Seq<u16>>
    decreases ops.len(),
{
    if ops.len() == 0 {
        Seq::empty()
    } else {
        match ops[0] {
            WriterOp::Write(r) => seq![r] + spec_ops_records(ops.skip(1)),
            WriterOp::Flush => spec_ops_records(ops.skip(1)),
        }
    }
}

/// The bytes a session appends to the stream: each written record's encoding;
/// a flush appends nothing.
pub open spec fn spec_ops_bytes(ops: Seq<WriterOp>, s: Sentinel) -> Seq<u8>
    decreases ops.len(),
{
    if ops.len() == 0 {
        Seq::empty()
    } else {
        match ops[0] {
            WriterOp::Write(r) => spec_encode_record(r, s) + spec_ops_bytes(ops.skip(1), s),
            WriterOp::Flush => spec_ops_bytes(ops.skip(1), s),
        }
    }
}

/// Flush cadence is irrelevant to content: however many flushes a session
/// interleaves among its writes, the bytes on the stream are exactly the
/// encoding of the written records — so the decoded output never depends on
/// how often, or whether, the stream was flushed.
pub proof fn lemma_flush_cadence_irrelevant(ops: Seq<WriterOp>, s: Sentinel)
    ensures
        spec_ops_bytes(ops, s) == spec_encode_records(spec_ops_records(ops), s),
    decreases ops.len(),
{
    if ops.len() == 0 {
    } else {
        lemma_flush_cadence_irrelevant(ops.skip(1), s);
        match ops[0] {
            WriterOp::Write(r) => {
                let rest = spec_ops_records(ops.skip(1));
                assert(spec_ops_records(ops) == seq![r] + rest);
                assert((seq![r] + rest)[0] == r);
                assert((seq![r] + rest).skip(1) =~= rest);
            },
            WriterOp::Flush => {
            },
        }
    }
}

} // verus!
