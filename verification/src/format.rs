//! The shared format definition: the sentinel, the byte-level encoding of
//! tokens and records, and the mathematical decoder the whole crate is
//! specified against.

use vstd::prelude::*;

verus! {

/// The first byte of the default sentinel.
pub const DEFAULT_SENTINEL_FIRST: u8 = 0xff;

/// The second byte of the default sentinel.
pub const DEFAULT_SENTINEL_SECOND: u8 = 0xff;

/// The two-byte marker that terminates each record in the stream.
///
/// Encoder and decoder of one file must be configured with the same sentinel;
/// the format itself carries no trace of which one was used.
#[derive(Clone, Copy, Debug, PartialEq, Eq, Structural)]
pub struct Sentinel {
    pub first: u8,
    pub second: u8,
}

impl Sentinel {
    pub fn new(first: u8, second: u8) -> (s: Self)
        ensures
            s == (Sentinel { first, second }),
    {
        Sentinel { first, second }
    }
}

impl Default for Sentinel {
    fn default() -> (s: Self)
        ensures
            s == spec_default_sentinel(),
    {
        Sentinel { first: DEFAULT_SENTINEL_FIRST, second: DEFAULT_SENTINEL_SECOND }
    }
}

/// The sentinel used when none is configured: `0xFF, 0xFF`.
pub open spec fn spec_default_sentinel() -> Sentinel {
    Sentinel { first: DEFAULT_SENTINEL_FIRST, second: DEFAULT_SENTINEL_SECOND }
}

/// The sentinel a codec is constructed with: the given one, or the default.
pub open spec fn spec_sentinel_or_default(s: Option<Sentinel>) -> Sentinel {
    match s {
        Some(s) => s,
        None => spec_default_sentinel(),
    }
}

/// The two little-endian bytes of one token.
pub open spec fn spec_le_bytes(t: u16) -> Seq<u8> {
    seq![(t & 0xff) as u8, (t >> 8) as u8]
}

/// The token a little-endian byte pair stands for.
pub open spec fn spec_token_value(b0: u8, b1: u8) -> u16 {
    (b0 as u16) | ((b1 as u16) << 8)
}

/// Whether a byte pair is the record terminator.
pub open spec fn spec_is_sentinel(b0: u8, b1: u8, s: Sentinel) -> bool {
    b0 == s.first && b1 == s.second
}

/// Whether a token's byte pattern collides with the sentinel. Such a token
/// cannot survive a round trip: the decoder will take its bytes for a record
/// boundary.
pub open spec fn spec_collides(t: u16, s: Sentinel) -> bool {
    (t & 0xff) as u8 == s.first && (t >> 8) as u8 == s.second
}

/// A record is collision-free when none of its tokens encodes as the sentinel.
pub open spec fn spec_record_collision_free(r: Seq<u16>, s: Sentinel) -> bool {
    forall|i: int| 0 <= i < r.len() ==> !spec_collides(#[trigger] r[i], s)
}

/// A sequence of records is collision-free when each of its records is.
pub open spec fn spec_records_collision_free(rs: Seq<Seq<u16>>, s: Sentinel) -> bool {
    forall|i: int| 0 <= i < rs.len() ==> spec_record_collision_free(#[trigger] rs[i], s)
}

/// The token bytes of a record: each token's two little-endian bytes, in
/// order, without the terminator.
pub open spec fn spec_token_bytes(r: Seq<u16>) -> Seq<u8>
    decreases r.len(),
{
    if r.len() == 0 {
        Seq::empty()
    } else {
        spec_le_bytes(r[0]) + spec_token_bytes(r.skip(1))
    }
}

/// The encoding of one record: its token bytes followed by the sentinel.
pub open spec fn spec_encode_record(r: Seq<u16>, s: Sentinel) -> Seq<u8> {
    spec_token_bytes(r) + seq![s.first, s.second]
}

/// The encoding of a sequence of records, back to back.
pub open spec fn spec_encode_records(rs: Seq<Seq<u16>>, s: Sentinel) -> Seq<u8>
    decreases rs.len(),
{
    if rs.len() == 0 {
        Seq::empty()
    } else {
        spec_encode_record(rs[0], s) + spec_encode_records(rs.skip(1), s)
    }
}

/// The records a decoder yields from `b` when `acc` tokens of the current
/// record have already been scanned: byte pairs are consumed in order, a
/// sentinel pair closes the record in hand, and a tail shorter than two bytes
/// ends decoding, dropping the unterminated record.
pub open spec fn spec_decode_from(b: Seq<u8>, s: Sentinel, acc: Seq<u16>) -> Seq<Seq<u16>>
    decreases b.len(),
{
    if b.len() < 2 {
        Seq::empty()
    } else if spec_is_sentinel(b[0], b[1], s) {
        seq![acc] + spec_decode_from(b.skip(2), s, Seq::empty())
    } else {
        spec_decode_from(b.skip(2), s, acc.push(spec_token_value(b[0], b[1])))
    }
}

/// The records decoded from a whole byte stream.
pub open spec fn spec_decode(b: Seq<u8>, s: Sentinel) -> Seq<Seq<u16>> {
    spec_decode_from(b, s, Seq::empty())
}

/// Encode one record into fresh bytes: each token as two little-endian bytes,
/// then the sentinel.
pub fn encode_line(line: &Vec<u16>, sentinel: Sentinel) -> (out: Vec<u8>)
    ensures
        out@ == spec_encode_record(line@, sentinel),
{
    let mut out: Vec<u8> = Vec::new();
    let mut i: usize = 0;
    while i < line.len()
        invariant
            i <= line.len(),
            out@ == spec_token_bytes(line@.take(i as int)),
        decreases line.len() - i,
    {
        let t = line[i];
        proof {
            assert((t & 0xff) < 256 && (t >> 8) < 256) by (bit_vector);
            lemma_token_bytes_push(line@.take(i as int), t);
            assert(line@.take(i + 1) =~= line@.take(i as int).push(t));
        }
        out.push((t & 0xff) as u8);
        out.push((t >> 8) as u8);
        i = i + 1;
    }
    proof {
        assert(line@.take(line@.len() as int) =~= line@);
    }
    out.push(sentinel.first);
    out.push(sentinel.second);
    proof {
        assert(out@ =~= spec_token_bytes(line@) + seq![sentinel.first, sentinel.second]);
    }
    out
}

/// Appending one token to a record appends its two bytes to the token bytes.
pub proof fn lemma_token_bytes_push(r: Seq<u16>, t: u16)
    ensures
        spec_token_bytes(r.push(t)) == spec_token_bytes(r) + spec_le_bytes(t),
    decreases r.len(),
{
    if r.len() == 0 {
        assert(r.push(t).skip(1) =~= Seq::<u16>::empty());
        assert(r.push(t)[0] == t);
        assert(spec_token_bytes(r.push(t)) == spec_le_bytes(t) + spec_token_bytes(
            r.push(t).skip(1),
        ));
        assert(spec_token_bytes(r.push(t)) =~= spec_token_bytes(r) + spec_le_bytes(t));
    } else {
        assert(r.push(t).skip(1) =~= r.skip(1).push(t));
        lemma_token_bytes_push(r.skip(1), t);
        assert(r.push(t)[0] == r[0]);
        assert(spec_token_bytes(r.push(t)) == spec_le_bytes(r[0]) + (spec_token_bytes(r.skip(1))
            + spec_le_bytes(t)));
        assert(spec_le_bytes(r[0]) + (spec_token_bytes(r.skip(1)) + spec_le_bytes(t)) =~= (
        spec_le_bytes(r[0]) + spec_token_bytes(r.skip(1))) + spec_le_bytes(t));
    }
}

} // verus!
