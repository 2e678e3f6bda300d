//! The decoder: yields records from a byte stream by scanning it two bytes at
//! a time and splitting at sentinel pairs.
//!
//! The reader owns the bytes of the file and a cursor; `pending()` is the
//! sequence of records it will still yield. Once a two-byte read fails —
//! the stream is exhausted, possibly with one dangling byte, which is silently
//! discarded — the reader turns unreadable for good and yields nothing more.

use vstd::prelude::*;

use crate::format::{
    spec_decode,
    spec_decode_from,
    spec_is_sentinel,
    spec_token_value,
    Sentinel,
    spec_sentinel_or_default,
};

verus! {

/// Reconstructs records from a byte stream.
pub struct TokensReader {
    sentinel: Sentinel,
    data: Vec<u8>,
    pos: usize,
    e_buff: Vec<u16>,
    readable: bool,
}

impl TokensReader {
    /// The sentinel this reader splits records at.
    pub closed spec fn spec_sentinel(&self) -> Sentinel {
        self.sentinel
    }

    /// The bytes not yet consumed.
    pub closed spec fn spec_remaining(&self) -> Seq<u8> {
        self.data@.skip(self.pos as int)
    }

    /// Tokens of the current, not yet terminated record.
    pub closed spec fn spec_acc(&self) -> Seq<u16> {
        self.e_buff@
    }

    /// Whether the stream may still yield records; false once and for all
    /// after the first failed two-byte read.
    pub closed spec fn spec_readable(&self) -> bool {
        self.readable
    }

    /// The cursor never passes the end of the data.
    pub closed spec fn wf(&self) -> bool {
        self.pos <= self.data@.len()
    }

    /// The records this reader will still yield, in order.
    pub open spec fn pending(&self) -> Seq<Seq<u16>> {
        if self.spec_readable() {
            spec_decode_from(self.spec_remaining(), self.spec_sentinel(), self.spec_acc())
        } else {
            Seq::empty()
        }
    }

    /// A fresh reader over the whole byte stream, with the given sentinel or
    /// the default one.
    pub fn new(data: Vec<u8>, sentinel: Option<Sentinel>) -> (r: Self)
        ensures
            r.wf(),
            r.spec_readable(),
            r.spec_sentinel() == spec_sentinel_or_default(sentinel),
            r.pending() == spec_decode(data@, spec_sentinel_or_default(sentinel)),
    {
        let s = match sentinel {
            Some(s) => s,
            None => Sentinel::default(),
        };
        let r = TokensReader { sentinel: s, data, pos: 0, e_buff: Vec::new(), readable: true };
        proof {
            assert(r.spec_remaining() =~= r.data@);
        }
        r
    }

    /// Yield the next record, or `None` once and for all when the stream runs
    /// out before a sentinel: byte pairs are read in order, a pair equal to
    /// the sentinel closes the record accumulated so far (possibly empty), and
    /// fewer than two remaining bytes end the stream, silently discarding both
    /// a dangling byte and an unterminated record.
    pub fn read_line(&mut self) -> (r: Option<Vec<u16>>)
        requires
            old(self).wf(),
        ensures
            final(self).wf(),
            final(self).spec_sentinel() == old(self).spec_sentinel(),
            match r {
                Some(rec) => old(self).pending().len() > 0 && rec@ == old(self).pending()[0]
                    && final(self).pending() == old(self).pending().skip(1),
                None => old(self).pending().len() == 0 && final(self).pending() == Seq::<
                    Seq<u16>,
                >::empty() && !final(self).spec_readable(),
            },
    {
        if !self.readable {
            return None;
        }
        loop
            invariant
                self.wf(),
                self.readable,
                self.spec_sentinel() == old(self).spec_sentinel(),
                spec_decode_from(self.spec_remaining(), self.spec_sentinel(), self.e_buff@) == old(
                    self,
                ).pending(),
            decreases self.data@.len() - self.pos,
        {
            if self.data.len() - self.pos >= 2 {
                let b0 = self.data[self.pos];
                let b1 = self.data[self.pos + 1];
                let ghost rem = self.spec_remaining();
                let ghost acc = self.e_buff@;
                proof {
                    assert(rem[0] == b0 && rem[1] == b1);
                    assert(rem.skip(2) =~= self.data@.skip(self.pos + 2));
                }
                self.pos = self.pos + 2;
                if b0 == self.sentinel.first && b1 == self.sentinel.second {
                    proof {
                        assert(spec_decode_from(rem, self.sentinel, acc) == seq![acc]
                            + spec_decode_from(self.spec_remaining(), self.sentinel, Seq::empty()));
                    }
                    let mut out: Vec<u16> = Vec::new();
                    core::mem::swap(&mut out, &mut self.e_buff);
                    proof {
                        assert(old(self).pending()[0] == acc);
                        assert(old(self).pending().skip(1) =~= spec_decode_from(
                            self.spec_remaining(),
                            self.sentinel,
                            self.e_buff@,
                        ));
                    }
                    return Some(out);
                } else {
                    let t: u16 = (b0 as u16) | ((b1 as u16) << 8);
                    proof {
                        assert(!spec_is_sentinel(rem[0], rem[1], self.sentinel));
                        assert(t == spec_token_value(b0, b1));
                        assert(spec_decode_from(rem, self.sentinel, acc) == spec_decode_from(
                            self.spec_remaining(),
                            self.sentinel,
                            acc.push(spec_token_value(b0, b1)),
                        ));
                    }
                    self.e_buff.push(t);
                }
            } else {
                proof {
                    assert(self.spec_remaining().len() < 2);
                }
                self.readable = false;
                return None;
            }
        }
    }

    /// Drain the reader: every record still pending, in order. Afterwards the
    /// stream is exhausted and no further record will ever be yielded.
    pub fn read_lines(&mut self) -> (out: Vec<Vec<u16>>)
        requires
            old(self).wf(),
        ensures
            final(self).wf(),
            final(self).spec_sentinel() == old(self).spec_sentinel(),
            out.deep_view() == old(self).pending(),
            final(self).pending() == Seq::<Seq<u16>>::empty(),
            !final(self).spec_readable(),
    {
        let mut out: Vec<Vec<u16>> = Vec::new();
        loop
            invariant
                self.wf(),
                self.spec_sentinel() == old(self).spec_sentinel(),
                out.deep_view() + self.pending() == old(self).pending(),
            decreases self.pending().len(),
        {
            let ghost prefix = out.deep_view();
            match self.read_line() {
                Some(rec) => {
                    proof {
                        assert(rec.deep_view() =~= rec@);
                    }
                    out.push(rec);
                    proof {
                        assert(out.deep_view() =~= prefix.push(rec@));
                        assert(prefix.push(rec@) + self.pending() =~= old(self).pending());
                    }
                },
                None => {
                    proof {
                        assert(out.deep_view() + self.pending() =~= out.deep_view());
                        assert(out.deep_view() =~= old(self).pending());
                    }
                    return out;
                },
            }
        }
    }
}

} // verus!
