//! A byte stream view over a channel of `Binary` chunks: the concatenation
//! of every chunk's bytes, read sequentially and independent of chunk
//! boundaries. At most one partially consumed chunk is buffered at a time,
//! and a byte handed out is never handed out again.

use vstd::prelude::*;
use crate::channel::Channel;
use crate::chunk::Binary;
use crate::error::AuError;

verus! {

/// The bytes carried by a sequence of binary chunks, in order.
pub open spec fn flatten_datas(q: Seq<Binary>) -> Seq<u8> {
    q.map_values(|b: Binary| b@.data).flatten()
}

pub proof fn lemma_flatten_datas_first(q: Seq<Binary>)
    requires
        q.len() > 0,
    ensures
        flatten_datas(q) == q[0]@.data + flatten_datas(q.drop_first()),
{
    let mapped = q.map_values(|b: Binary| b@.data);
    assert(mapped.drop_first() =~= q.drop_first().map_values(|b: Binary| b@.data));
    assert(mapped.flatten() == mapped.first() + mapped.drop_first().flatten());
}

pub proof fn lemma_flatten_datas_empty(q: Seq<Binary>)
    requires
        q.len() == 0,
    ensures
        flatten_datas(q) == Seq::<u8>::empty(),
{
    let mapped = q.map_values(|b: Binary| b@.data);
    assert(mapped.len() == 0);
    assert(mapped.flatten() == Seq::<u8>::empty());
}

/// Big-endian interpretation of the four bytes at index `k`.
pub open spec fn spec_be_u32_at(s: Seq<u8>, k: int) -> u32
    recommends
        0 <= k,
        k + 4 <= s.len(),
{
    ((s[k] as int) * 0x100_0000 + (s[k + 1] as int) * 0x1_0000 + (s[k + 2] as int) * 0x100
        + (s[k + 3] as int)) as u32
}

pub struct ByteStream {
    source: Channel<Binary>,
    current: Vec<u8>,
    pos: usize,
}

impl ByteStream {
    pub closed spec fn wf(&self) -> bool {
        &&& self.source.wf()
        &&& self.source.is_closed()
        &&& self.pos <= self.current@.len()
    }

    /// The bytes not yet handed out: the rest of the buffered chunk, then
    /// every chunk still pending in the channel.
    pub closed spec fn remaining(&self) -> Seq<u8> {
        self.current@.skip(self.pos as int) + flatten_datas(self.source@)
    }

    /// The producer must already have closed the channel: in this
    /// sequential model an empty channel means end of stream, not a read
    /// that has yet to happen.
    pub fn new(source: Channel<Binary>) -> (s: ByteStream)
        requires
            source.wf(),
            source.is_closed(),
        ensures
            s.wf(),
            s.remaining() == flatten_datas(source@),
    {
        let s = ByteStream { source, current: Vec::new(), pos: 0 };
        proof {
            assert(s.remaining() =~= flatten_datas(s.source@));
        }
        s
    }

    /// Read the next `n` bytes, or as many as the stream still has.
    pub fn read_up_to(&mut self, n: u64) -> (r: Vec<u8>)
        requires
            old(self).wf(),
        ensures
            final(self).wf(),
            r@.len() == vstd::math::min(n as int, old(self).remaining().len() as int),
            r@ == old(self).remaining().take(r@.len() as int),
            final(self).remaining() == old(self).remaining().skip(r@.len() as int),
    {
        let mut out: Vec<u8> = Vec::new();
        while (out.len() as u64) < n
            invariant
                self.wf(),
                out@.len() <= n,
                out@.len() <= old(self).remaining().len(),
                out@ == old(self).remaining().take(out@.len() as int),
                self.remaining() == old(self).remaining().skip(out@.len() as int),
            decreases n - out@.len(), self.source@.len(),
        {
            if self.pos < self.current.len() {
                let ghost rem_pre = self.remaining();
                let b = self.current[self.pos];
                self.pos = self.pos + 1;
                out.push(b);
                proof {
                    assert(rem_pre[0] == self.current@[self.pos - 1]);
                    assert(self.remaining() =~= rem_pre.skip(1));
                    assert(rem_pre == old(self).remaining().skip(out@.len() - 1));
                    assert(self.remaining() =~= old(self).remaining().skip(out@.len() as int));
                    assert(out@ =~= old(self).remaining().take(out@.len() as int));
                }
            } else {
                let ghost rem_pre = self.remaining();
                let ghost pre_q = self.source@;
                match self.source.recv() {
                    Some(chunk) => {
                        proof {
                            lemma_flatten_datas_first(pre_q);
                        }
                        self.current = chunk.data;
                        self.pos = 0;
                        proof {
                            assert(self.remaining() =~= rem_pre);
                        }
                    },
                    None => {
                        proof {
                            lemma_flatten_datas_empty(pre_q);
                            assert(rem_pre =~= Seq::<u8>::empty());
                        }
                        return out;
                    },
                }
            }
        }
        out
    }

    /// Read exactly `n` bytes; a stream with fewer left is exhausted in
    /// the attempt and reports `UnexpectedEndOfStream`.
    pub fn read_exact(&mut self, n: u64) -> (r: Result<Vec<u8>, AuError>)
        requires
            old(self).wf(),
        ensures
            final(self).wf(),
            n <= old(self).remaining().len() ==> {
                &&& r matches Ok(v) && v@ == old(self).remaining().take(n as int)
                &&& final(self).remaining() == old(self).remaining().skip(n as int)
            },
            n > old(self).remaining().len() ==> {
                &&& r == Err::<Vec<u8>, AuError>(AuError::UnexpectedEndOfStream)
                &&& final(self).remaining().len() == 0
            },
    {
        let v = self.read_up_to(n);
        if (v.len() as u64) == n {
            Ok(v)
        } else {
            Err(AuError::UnexpectedEndOfStream)
        }
    }

    /// Discard the next `n` bytes without handing them out.
    pub fn skip(&mut self, n: u64) -> (r: Result<(), AuError>)
        requires
            old(self).wf(),
        ensures
            final(self).wf(),
            n <= old(self).remaining().len() ==> {
                &&& r == Ok::<(), AuError>(())
                &&& final(self).remaining() == old(self).remaining().skip(n as int)
            },
            n > old(self).remaining().len() ==> {
                &&& r == Err::<(), AuError>(AuError::UnexpectedEndOfStream)
                &&& final(self).remaining().len() == 0
            },
    {
        let v = self.read_up_to(n);
        if (v.len() as u64) == n {
            Ok(())
        } else {
            Err(AuError::UnexpectedEndOfStream)
        }
    }

    /// Read four bytes and interpret them as a big-endian unsigned 32-bit
    /// integer.
    pub fn read_be_u32(&mut self) -> (r: Result<u32, AuError>)
        requires
            old(self).wf(),
        ensures
            final(self).wf(),
            4 <= old(self).remaining().len() ==> {
                &&& r == Ok::<u32, AuError>(spec_be_u32_at(old(self).remaining(), 0))
                &&& final(self).remaining() == old(self).remaining().skip(4)
            },
            4 > old(self).remaining().len() ==> {
                &&& r == Err::<u32, AuError>(AuError::UnexpectedEndOfStream)
                &&& final(self).remaining().len() == 0
            },
    {
        match self.read_exact(4) {
            Ok(v) => {
                let x: u32 = (v[0] as u32) * 0x100_0000 + (v[1] as u32) * 0x1_0000
                    + (v[2] as u32) * 0x100 + (v[3] as u32);
                Ok(x)
            },
            Err(e) => Err(e),
        }
    }
}

} // verus!
