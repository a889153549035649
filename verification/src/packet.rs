//! A fixed-capacity header writer: a sink for the 42 bytes of a composed
//! packet header (ethernet, IPv4 and UDP) that accepts any amount of
//! input, keeps what fits, and counts everything. Writing past the buffer
//! is silently dropped while the position keeps advancing, so the caller
//! can tell how much a producer tried to write.

use vstd::prelude::*;

verus! {

/// The byte length of the composed ethernet + IPv4 + UDP header.
pub const HEADER_LEN: usize = 42;

/// A writer over a fixed header buffer and a running position.
pub struct HdrWrite {
    /// The header bytes gathered so far.
    pub buf: Vec<u8>,
    /// How many bytes have been offered, kept or not.
    pub pos: usize,
}

impl HdrWrite {
    /// A fresh writer over a zeroed header buffer.
    pub fn new() -> (r: HdrWrite)
        ensures
            r.buf@ == Seq::new(HEADER_LEN as nat, |i: int| 0u8),
            r.pos == 0,
    {
        let mut buf: Vec<u8> = Vec::new();
        let mut i: usize = 0;
        while i < HEADER_LEN
            invariant
                i <= HEADER_LEN,
                buf@.len() == i,
                forall|j: int| 0 <= j < i ==> buf@[j] == 0u8,
            decreases HEADER_LEN - i,
        {
            buf.push(0);
            i = i + 1;
        }
        proof {
            assert(buf@ =~= Seq::new(HEADER_LEN as nat, |i: int| 0u8));
        }
        HdrWrite { buf, pos: 0 }
    }

    /// Accepts `data`: the part that fits between the current position and
    /// the end of the buffer is kept, the rest is dropped, and the
    /// position advances by the whole offered length. Returns that length.
    pub fn write(&mut self, data: &[u8]) -> (written: usize)
        requires
            old(self).pos + data@.len() <= usize::MAX,
        ensures
            written == data@.len(),
            final(self).pos == old(self).pos + data@.len(),
            final(self).buf@.len() == old(self).buf@.len(),
            ({
                let kept = if old(self).pos < old(self).buf@.len() {
                    if data@.len() <= old(self).buf@.len() - old(self).pos {
                        data@.len() as int
                    } else {
                        old(self).buf@.len() - old(self).pos
                    }
                } else {
                    0int
                };
                &&& forall|q: int|
                    0 <= q < kept ==> final(self).buf@[old(self).pos + q] == data@[q]
                &&& forall|q: int|
                    0 <= q < old(self).buf@.len() && !(old(self).pos <= q < old(self).pos + kept)
                        ==> final(self).buf@[q] == old(self).buf@[q]
            }),
    {
        if self.pos < self.buf.len() {
            let room = self.buf.len() - self.pos;
            let n = if data.len() <= room {
                data.len()
            } else {
                room
            };
            let start = self.pos;
            let mut q: usize = 0;
            while q < n
                invariant
                    q <= n,
                    start + n <= self.buf@.len(),
                    self.buf@.len() <= usize::MAX,
                    n <= data@.len(),
                    self.buf@.len() == old(self).buf@.len(),
                    self.pos == old(self).pos,
                    start == old(self).pos,
                    forall|t: int| 0 <= t < q ==> self.buf@[start + t] == data@[t],
                    forall|t: int|
                        0 <= t < self.buf@.len() && !(start <= t < start + q) ==> self.buf@[t]
                            == old(self).buf@[t],
                decreases n - q,
            {
                let b = data[q];
                self.buf.set(start + q, b);
                q = q + 1;
            }
        }
        self.pos = self.pos + data.len();
        data.len()
    }

    /// Does nothing: every write lands immediately.
    pub fn flush(&mut self)
        ensures
            *final(self) == *old(self),
    {
    }
}

} // verus!
