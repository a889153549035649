//! Peeking: reaching the frame bytes of a descriptor in the available
//! window without advancing any index. A TX peek validates the index and
//! length and writes the length into the descriptor eagerly; the frame is
//! then filled through `write_frame`. An RX peek returns a copy of the
//! received bytes, exactly as long as the kernel-written descriptor says.

use crate::ring::{
    lemma_slot_add_pow32, lemma_slot_distinct, lemma_wrap_add_slot, slot_of, wrap_dist, XdpDesc,
    FRAME_SIZE,
};
use crate::socket::{tx_same, RingError, RxSocket, TxSocket};
use vstd::arithmetic::mul::{lemma_mul_inequality, lemma_mul_is_distributive_add_other_way};
use vstd::prelude::*;

verus! {

/// A staged frame offset is a real frame of the pool: it lies within the
/// pool bytes with a whole frame after it.
pub proof fn lemma_tx_frame_addr_valid(s: TxSocket, i: int)
    requires
        s.inv(),
        0 <= i < s.available,
    ensures
        s.base <= s.staged()[i],
        s.staged()[i] - s.base + FRAME_SIZE <= s.umem@.len(),
{
    let a = s.staged()[i];
    let u = s.staged() + s.committed() + s.completions();
    assert(u[i] == a);
    assert(u.contains(a));
    broadcast use vstd::seq_lib::group_to_multiset_ensures;

    assert(u.to_multiset().count(a) > 0);
    assert(s.frames().to_multiset().count(a) > 0);
    assert(s.frames().contains(a));
    let fi = choose|fi: int| 0 <= fi < s.frames().len() && s.frames()[fi] == a;
    lemma_mul_inequality(fi + 1, s.x_len(), FRAME_SIZE as int);
    lemma_mul_is_distributive_add_other_way(FRAME_SIZE as int, fi, 1);
}

/// A delivered frame offset is a real frame of the pool.
pub proof fn lemma_rx_frame_addr_valid(s: RxSocket, i: int)
    requires
        s.inv(),
        0 <= i < wrap_dist(s.x_ring.spec_producer(), s.consumer),
    ensures
        s.base <= s.filled()[i],
        s.filled()[i] - s.base + FRAME_SIZE <= s.umem@.len(),
{
    let a = s.filled()[i];
    let u = s.filled() + s.fillable();
    assert(u[i] == a);
    assert(u.contains(a));
    broadcast use vstd::seq_lib::group_to_multiset_ensures;

    assert(u.to_multiset().count(a) > 0);
    assert(s.frames().to_multiset().count(a) > 0);
    assert(s.frames().contains(a));
    let fi = choose|fi: int| 0 <= fi < s.frames().len() && s.frames()[fi] == a;
    lemma_mul_inequality(fi + 1, s.x_len(), FRAME_SIZE as int);
    lemma_mul_is_distributive_add_other_way(FRAME_SIZE as int, fi, 1);
}

/// What a TX peek at window index `i` with length `len` does: with `i`
/// outside the window it fails with `InvalidIndex`; with `len` over the
/// frame size it fails with `InvalidLength`; in both cases nothing changes.
/// Otherwise it writes `len` into the descriptor's length field — address
/// and options untouched — and nothing else changes.
pub open spec fn tx_peek_rel(
    pre: TxSocket,
    post: TxSocket,
    i: int,
    len: int,
    r: Result<(), RingError>,
) -> bool {
    if i >= pre.available {
        &&& r == Err::<(), RingError>(RingError::InvalidIndex)
        &&& tx_same(post, pre)
    } else if len > FRAME_SIZE {
        &&& r == Err::<(), RingError>(RingError::InvalidLength)
        &&& tx_same(post, pre)
    } else {
        let slot = slot_of(pre.producer + i, pre.x_len());
        let d = pre.x_ring.slots@[slot];
        &&& r == Ok::<(), RingError>(())
        &&& post.x_ring.slots@ == pre.x_ring.slots@.update(
            slot,
            XdpDesc { addr: d.addr, len: len as u32, options: d.options },
        )
        &&& post.x_ring.spec_producer() == pre.x_ring.spec_producer()
        &&& post.x_ring.spec_consumer() == pre.x_ring.spec_consumer()
        &&& post.x_ring.spec_flags() == pre.x_ring.spec_flags()
        &&& post.x_ring.len == pre.x_ring.len
        &&& post.x_ring.mask == pre.x_ring.mask
        &&& crate::ring::ring_same(post.u_ring, pre.u_ring)
        &&& post.available == pre.available
        &&& post.producer == pre.producer
        &&& post.consumer == pre.consumer
        &&& post.umem@ == pre.umem@
        &&& post.base == pre.base
        &&& post.wakeups == pre.wakeups
    }
}

impl TxSocket {
    /// Reserves the `i`-th staged frame for a packet of `len` bytes: writes
    /// `len` into that descriptor, leaving its frame address alone. Fails
    /// with `InvalidIndex` when `i` is outside the available window and with
    /// `InvalidLength` when `len` exceeds the frame size; a failed peek
    /// changes nothing.
    pub fn peek(&mut self, i: usize, len: usize) -> (r: Result<(), RingError>)
        requires
            old(self).inv(),
        ensures
            final(self).inv(),
            tx_peek_rel(*old(self), *final(self), i as int, len as int, r),
    {
        if i >= self.available as usize {
            return Err(RingError::InvalidIndex);
        }
        if len > FRAME_SIZE {
            return Err(RingError::InvalidLength);
        }
        proof {
            lemma_wrap_add_slot(self.producer, i as u32, self.x_ring.len as u32);
        }
        let slot = self.x_ring.slot_index(self.producer.wrapping_add(i as u32));
        let d = self.x_ring.desc_at(slot);
        self.x_ring.set_desc_at(slot, XdpDesc::new(d.addr, len as u32, d.options));
        proof {
            lemma_tx_len_write_inv(*old(self), *self, i as int);
        }
        Ok(())
    }
}

/// Writing a descriptor's length field inside the staged window leaves every
/// window's frame offsets as they were, so the invariant holds on.
proof fn lemma_tx_len_write_inv(pre: TxSocket, post: TxSocket, i: int)
    requires
        pre.inv(),
        0 <= i < pre.available,
        ({
            let slot = slot_of(pre.producer + i, pre.x_len());
            let d = pre.x_ring.slots@[slot];
            &&& post.x_ring.slots@ == pre.x_ring.slots@.update(
                slot,
                XdpDesc { addr: d.addr, len: post.x_ring.slots@[slot].len, options: d.options },
            )
            &&& post.x_ring.spec_producer() == pre.x_ring.spec_producer()
            &&& post.x_ring.spec_consumer() == pre.x_ring.spec_consumer()
            &&& post.x_ring.len == pre.x_ring.len
            &&& post.x_ring.mask == pre.x_ring.mask
            &&& crate::ring::ring_same(post.u_ring, pre.u_ring)
            &&& post.available == pre.available
            &&& post.producer == pre.producer
            &&& post.consumer == pre.consumer
            &&& post.umem@ == pre.umem@
            &&& post.base == pre.base
        }),
    ensures
        post.inv(),
        post.staged() == pre.staged(),
        post.committed() == pre.committed(),
        post.completions() == pre.completions(),
{
    let xl = pre.x_len();
    let xc = pre.x_ring.spec_consumer();
    let dist = wrap_dist(pre.producer, xc);
    assert forall|t: int| 0 <= t < pre.available implies post.staged()[t] == pre.staged()[t] by {
        assert(post.x_ring.slots@[slot_of(pre.producer + t, xl)].addr == pre.x_ring.slots@[slot_of(
            pre.producer + t,
            xl,
        )].addr);
    }
    assert(post.staged() =~= pre.staged());
    assert forall|t: int| 0 <= t < dist implies post.committed()[t] == pre.committed()[t] by {
        lemma_slot_distinct(xc as int, t, dist + i, xl);
        if xc + dist == pre.producer + 0x1_0000_0000 {
            lemma_slot_add_pow32(pre.producer + i, pre.x_ring.len as u32);
        }
        assert(slot_of(xc + (dist + i), xl) == slot_of(pre.producer + i, xl));
    }
    assert(post.committed() =~= pre.committed());
    assert(post.completions() =~= pre.completions());
    assert(post.frames() =~= pre.frames());
    assert((post.staged() + post.committed() + post.completions()).to_multiset() == (pre.staged()
        + pre.committed() + pre.completions()).to_multiset());
}

/// What writing `data` at byte offset `at` of the `i`-th staged frame does:
/// index and bounds errors leave everything unchanged; on success exactly
/// the addressed bytes of the pool change, to `data`.
pub open spec fn tx_write_rel(
    pre: TxSocket,
    post: TxSocket,
    i: int,
    at: int,
    data: Seq<u8>,
    r: Result<(), RingError>,
) -> bool {
    if i >= pre.available {
        &&& r == Err::<(), RingError>(RingError::InvalidIndex)
        &&& tx_same(post, pre)
    } else if at + data.len() > FRAME_SIZE {
        &&& r == Err::<(), RingError>(RingError::InvalidLength)
        &&& tx_same(post, pre)
    } else {
        let start = pre.staged()[i] - pre.base + at;
        &&& r == Ok::<(), RingError>(())
        &&& post.umem@.len() == pre.umem@.len()
        &&& forall|q: int| 0 <= q < data.len() ==> post.umem@[start + q] == data[q]
        &&& forall|q: int|
            0 <= q < pre.umem@.len() && !(start <= q < start + data.len())
                ==> post.umem@[q] == pre.umem@[q]
        &&& crate::ring::ring_same(post.x_ring, pre.x_ring)
        &&& crate::ring::ring_same(post.u_ring, pre.u_ring)
        &&& post.available == pre.available
        &&& post.producer == pre.producer
        &&& post.consumer == pre.consumer
        &&& post.base == pre.base
        &&& post.wakeups == pre.wakeups
    }
}

impl TxSocket {
    /// Copies `data` into the `i`-th staged frame starting `at` bytes in.
    /// Fails with `InvalidIndex` outside the available window and with
    /// `InvalidLength` when the write would run past the frame; a failed
    /// write changes nothing.
    pub fn write_frame(&mut self, i: usize, at: usize, data: &[u8]) -> (r: Result<
        (),
        RingError,
    >)
        requires
            old(self).inv(),
        ensures
            final(self).inv(),
            tx_write_rel(*old(self), *final(self), i as int, at as int, data@, r),
    {
        if i >= self.available as usize {
            return Err(RingError::InvalidIndex);
        }
        if at > FRAME_SIZE || data.len() > FRAME_SIZE - at {
            return Err(RingError::InvalidLength);
        }
        proof {
            lemma_wrap_add_slot(self.producer, i as u32, self.x_ring.len as u32);
            lemma_tx_frame_addr_valid(*old(self), i as int);
        }
        let slot = self.x_ring.slot_index(self.producer.wrapping_add(i as u32));
        let addr = self.x_ring.desc_at(slot).addr;
        let umem_len = self.umem.len();
        proof {
            assert(addr == old(self).staged()[i as int]);
            assert(addr - self.base + FRAME_SIZE <= umem_len);
        }
        let start = (addr - self.base) as usize + at;
        let ghost pre = *old(self);
        let mut q: usize = 0;
        while q < data.len()
            invariant
                pre.inv(),
                q <= data@.len(),
                start + data@.len() <= pre.umem@.len(),
                pre.umem@.len() <= usize::MAX,
                start == pre.staged()[i as int] - pre.base + at,
                0 <= i < pre.available,
                tx_same(
                    TxSocket { umem: pre.umem, ..*self },
                    TxSocket { umem: pre.umem, ..pre },
                ),
                self.umem@.len() == pre.umem@.len(),
                forall|t: int| 0 <= t < q ==> self.umem@[start + t] == data@[t],
                forall|t: int|
                    0 <= t < pre.umem@.len() && !(start <= t < start + q) ==> self.umem@[t]
                        == pre.umem@[t],
            decreases data@.len() - q,
        {
            let b = data[q];
            self.umem.set(start + q, b);
            q = q + 1;
        }
        proof {
            assert(self.staged() =~= pre.staged());
            assert(self.committed() =~= pre.committed());
            assert(self.completions() =~= pre.completions());
            assert(self.frames() =~= pre.frames());
            assert((self.staged() + self.committed() + self.completions()).to_multiset() == (
            pre.staged() + pre.committed() + pre.completions()).to_multiset());
        }
        Ok(())
    }
}

impl TxSocket {
    /// Seeks one descriptor and reserves it for `len` bytes in a single
    /// call: exactly a seek for one followed, when it succeeds, by a peek
    /// at the front of the window.
    pub fn seek_and_peek(&mut self, len: usize) -> (r: Result<(), RingError>)
        requires
            old(self).inv(),
        ensures
            final(self).inv(),
            exists|mid: TxSocket, s: Result<usize, RingError>|
                {
                    &&& #[trigger] crate::seek::tx_seek_rel(*old(self), mid, 1, s)
                    &&& match s {
                        Ok(_) => tx_peek_rel(mid, *final(self), 0, len as int, r),
                        Err(e) => r == Err::<(), RingError>(e) && tx_same(*final(self), mid),
                    }
                },
    {
        match self.seek(1) {
            Err(e) => {
                proof {
                    assert(crate::seek::tx_seek_rel(
                        *old(self),
                        *self,
                        1,
                        Err::<usize, RingError>(e),
                    ));
                }
                Err(e)
            },
            Ok(v) => {
                let ghost mid = *self;
                let r = self.peek(0, len);
                proof {
                    assert(crate::seek::tx_seek_rel(*old(self), mid, 1, Ok::<usize, RingError>(v)));
                }
                r
            },
        }
    }
}

/// What an RX peek at window index `i` does: with `i` outside the available
/// window it fails with `InvalidIndex`; otherwise it returns a copy of the
/// received bytes, exactly as many as the kernel-written descriptor's
/// length. Nothing changes either way.
pub open spec fn rx_peek_rel(s: RxSocket, i: int, r: Result<Vec<u8>, RingError>) -> bool {
    if i >= s.available {
        r == Err::<Vec<u8>, RingError>(RingError::InvalidIndex)
    } else {
        let d = s.x_ring.slots@[slot_of(s.consumer + i, s.x_len())];
        &&& r is Ok
        &&& r->Ok_0@ == s.umem@.subrange(d.addr - s.base, d.addr - s.base + d.len)
    }
}

impl RxSocket {
    /// Reads the `i`-th available packet: a copy of its frame bytes, as
    /// long as the descriptor the kernel wrote. Fails with `InvalidIndex`
    /// when `i` is outside the available window. The handle never changes.
    pub fn peek(&self, i: usize) -> (r: Result<Vec<u8>, RingError>)
        requires
            self.inv(),
        ensures
            rx_peek_rel(*self, i as int, r),
    {
        if i >= self.available as usize {
            return Err(RingError::InvalidIndex);
        }
        proof {
            lemma_wrap_add_slot(self.consumer, i as u32, self.x_ring.len as u32);
            lemma_rx_frame_addr_valid(*self, i as int);
        }
        let slot = self.x_ring.slot_index(self.consumer.wrapping_add(i as u32));
        let d = self.x_ring.desc_at(slot);
        let umem_len = self.umem.len();
        proof {
            assert(d.addr == self.filled()[i as int]);
            assert(d.addr - self.base + FRAME_SIZE <= umem_len);
            assert(d.len <= FRAME_SIZE);
        }
        let start = (d.addr - self.base) as usize;
        let len = d.len as usize;
        let mut out: Vec<u8> = Vec::new();
        let mut q: usize = 0;
        while q < len
            invariant
                q <= len,
                start + len <= self.umem@.len(),
                self.umem@.len() <= usize::MAX,
                out@.len() == q,
                forall|t: int| 0 <= t < q ==> out@[t] == self.umem@[start + t],
            decreases len - q,
        {
            let b = self.umem[start + q];
            out.push(b);
            q = q + 1;
        }
        proof {
            assert(out@ =~= self.umem@.subrange(start as int, start + len));
        }
        Ok(out)
    }

    /// Seeks one packet and reads it in a single call: exactly a seek for
    /// one followed, when it succeeds, by a peek at the front of the
    /// window.
    pub fn seek_and_peek(&mut self) -> (r: Result<Vec<u8>, RingError>)
        requires
            old(self).inv(),
        ensures
            final(self).inv(),
            exists|s: Result<usize, RingError>|
                {
                    &&& #[trigger] crate::seek::rx_seek_rel(*old(self), *final(self), 1, s)
                    &&& match s {
                        Ok(_) => rx_peek_rel(*final(self), 0, r),
                        Err(e) => r == Err::<Vec<u8>, RingError>(e),
                    }
                },
    {
        match self.seek(1) {
            Err(e) => {
                proof {
                    assert(crate::seek::rx_seek_rel(
                        *old(self),
                        *self,
                        1,
                        Err::<usize, RingError>(e),
                    ));
                }
                Err(e)
            },
            Ok(v) => {
                let r = self.peek(0);
                proof {
                    assert(crate::seek::rx_seek_rel(
                        *old(self),
                        *self,
                        1,
                        Ok::<usize, RingError>(v),
                    ));
                }
                r
            },
        }
    }
}

} // verus!
