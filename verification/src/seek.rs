//! Seeking: making descriptors available for the next peek or commit. A TX
//! seek reclaims every frame the completion ring offers, re-staging each as
//! a fresh zero-length descriptor behind the staged window. An RX seek
//! refreshes the available count from the RX ring's producer word.

use crate::ring::{
    lemma_slot_add_pow32, lemma_slot_distinct, lemma_wrap_add_slot, lemma_wrap_dist_sub, slot_of,
    wrap_add, wrap_dist, XdpDesc,
};
use crate::socket::{rx_same, tx_same, RingError, RxSocket, TxSocket};
use vstd::prelude::*;
use vstd::seq_lib::lemma_multiset_commutative;

verus! {

/// What a TX seek for `n` descriptors does. With the staged window already
/// at least `n`, nothing changes and the window size is returned. Otherwise,
/// with the completion ring empty, it fails with `RingFull`. Otherwise every
/// completed frame is reclaimed — the completion window empties into the
/// back of the staged window, the completion consumer is published at the
/// producer word — and the call returns the smaller of the grown window and
/// `n`.
pub open spec fn tx_seek_rel(
    pre: TxSocket,
    post: TxSocket,
    n: int,
    r: Result<usize, RingError>,
) -> bool {
    let k = wrap_dist(pre.u_ring.spec_producer(), pre.consumer);
    if pre.available >= n {
        &&& r == Ok::<usize, RingError>(pre.available as usize)
        &&& tx_same(post, pre)
    } else if k == 0 {
        &&& r == Err::<usize, RingError>(RingError::RingFull)
        &&& tx_same(post, pre)
    } else {
        &&& r == Ok::<usize, RingError>(
            (if pre.available + k >= n {
                n
            } else {
                pre.available + k
            }) as usize,
        )
        &&& post.available == pre.available + k
        &&& post.consumer == wrap_add(pre.consumer, k as u32)
        &&& post.u_ring.spec_consumer() == post.consumer
        &&& post.producer == pre.producer
        &&& post.x_ring.spec_producer() == pre.x_ring.spec_producer()
        &&& post.x_ring.spec_consumer() == pre.x_ring.spec_consumer()
        &&& post.x_ring.spec_flags() == pre.x_ring.spec_flags()
        &&& post.x_ring.len == pre.x_ring.len
        &&& post.x_ring.mask == pre.x_ring.mask
        &&& post.u_ring.slots@ == pre.u_ring.slots@
        &&& post.u_ring.spec_producer() == pre.u_ring.spec_producer()
        &&& post.u_ring.spec_flags() == pre.u_ring.spec_flags()
        &&& post.u_ring.len == pre.u_ring.len
        &&& post.u_ring.mask == pre.u_ring.mask
        &&& post.staged() == pre.staged() + pre.completions()
        &&& post.committed() == pre.committed()
        &&& post.umem@ == pre.umem@
        &&& post.base == pre.base
        &&& post.wakeups == pre.wakeups
    }
}

/// What an RX seek for `n` descriptors does. With the available count
/// already at least `n`, nothing changes and the count is returned.
/// Otherwise, with no packet beyond the cached consumer, it fails with
/// `RingEmpty`. Otherwise the available count is refreshed to the whole
/// delivered window and the call returns the smaller of that count and `n`.
pub open spec fn rx_seek_rel(
    pre: RxSocket,
    post: RxSocket,
    n: int,
    r: Result<usize, RingError>,
) -> bool {
    let d = wrap_dist(pre.x_ring.spec_producer(), pre.consumer);
    if pre.available >= n {
        &&& r == Ok::<usize, RingError>(pre.available as usize)
        &&& rx_same(post, pre)
    } else if d == 0 {
        &&& r == Err::<usize, RingError>(RingError::RingEmpty)
        &&& rx_same(post, pre)
    } else {
        &&& r == Ok::<usize, RingError>(
            (if d >= n {
                n
            } else {
                d
            }) as usize,
        )
        &&& post.available == d
        &&& rx_same(RxSocket { available: pre.available, ..post }, pre)
    }
}

impl TxSocket {
    /// Makes at least `n` descriptors available when it can. Reclaims every
    /// completed frame the kernel has published, staging each behind the
    /// available window as a zero-length descriptor for its frame, and
    /// publishes the completion consumer as it goes. Fails with `RingFull`
    /// only when the window is short and no completion has arrived; the
    /// handle is then unchanged.
    pub fn seek(&mut self, n: usize) -> (r: Result<usize, RingError>)
        requires
            old(self).inv(),
        ensures
            final(self).inv(),
            tx_seek_rel(*old(self), *final(self), n as int, r),
    {
        if self.available as usize >= n {
            return Ok(self.available as usize);
        }
        let c_prod = self.u_ring.producer();
        if c_prod == self.consumer {
            return Err(RingError::RingFull);
        }
        let ghost pre = *old(self);
        let ghost xl = pre.x_len();
        let ghost ul = pre.u_ring.spec_len();
        let ghost xc = pre.x_ring.spec_consumer();
        let ghost dist = wrap_dist(pre.producer, xc);
        let ghost k = wrap_dist(pre.u_ring.spec_producer(), pre.consumer);
        let k_exec: u32 = c_prod.wrapping_sub(self.consumer);
        let mut j: u32 = 0;
        while j < k_exec
            invariant
                pre.inv(),
                xl == pre.x_len(),
                ul == pre.u_ring.spec_len(),
                xc == pre.x_ring.spec_consumer(),
                dist == wrap_dist(pre.producer, xc),
                k == wrap_dist(pre.u_ring.spec_producer(), pre.consumer),
                k_exec == k,
                j <= k_exec,
                self.available == pre.available + j,
                self.consumer == wrap_add(pre.consumer, j),
                self.producer == pre.producer,
                self.base == pre.base,
                self.wakeups == pre.wakeups,
                self.umem@ == pre.umem@,
                self.u_ring.slots@ == pre.u_ring.slots@,
                self.u_ring.spec_producer() == pre.u_ring.spec_producer(),
                self.u_ring.spec_consumer() == self.consumer,
                self.u_ring.spec_flags() == pre.u_ring.spec_flags(),
                self.u_ring.len == pre.u_ring.len,
                self.u_ring.mask == pre.u_ring.mask,
                self.x_ring.wf(),
                self.x_ring.spec_producer() == pre.x_ring.spec_producer(),
                self.x_ring.spec_consumer() == xc,
                self.x_ring.spec_flags() == pre.x_ring.spec_flags(),
                self.x_ring.len == pre.x_ring.len,
                self.x_ring.mask == pre.x_ring.mask,
                forall|t: int|
                    0 <= t < j ==> #[trigger] self.x_ring.slots@[slot_of(
                        pre.producer + pre.available + t,
                        xl,
                    )] == (XdpDesc { addr: pre.completions()[t], len: 0, options: 0 }),
                forall|i: int|
                    0 <= i < dist + pre.available ==> #[trigger] self.x_ring.slots@[slot_of(
                        xc + i,
                        xl,
                    )] == pre.x_ring.slots@[slot_of(xc + i, xl)],
            decreases k_exec - j,
        {
            proof {
                lemma_wrap_add_slot(pre.consumer, j, self.u_ring.len as u32);
            }
            let addr_slot = self.u_ring.slot_index(self.consumer);
            let addr = self.u_ring.desc_at(addr_slot);
            proof {
                assert(addr == pre.completions()[j as int]);
                lemma_wrap_add_slot(pre.producer, (pre.available + j) as u32, self.x_ring.len as u32);
            }
            let x_slot = self.x_ring.slot_index(self.producer.wrapping_add(self.available));
            self.x_ring.set_desc_at(x_slot, XdpDesc::new(addr, 0, 0));
            self.consumer = self.consumer.wrapping_add(1);
            let c = self.consumer;
            self.u_ring.update_consumer(c);
            self.available = self.available + 1;
            proof {
                assert(wrap_add(pre.consumer, (j + 1) as u32) == wrap_add(wrap_add(pre.consumer, j), 1u32));
                assert forall|t: int|
                    0 <= t < j + 1 implies #[trigger] self.x_ring.slots@[slot_of(
                    pre.producer + pre.available + t,
                    xl,
                )] == (XdpDesc { addr: pre.completions()[t], len: 0, options: 0 }) by {
                    if t < j {
                        lemma_slot_distinct(
                            pre.producer + pre.available,
                            t,
                            j as int,
                            xl,
                        );
                    }
                }
                assert forall|i: int|
                    0 <= i < dist + pre.available implies #[trigger] self.x_ring.slots@[slot_of(
                    xc + i,
                    xl,
                )] == pre.x_ring.slots@[slot_of(xc + i, xl)] by {
                    lemma_slot_distinct(xc as int, i, dist + pre.available + j, xl);
                    if xc + dist == pre.producer + 0x1_0000_0000 {
                        lemma_slot_add_pow32(pre.producer + pre.available + j, self.x_ring.len as u32);
                    }
                    assert(slot_of(xc + (dist + pre.available + j), xl) == slot_of(
                        pre.producer + pre.available + j,
                        xl,
                    ));
                }
            }
            j = j + 1;
        }
        proof {
            lemma_tx_seek_windows(pre, *self);
        }
        if self.available as usize >= n {
            Ok(n)
        } else {
            Ok(self.available as usize)
        }
    }
}

/// After a full drain of the completion ring, the staged window has grown by
/// exactly the completed frames, the published window is untouched, and the
/// invariant holds again.
proof fn lemma_tx_seek_windows(pre: TxSocket, post: TxSocket)
    requires
        pre.inv(),
        ({
            let k = wrap_dist(pre.u_ring.spec_producer(), pre.consumer);
            let xl = pre.x_len();
            let xc = pre.x_ring.spec_consumer();
            let dist = wrap_dist(pre.producer, xc);
            &&& post.available == pre.available + k
            &&& post.consumer == wrap_add(pre.consumer, k as u32)
            &&& post.producer == pre.producer
            &&& post.base == pre.base
            &&& post.umem@ == pre.umem@
            &&& post.u_ring.slots@ == pre.u_ring.slots@
            &&& post.u_ring.spec_producer() == pre.u_ring.spec_producer()
            &&& post.u_ring.spec_consumer() == post.consumer
            &&& post.u_ring.len == pre.u_ring.len
            &&& post.u_ring.mask == pre.u_ring.mask
            &&& post.x_ring.wf()
            &&& post.x_ring.spec_producer() == pre.x_ring.spec_producer()
            &&& post.x_ring.spec_consumer() == xc
            &&& post.x_ring.len == pre.x_ring.len
            &&& post.x_ring.mask == pre.x_ring.mask
            &&& forall|t: int|
                0 <= t < k ==> #[trigger] post.x_ring.slots@[slot_of(
                    pre.producer + pre.available + t,
                    xl,
                )] == (XdpDesc { addr: pre.completions()[t], len: 0, options: 0 })
            &&& forall|i: int|
                0 <= i < dist + pre.available ==> #[trigger] post.x_ring.slots@[slot_of(
                    xc + i,
                    xl,
                )] == pre.x_ring.slots@[slot_of(xc + i, xl)]
        }),
    ensures
        post.staged() == pre.staged() + pre.completions(),
        post.committed() == pre.committed(),
        post.completions() == Seq::<u64>::empty(),
        post.inv(),
{
    let k = wrap_dist(pre.u_ring.spec_producer(), pre.consumer);
    let xl = pre.x_len();
    let xc = pre.x_ring.spec_consumer();
    let dist = wrap_dist(pre.producer, xc);
    lemma_wrap_dist_sub(pre.u_ring.spec_producer(), pre.consumer, k as u32);
    assert(post.completions() =~= Seq::<u64>::empty());

    // The published window is untouched.
    assert forall|i: int| 0 <= i < dist implies post.committed()[i] == pre.committed()[i] by {
        assert(post.x_ring.slots@[slot_of(xc + i, xl)] == pre.x_ring.slots@[slot_of(xc + i, xl)]);
    }
    assert(post.committed() =~= pre.committed());

    // The staged window keeps its old frames and gains the reclaimed ones.
    assert forall|i: int|
        0 <= i < pre.available + k implies post.staged()[i] == (pre.staged()
        + pre.completions())[i] by {
        if i < pre.available {
            if xc + dist == pre.producer + 0x1_0000_0000 {
                lemma_slot_add_pow32(pre.producer + i, pre.x_ring.len as u32);
            }
            assert(slot_of(xc + (dist + i), xl) == slot_of(pre.producer + i, xl));
            assert(post.x_ring.slots@[slot_of(pre.producer + i, xl)] == pre.x_ring.slots@[slot_of(
                pre.producer + i,
                xl,
            )]);
        } else {
            let t = i - pre.available;
            assert(post.x_ring.slots@[slot_of(pre.producer + pre.available + t, xl)] == (XdpDesc {
                addr: pre.completions()[t],
                len: 0,
                options: 0,
            }));
        }
    }
    assert(post.staged() =~= pre.staged() + pre.completions());

    // Conservation: the union multiset is untouched.
    assert(post.frames() =~= pre.frames());
    let a = pre.staged();
    let c = pre.committed();
    let d = pre.completions();
    lemma_multiset_commutative(a, c);
    lemma_multiset_commutative(a + c, d);
    lemma_multiset_commutative(a, d);
    lemma_multiset_commutative(a + d, c);
    lemma_multiset_commutative(a + d + c, Seq::<u64>::empty());
    assert((post.staged() + post.committed() + post.completions()).to_multiset() =~= ((a + c)
        + d).to_multiset());
}

impl RxSocket {
    /// Makes at least `n` received packets available when it can: refreshes
    /// the available count from the RX ring's producer word. Fails with
    /// `RingEmpty` only when the window is short and the kernel has
    /// delivered nothing new; the handle is then unchanged, and no call
    /// changes anything but the available count.
    pub fn seek(&mut self, n: usize) -> (r: Result<usize, RingError>)
        requires
            old(self).inv(),
        ensures
            final(self).inv(),
            rx_seek_rel(*old(self), *final(self), n as int, r),
    {
        if self.available as usize >= n {
            return Ok(self.available as usize);
        }
        let x_prod = self.x_ring.producer();
        if x_prod == self.consumer {
            return Err(RingError::RingEmpty);
        }
        let d: u32 = x_prod.wrapping_sub(self.consumer);
        self.available = d;
        proof {
            assert(rx_same(RxSocket { available: old(self).available, ..*self }, *old(self)));
            assert(self.filled() =~= old(self).filled());
            assert(self.fillable() =~= old(self).fillable());
        }
        if d as usize >= n {
            Ok(n)
        } else {
            Ok(d as usize)
        }
    }
}

} // verus!
