//! Committing: publishing work to the peer. A TX commit advances the TX
//! producer over `n` staged descriptors, handing those frames to the kernel.
//! An RX commit returns `n` read frames to the fill ring and advances both
//! the RX consumer and the fill producer.

use crate::ring::{
    lemma_slot_add_pow32, lemma_slot_distinct, lemma_wrap_add_slot, lemma_wrap_dist_add,
    lemma_wrap_dist_sub, ring_same, slot_of, wrap_add, wrap_dist, FRAME_SIZE,
};
use crate::socket::{rx_same, tx_same, RingError, RxSocket, TxSocket};
use vstd::prelude::*;
use vstd::seq_lib::lemma_multiset_commutative;

verus! {

/// What a TX commit of `n` descriptors does: with `n` within the available
/// window it advances the cached producer by `n`, publishes it, and shrinks
/// the window; otherwise it fails with `NotAvailable` and changes nothing.
pub open spec fn tx_commit_rel(
    pre: TxSocket,
    post: TxSocket,
    n: int,
    r: Result<(), RingError>,
) -> bool {
    if 0 <= n <= pre.available {
        &&& r == Ok::<(), RingError>(())
        &&& post.available == pre.available - n
        &&& post.producer == wrap_add(pre.producer, n as u32)
        &&& post.x_ring.spec_producer() == post.producer
        &&& post.x_ring.slots@ == pre.x_ring.slots@
        &&& post.x_ring.spec_consumer() == pre.x_ring.spec_consumer()
        &&& post.x_ring.spec_flags() == pre.x_ring.spec_flags()
        &&& post.x_ring.len == pre.x_ring.len
        &&& post.x_ring.mask == pre.x_ring.mask
        &&& ring_same(post.u_ring, pre.u_ring)
        &&& post.consumer == pre.consumer
        &&& post.umem@ == pre.umem@
        &&& post.base == pre.base
        &&& post.wakeups == pre.wakeups
    } else {
        &&& r == Err::<(), RingError>(RingError::NotAvailable)
        &&& tx_same(post, pre)
    }
}

impl TxSocket {
    /// Publishes `n` staged descriptors to the kernel: the cached producer
    /// and the TX ring's producer word advance by exactly `n` and the
    /// available window shrinks by `n`. With `n` beyond the window, fails
    /// with `NotAvailable` and leaves the handle unchanged.
    pub fn commit(&mut self, n: usize) -> (r: Result<(), RingError>)
        requires
            old(self).inv(),
        ensures
            final(self).inv(),
            tx_commit_rel(*old(self), *final(self), n as int, r),
    {
        if n > self.available as usize {
            return Err(RingError::NotAvailable);
        }
        self.available = self.available - n as u32;
        self.producer = self.producer.wrapping_add(n as u32);
        let p = self.producer;
        self.x_ring.update_producer(p);
        proof {
            lemma_tx_commit_inv(*old(self), *self, n as int);
        }
        Ok(())
    }
}

/// What an RX commit of `n` descriptors does: with `n` within the available
/// window it copies the `n` consumed frame offsets into the fill ring,
/// advances the cached RX consumer and fill producer by `n`, and publishes
/// both; otherwise it fails with `NotAvailable` and changes nothing.
pub open spec fn rx_commit_rel(
    pre: RxSocket,
    post: RxSocket,
    n: int,
    r: Result<(), RingError>,
) -> bool {
    if 0 <= n <= pre.available {
        &&& r == Ok::<(), RingError>(())
        &&& post.available == pre.available - n
        &&& post.consumer == wrap_add(pre.consumer, n as u32)
        &&& post.producer == wrap_add(pre.producer, n as u32)
        &&& post.x_ring.spec_consumer() == post.consumer
        &&& post.u_ring.spec_producer() == post.producer
        &&& post.x_ring.slots@ == pre.x_ring.slots@
        &&& post.x_ring.spec_producer() == pre.x_ring.spec_producer()
        &&& post.x_ring.spec_flags() == pre.x_ring.spec_flags()
        &&& post.x_ring.len == pre.x_ring.len
        &&& post.x_ring.mask == pre.x_ring.mask
        &&& post.u_ring.spec_consumer() == pre.u_ring.spec_consumer()
        &&& post.u_ring.spec_flags() == pre.u_ring.spec_flags()
        &&& post.u_ring.len == pre.u_ring.len
        &&& post.u_ring.mask == pre.u_ring.mask
        &&& post.u_ring.slots@.len() == pre.u_ring.slots@.len()
        &&& forall|j: int|
            0 <= j < n ==> #[trigger] post.u_ring.slots@[slot_of(
                pre.producer + j,
                pre.u_ring.spec_len(),
            )] == pre.x_ring.slots@[slot_of(pre.consumer + j, pre.x_len())].addr
        &&& post.fillable() == pre.fillable() + pre.filled().subrange(0, n)
        &&& post.filled() == pre.filled().subrange(n, pre.filled().len() as int)
        &&& post.umem@ == pre.umem@
        &&& post.base == pre.base
        &&& post.wakeups == pre.wakeups
    } else {
        &&& r == Err::<(), RingError>(RingError::NotAvailable)
        &&& rx_same(post, pre)
    }
}

impl RxSocket {
    /// Returns `n` consumed frames to the kernel: their offsets are copied,
    /// in order, into the fill ring, and the RX consumer and fill producer
    /// words both advance by exactly `n`. With `n` beyond the available
    /// window, fails with `NotAvailable` and leaves the handle unchanged.
    pub fn commit(&mut self, n: usize) -> (r: Result<(), RingError>)
        requires
            old(self).inv(),
        ensures
            final(self).inv(),
            rx_commit_rel(*old(self), *final(self), n as int, r),
    {
        if n > self.available as usize {
            return Err(RingError::NotAvailable);
        }
        let ghost pre = *old(self);
        let ghost ul = pre.u_ring.spec_len();
        let ghost xl = pre.x_len();
        let ghost ucons = pre.u_ring.spec_consumer();
        let ghost dist_f = wrap_dist(pre.producer, ucons);
        proof {
            // The n slots about to be written lie beyond the fillable
            // window: together they fit in the ring.
            assert(dist_f + n <= ul);
        }
        let mut j: usize = 0;
        while j < n
            invariant
                j <= n,
                n <= pre.available,
                pre.inv(),
                ul == pre.u_ring.spec_len(),
                xl == pre.x_len(),
                ucons == pre.u_ring.spec_consumer(),
                dist_f == wrap_dist(pre.producer, ucons),
                self.available == pre.available,
                self.producer == pre.producer,
                self.consumer == pre.consumer,
                self.base == pre.base,
                self.wakeups == pre.wakeups,
                self.umem@ == pre.umem@,
                ring_same(self.x_ring, pre.x_ring),
                self.u_ring.wf(),
                self.u_ring.len == pre.u_ring.len,
                self.u_ring.mask == pre.u_ring.mask,
                self.u_ring.spec_producer() == pre.u_ring.spec_producer(),
                self.u_ring.spec_consumer() == pre.u_ring.spec_consumer(),
                self.u_ring.spec_flags() == pre.u_ring.spec_flags(),
                dist_f + n <= ul,
                forall|t: int|
                    0 <= t < j ==> #[trigger] self.u_ring.slots@[slot_of(pre.producer + t, ul)]
                        == pre.x_ring.slots@[slot_of(pre.consumer + t, xl)].addr,
                forall|i: int|
                    0 <= i < dist_f ==> #[trigger] self.u_ring.slots@[slot_of(ucons + i, ul)]
                        == pre.u_ring.slots@[slot_of(ucons + i, ul)],
            decreases n - j,
        {
            proof {
                lemma_wrap_add_slot(self.consumer, j as u32, self.x_ring.len as u32);
                lemma_wrap_add_slot(self.producer, j as u32, self.u_ring.len as u32);
            }
            let xs = self.x_ring.slot_index(self.consumer.wrapping_add(j as u32));
            let us = self.u_ring.slot_index(self.producer.wrapping_add(j as u32));
            let d = self.x_ring.desc_at(xs);
            self.u_ring.set_desc_at(us, d.addr);
            proof {
                assert forall|t: int|
                    0 <= t < j + 1 implies #[trigger] self.u_ring.slots@[slot_of(
                    pre.producer + t,
                    ul,
                )] == pre.x_ring.slots@[slot_of(pre.consumer + t, xl)].addr by {
                    if t < j {
                        lemma_slot_distinct(pre.producer as int, t, j as int, ul);
                    }
                }
                assert forall|i: int|
                    0 <= i < dist_f implies #[trigger] self.u_ring.slots@[slot_of(ucons + i, ul)]
                    == pre.u_ring.slots@[slot_of(ucons + i, ul)] by {
                    lemma_slot_distinct(ucons as int, i, dist_f + j, ul);
                    if ucons + dist_f == pre.producer + 0x1_0000_0000 {
                        lemma_slot_add_pow32(pre.producer + j, self.u_ring.len as u32);
                    }
                    assert(slot_of(ucons + (dist_f + j), ul) == slot_of(pre.producer + j, ul));
                }
            }
            j = j + 1;
        }
        self.consumer = self.consumer.wrapping_add(n as u32);
        self.producer = self.producer.wrapping_add(n as u32);
        self.available = self.available - n as u32;
        let c = self.consumer;
        let p = self.producer;
        self.x_ring.update_consumer(c);
        self.u_ring.update_producer(p);
        proof {
            lemma_rx_commit_windows(pre, *self, n as int);
        }
        Ok(())
    }
}

/// After the RX commit writes and index advances, the fill window has grown
/// by exactly the consumed offsets, the delivered window has shrunk by them,
/// and the invariant holds again.
proof fn lemma_rx_commit_windows(pre: RxSocket, post: RxSocket, n: int)
    requires
        pre.inv(),
        0 <= n <= pre.available,
        post.available == pre.available - n,
        post.consumer == wrap_add(pre.consumer, n as u32),
        post.producer == wrap_add(pre.producer, n as u32),
        post.x_ring.spec_consumer() == post.consumer,
        post.u_ring.spec_producer() == post.producer,
        post.x_ring.slots@ == pre.x_ring.slots@,
        post.x_ring.spec_producer() == pre.x_ring.spec_producer(),
        post.x_ring.spec_flags() == pre.x_ring.spec_flags(),
        post.x_ring.len == pre.x_ring.len,
        post.x_ring.mask == pre.x_ring.mask,
        post.u_ring.wf(),
        post.u_ring.len == pre.u_ring.len,
        post.u_ring.mask == pre.u_ring.mask,
        post.u_ring.spec_consumer() == pre.u_ring.spec_consumer(),
        post.u_ring.spec_flags() == pre.u_ring.spec_flags(),
        forall|t: int|
            0 <= t < n ==> #[trigger] post.u_ring.slots@[slot_of(
                pre.producer + t,
                pre.u_ring.spec_len(),
            )] == pre.x_ring.slots@[slot_of(pre.consumer + t, pre.x_len())].addr,
        forall|i: int|
            0 <= i < wrap_dist(pre.producer, pre.u_ring.spec_consumer())
                ==> #[trigger] post.u_ring.slots@[slot_of(
                pre.u_ring.spec_consumer() + i,
                pre.u_ring.spec_len(),
            )] == pre.u_ring.slots@[slot_of(pre.u_ring.spec_consumer() + i, pre.u_ring.spec_len())],
        post.umem@ == pre.umem@,
        post.base == pre.base,
    ensures
        post.fillable() == pre.fillable() + pre.filled().subrange(0, n),
        post.filled() == pre.filled().subrange(n, pre.filled().len() as int),
        post.inv(),
{
    let ul = pre.u_ring.spec_len();
    let xl = pre.x_len();
    let ucons = pre.u_ring.spec_consumer();
    let xprod = pre.x_ring.spec_producer();
    let dist_f = wrap_dist(pre.producer, ucons);
    let dist_x = wrap_dist(xprod, pre.consumer);
    let f = pre.filled();
    let g = pre.fillable();
    let f1 = f.subrange(0, n);
    let f2 = f.subrange(n, f.len() as int);
    assert(f =~= f1 + f2);
    lemma_wrap_dist_add(pre.producer, ucons, n as u32);
    lemma_wrap_dist_sub(xprod, pre.consumer, n as u32);

    // The grown fill window: old part unchanged, new tail holds the
    // consumed offsets.
    assert forall|i: int| 0 <= i < dist_f + n implies post.fillable()[i] == (g + f1)[i] by {
        if i < dist_f {
            assert(post.u_ring.slots@[slot_of(ucons + i, ul)] == pre.u_ring.slots@[slot_of(
                ucons + i,
                ul,
            )]);
        } else {
            let t = i - dist_f;
            if ucons + dist_f == pre.producer + 0x1_0000_0000 {
                lemma_slot_add_pow32(pre.producer + t, pre.u_ring.len as u32);
            }
            assert(slot_of(ucons + i, ul) == slot_of(pre.producer + t, ul));
        }
    }
    assert(post.fillable() =~= g + f1);

    // The shrunk delivered window.
    assert forall|i: int| 0 <= i < dist_x - n implies post.filled()[i] == f2[i] by {
        if pre.consumer + n > u32::MAX {
            lemma_slot_add_pow32(post.consumer + i, pre.x_ring.len as u32);
            assert(post.consumer + i + 0x1_0000_0000 == pre.consumer + n + i);
        }
        assert(slot_of(post.consumer + i, xl) == slot_of(pre.consumer + (n + i), xl));
    }
    assert(post.filled() =~= f2);

    // Conservation: the union multiset is untouched.
    assert(post.frames() =~= pre.frames());
    lemma_multiset_commutative(f1, f2);
    lemma_multiset_commutative(f, g);
    lemma_multiset_commutative(f2, g + f1);
    lemma_multiset_commutative(g, f1);
    assert((post.filled() + post.fillable()).to_multiset() =~= (f + g).to_multiset());

    // Descriptor lengths in the remaining window stay bounded.
    assert forall|i: int|
        0 <= i < wrap_dist(post.x_ring.spec_producer(), post.consumer)
        implies #[trigger] post.x_ring.slots@[slot_of(post.consumer + i, post.x_len())].len
        <= FRAME_SIZE by {
        if pre.consumer + n > u32::MAX {
            lemma_slot_add_pow32(post.consumer + i, pre.x_ring.len as u32);
        }
        assert(slot_of(post.consumer + i, xl) == slot_of(pre.consumer + (n + i), xl));
        assert(pre.x_ring.slots@[slot_of(pre.consumer + (n + i), xl)].len <= FRAME_SIZE);
    }
    assert((post.filled() + post.fillable()).to_multiset() == post.frames().to_multiset());
}

/// A successful TX commit preserves the handle invariant: the staged window
/// loses its first `n` frames and the published window gains exactly them.
proof fn lemma_tx_commit_inv(pre: TxSocket, post: TxSocket, n: int)
    requires
        pre.inv(),
        0 <= n <= pre.available,
        post.available == pre.available - n,
        post.producer == wrap_add(pre.producer, n as u32),
        post.x_ring.spec_producer() == post.producer,
        post.x_ring.slots@ == pre.x_ring.slots@,
        post.x_ring.spec_consumer() == pre.x_ring.spec_consumer(),
        post.x_ring.len == pre.x_ring.len,
        post.x_ring.mask == pre.x_ring.mask,
        ring_same(post.u_ring, pre.u_ring),
        post.consumer == pre.consumer,
        post.umem@ == pre.umem@,
        post.base == pre.base,
    ensures
        post.inv(),
{
    let l = pre.x_len();
    let xc = pre.x_ring.spec_consumer();
    let dist = wrap_dist(pre.producer, xc);
    lemma_wrap_dist_add(pre.producer, xc, n as u32);
    let a = pre.staged();
    let c = pre.committed();
    let d = pre.completions();
    let a1 = a.subrange(0, n);
    let a2 = a.subrange(n, a.len() as int);
    assert(a =~= a1 + a2);

    // The new staged window is the old one without its first n frames.
    assert forall|i: int| 0 <= i < post.available implies post.staged()[i] == a2[i] by {
        if pre.producer + n > u32::MAX {
            lemma_slot_add_pow32(post.producer + i, pre.x_ring.len as u32);
            assert(post.producer + i + 0x1_0000_0000 == pre.producer + n + i);
        }
        assert(slot_of(post.producer + i, l) == slot_of(pre.producer + (n + i), l));
    }
    assert(post.staged() =~= a2);

    // The new published window is the old one plus the first n staged.
    assert forall|i: int| 0 <= i < dist + n implies post.committed()[i] == (c + a1)[i] by {
        if i < dist {
            assert(post.committed()[i] == c[i]);
        } else {
            let j = i - dist;
            if xc + dist == pre.producer + 0x1_0000_0000 {
                lemma_slot_add_pow32(pre.producer + j, pre.x_ring.len as u32);
            }
            assert(slot_of(xc + i, l) == slot_of(pre.producer + j, l));
            assert(post.committed()[i] == a1[j]);
        }
    }
    assert(post.committed() =~= c + a1);
    assert(post.completions() =~= d);
    assert(post.frames() =~= pre.frames());

    lemma_multiset_commutative(a1, a2);
    lemma_multiset_commutative(a, c);
    lemma_multiset_commutative(a + c, d);
    lemma_multiset_commutative(c, a1);
    lemma_multiset_commutative(a2, c + a1);
    lemma_multiset_commutative(a2 + (c + a1), d);
    assert((post.staged() + post.committed() + post.completions()).to_multiset() =~= ((a + c)
        + d).to_multiset());
}

} // verus!
