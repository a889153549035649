//! The kernel's half of the protocol, as in-process transition functions:
//! completing sent frames into the completion ring and delivering received
//! packets out of the fill ring. A loopback harness drives a handle with
//! these exactly as the kernel would drive it through shared memory, and
//! each transition is proved to preserve the frame-conservation invariant.

use crate::ring::{
    lemma_slot_add_pow32, lemma_slot_distinct, lemma_wrap_add_slot, lemma_wrap_dist_add,
    lemma_wrap_dist_sub, ring_same, slot_of, wrap_add, wrap_dist, XdpDesc, FRAME_SIZE,
};
use crate::socket::{copy_into, rx_same, RxSocket, TxSocket};
use vstd::arithmetic::mul::{lemma_mul_inequality, lemma_mul_is_distributive_add_other_way};
use vstd::prelude::*;
use vstd::seq_lib::lemma_multiset_commutative;

verus! {

/// What completing `n` sent frames does: the kernel consumes `n`
/// descriptors off the TX ring — its consumer word advances — and
/// publishes their frame offsets, in order, on the completion ring.
pub open spec fn tx_kernel_complete_rel(pre: TxSocket, post: TxSocket, n: int) -> bool {
    &&& 0 <= n <= wrap_dist(pre.producer, pre.x_ring.spec_consumer())
    &&& post.x_ring.spec_consumer() == wrap_add(pre.x_ring.spec_consumer(), n as u32)
    &&& post.u_ring.spec_producer() == wrap_add(pre.u_ring.spec_producer(), n as u32)
    &&& post.x_ring.slots@ == pre.x_ring.slots@
    &&& post.x_ring.spec_producer() == pre.x_ring.spec_producer()
    &&& post.x_ring.spec_flags() == pre.x_ring.spec_flags()
    &&& post.x_ring.len == pre.x_ring.len
    &&& post.x_ring.mask == pre.x_ring.mask
    &&& post.u_ring.spec_consumer() == pre.u_ring.spec_consumer()
    &&& post.u_ring.spec_flags() == pre.u_ring.spec_flags()
    &&& post.u_ring.len == pre.u_ring.len
    &&& post.u_ring.mask == pre.u_ring.mask
    &&& post.completions() == pre.completions() + pre.committed().subrange(0, n)
    &&& post.committed() == pre.committed().subrange(n, pre.committed().len() as int)
    &&& post.available == pre.available
    &&& post.producer == pre.producer
    &&& post.consumer == pre.consumer
    &&& post.umem@ == pre.umem@
    &&& post.base == pre.base
    &&& post.wakeups == pre.wakeups
}

impl TxSocket {
    /// Plays the kernel finishing the send of the oldest `n` published
    /// frames: their descriptors leave the TX ring and their offsets
    /// appear, in order, on the completion ring.
    pub fn kernel_complete(&mut self, n: usize)
        requires
            old(self).inv(),
            n <= wrap_dist(old(self).producer, old(self).x_ring.spec_consumer()),
        ensures
            final(self).inv(),
            tx_kernel_complete_rel(*old(self), *final(self), n as int),
    {
        let ghost pre = *old(self);
        let ghost ul = pre.u_ring.spec_len();
        let ghost xl = pre.x_len();
        let ghost xc = pre.x_ring.spec_consumer();
        let ghost uprod = pre.u_ring.spec_producer();
        let ghost dist_c = wrap_dist(uprod, pre.consumer);
        let mut j: usize = 0;
        while j < n
            invariant
                j <= n,
                pre.inv(),
                n <= wrap_dist(pre.producer, xc),
                ul == pre.u_ring.spec_len(),
                xl == pre.x_len(),
                xc == pre.x_ring.spec_consumer(),
                uprod == pre.u_ring.spec_producer(),
                dist_c == wrap_dist(uprod, pre.consumer),
                self.available == pre.available,
                self.producer == pre.producer,
                self.consumer == pre.consumer,
                self.base == pre.base,
                self.wakeups == pre.wakeups,
                self.umem@ == pre.umem@,
                ring_same(self.x_ring, pre.x_ring),
                self.u_ring.wf(),
                self.u_ring.len == pre.u_ring.len,
                self.u_ring.mask == pre.u_ring.mask,
                self.u_ring.spec_producer() == uprod,
                self.u_ring.spec_consumer() == pre.u_ring.spec_consumer(),
                self.u_ring.spec_flags() == pre.u_ring.spec_flags(),
                forall|t: int|
                    0 <= t < j ==> #[trigger] self.u_ring.slots@[slot_of(uprod + t, ul)]
                        == pre.committed()[t],
                forall|i: int|
                    0 <= i < dist_c ==> #[trigger] self.u_ring.slots@[slot_of(
                        pre.consumer + i,
                        ul,
                    )] == pre.u_ring.slots@[slot_of(pre.consumer + i, ul)],
            decreases n - j,
        {
            proof {
                lemma_wrap_add_slot(xc, j as u32, self.x_ring.len as u32);
                lemma_wrap_add_slot(uprod, j as u32, self.u_ring.len as u32);
            }
            let xs = self.x_ring.slot_index(self.x_ring.consumer().wrapping_add(j as u32));
            let us = self.u_ring.slot_index(self.u_ring.producer().wrapping_add(j as u32));
            let d = self.x_ring.desc_at(xs);
            self.u_ring.set_desc_at(us, d.addr);
            proof {
                assert forall|t: int|
                    0 <= t < j + 1 implies #[trigger] self.u_ring.slots@[slot_of(uprod + t, ul)]
                    == pre.committed()[t] by {
                    if t < j {
                        lemma_slot_distinct(uprod as int, t, j as int, ul);
                    }
                }
                assert forall|i: int|
                    0 <= i < dist_c implies #[trigger] self.u_ring.slots@[slot_of(
                    pre.consumer + i,
                    ul,
                )] == pre.u_ring.slots@[slot_of(pre.consumer + i, ul)] by {
                    lemma_slot_distinct(pre.consumer as int, i, dist_c + j, ul);
                    if pre.consumer + dist_c == uprod + 0x1_0000_0000 {
                        lemma_slot_add_pow32(uprod + j, self.u_ring.len as u32);
                    }
                    assert(slot_of(pre.consumer + (dist_c + j), ul) == slot_of(uprod + j, ul));
                }
            }
            j = j + 1;
        }
        let xc_new = self.x_ring.consumer().wrapping_add(n as u32);
        self.x_ring.update_consumer(xc_new);
        let up_new = self.u_ring.producer().wrapping_add(n as u32);
        self.u_ring.update_producer(up_new);
        proof {
            lemma_tx_complete_windows(pre, *self, n as int);
        }
    }
}

/// After the completion writes and word advances, the completion window has
/// grown by exactly the oldest published frames, the published window has
/// shrunk by them, and the invariant holds again.
proof fn lemma_tx_complete_windows(pre: TxSocket, post: TxSocket, n: int)
    requires
        pre.inv(),
        0 <= n <= wrap_dist(pre.producer, pre.x_ring.spec_consumer()),
        post.x_ring.spec_consumer() == wrap_add(pre.x_ring.spec_consumer(), n as u32),
        post.u_ring.spec_producer() == wrap_add(pre.u_ring.spec_producer(), n as u32),
        post.x_ring.slots@ == pre.x_ring.slots@,
        post.x_ring.spec_producer() == pre.x_ring.spec_producer(),
        post.x_ring.spec_flags() == pre.x_ring.spec_flags(),
        post.x_ring.len == pre.x_ring.len,
        post.x_ring.mask == pre.x_ring.mask,
        post.u_ring.wf(),
        post.u_ring.len == pre.u_ring.len,
        post.u_ring.mask == pre.u_ring.mask,
        post.u_ring.spec_consumer() == pre.u_ring.spec_consumer(),
        post.u_ring.spec_flags() == pre.u_ring.spec_flags(),
        forall|t: int|
            0 <= t < n ==> #[trigger] post.u_ring.slots@[slot_of(
                pre.u_ring.spec_producer() + t,
                pre.u_ring.spec_len(),
            )] == pre.committed()[t],
        forall|i: int|
            0 <= i < wrap_dist(pre.u_ring.spec_producer(), pre.consumer)
                ==> #[trigger] post.u_ring.slots@[slot_of(pre.consumer + i, pre.u_ring.spec_len())]
                == pre.u_ring.slots@[slot_of(pre.consumer + i, pre.u_ring.spec_len())],
        post.available == pre.available,
        post.producer == pre.producer,
        post.consumer == pre.consumer,
        post.umem@ == pre.umem@,
        post.base == pre.base,
    ensures
        post.completions() == pre.completions() + pre.committed().subrange(0, n),
        post.committed() == pre.committed().subrange(n, pre.committed().len() as int),
        post.staged() == pre.staged(),
        post.inv(),
{
    let ul = pre.u_ring.spec_len();
    let xl = pre.x_len();
    let xc = pre.x_ring.spec_consumer();
    let uprod = pre.u_ring.spec_producer();
    let dist_x = wrap_dist(pre.producer, xc);
    let dist_c = wrap_dist(uprod, pre.consumer);
    let c = pre.committed();
    let d = pre.completions();
    let c1 = c.subrange(0, n);
    let c2 = c.subrange(n, c.len() as int);
    assert(c =~= c1 + c2);
    lemma_wrap_dist_add(uprod, pre.consumer, n as u32);
    lemma_wrap_dist_sub(pre.producer, xc, n as u32);

    // The completion window keeps its old entries and gains the completed
    // offsets at the back.
    assert forall|i: int| 0 <= i < dist_c + n implies post.completions()[i] == (d + c1)[i] by {
        if i < dist_c {
            assert(post.u_ring.slots@[slot_of(pre.consumer + i, ul)] == pre.u_ring.slots@[slot_of(
                pre.consumer + i,
                ul,
            )]);
        } else {
            let t = i - dist_c;
            if pre.consumer + dist_c == uprod + 0x1_0000_0000 {
                lemma_slot_add_pow32(uprod + t, pre.u_ring.len as u32);
            }
            assert(slot_of(pre.consumer + i, ul) == slot_of(uprod + t, ul));
        }
    }
    assert(post.completions() =~= d + c1);

    // The published window loses its first n entries.
    assert forall|i: int| 0 <= i < dist_x - n implies post.committed()[i] == c2[i] by {
        if xc + n > u32::MAX {
            lemma_slot_add_pow32(post.x_ring.spec_consumer() + i, pre.x_ring.len as u32);
            assert(post.x_ring.spec_consumer() + i + 0x1_0000_0000 == xc + n + i);
        }
        assert(slot_of(post.x_ring.spec_consumer() + i, xl) == slot_of(xc + (n + i), xl));
    }
    assert(post.committed() =~= c2);
    assert(post.staged() =~= pre.staged());

    // Conservation: the union multiset is untouched.
    assert(post.frames() =~= pre.frames());
    let a = pre.staged();
    lemma_multiset_commutative(c1, c2);
    lemma_multiset_commutative(a, c);
    lemma_multiset_commutative(a + c, d);
    lemma_multiset_commutative(a, c2);
    lemma_multiset_commutative(a + c2, d + c1);
    lemma_multiset_commutative(d, c1);
    assert((post.staged() + post.committed() + post.completions()).to_multiset() =~= ((a + c)
        + d).to_multiset());
}

/// A fillable frame offset is a real frame of the pool.
pub proof fn lemma_rx_fillable_addr_valid(s: RxSocket, i: int)
    requires
        s.inv(),
        0 <= i < wrap_dist(s.producer, s.u_ring.spec_consumer()),
    ensures
        s.base <= s.fillable()[i],
        s.fillable()[i] - s.base + FRAME_SIZE <= s.umem@.len(),
{
    let a = s.fillable()[i];
    let u = s.filled() + s.fillable();
    assert(u[s.filled().len() + i] == a);
    assert(u.contains(a));
    broadcast use vstd::seq_lib::group_to_multiset_ensures;

    assert(u.to_multiset().count(a) > 0);
    assert(s.frames().to_multiset().count(a) > 0);
    assert(s.frames().contains(a));
    let fi = choose|fi: int| 0 <= fi < s.frames().len() && s.frames()[fi] == a;
    lemma_mul_inequality(fi + 1, s.x_len(), FRAME_SIZE as int);
    lemma_mul_is_distributive_add_other_way(FRAME_SIZE as int, fi, 1);
}

/// What delivering one received packet does: with no fillable frame the
/// kernel can do nothing. Otherwise it takes the oldest fill entry, writes
/// the payload into that frame, appends a descriptor for it on the RX ring,
/// and advances its RX producer and fill consumer words.
pub open spec fn rx_kernel_deliver_rel(
    pre: RxSocket,
    post: RxSocket,
    data: Seq<u8>,
    r: bool,
) -> bool {
    let a = pre.fillable()[0];
    if wrap_dist(pre.producer, pre.u_ring.spec_consumer()) == 0 {
        &&& r == false
        &&& rx_same(post, pre)
    } else {
        &&& r == true
        &&& post.x_ring.spec_producer() == wrap_add(pre.x_ring.spec_producer(), 1)
        &&& post.u_ring.spec_consumer() == wrap_add(pre.u_ring.spec_consumer(), 1)
        &&& post.x_ring.slots@ == pre.x_ring.slots@.update(
            slot_of(pre.x_ring.spec_producer() as int, pre.x_len()),
            XdpDesc { addr: a, len: data.len() as u32, options: 0 },
        )
        &&& post.x_ring.spec_consumer() == pre.x_ring.spec_consumer()
        &&& post.x_ring.spec_flags() == pre.x_ring.spec_flags()
        &&& post.x_ring.len == pre.x_ring.len
        &&& post.x_ring.mask == pre.x_ring.mask
        &&& post.u_ring.slots@ == pre.u_ring.slots@
        &&& post.u_ring.spec_producer() == pre.u_ring.spec_producer()
        &&& post.u_ring.spec_flags() == pre.u_ring.spec_flags()
        &&& post.u_ring.len == pre.u_ring.len
        &&& post.u_ring.mask == pre.u_ring.mask
        &&& post.filled() == pre.filled() + seq![a]
        &&& post.fillable() == pre.fillable().subrange(1, pre.fillable().len() as int)
        &&& post.umem@.len() == pre.umem@.len()
        &&& forall|q: int| 0 <= q < data.len() ==> post.umem@[a - pre.base + q] == data[q]
        &&& forall|q: int|
            0 <= q < pre.umem@.len() && !(a - pre.base <= q < a - pre.base + data.len())
                ==> post.umem@[q] == pre.umem@[q]
        &&& post.available == pre.available
        &&& post.producer == pre.producer
        &&& post.consumer == pre.consumer
        &&& post.base == pre.base
        &&& post.wakeups == pre.wakeups
    }
}

impl RxSocket {
    /// Plays the kernel receiving one packet: the payload lands in the
    /// oldest fillable frame and a descriptor for it appears on the RX
    /// ring. Returns false, changing nothing, when the fill ring offers no
    /// frame.
    pub fn kernel_deliver(&mut self, data: &[u8]) -> (r: bool)
        requires
            old(self).inv(),
            data@.len() <= FRAME_SIZE,
        ensures
            final(self).inv(),
            rx_kernel_deliver_rel(*old(self), *final(self), data@, r),
    {
        let ucons = self.u_ring.consumer();
        if ucons == self.producer {
            return false;
        }
        let ghost pre = *old(self);
        proof {
            lemma_rx_fillable_addr_valid(pre, 0);
        }
        let a_slot = self.u_ring.slot_index(ucons);
        let a = self.u_ring.desc_at(a_slot);
        let umem_len = self.umem.len();
        proof {
            assert(a == pre.fillable()[0]);
            assert(a - pre.base + FRAME_SIZE <= umem_len);
        }
        let start = (a - self.base) as usize;
        copy_into(&mut self.umem, start, data);
        let x_prod = self.x_ring.producer();
        let xs = self.x_ring.slot_index(x_prod);
        self.x_ring.set_desc_at(xs, XdpDesc::new(a, data.len() as u32, 0));
        let xp_new = x_prod.wrapping_add(1);
        self.x_ring.update_producer(xp_new);
        let uc_new = ucons.wrapping_add(1);
        self.u_ring.update_consumer(uc_new);
        proof {
            lemma_rx_deliver_windows(pre, *self, data@);
        }
        true
    }
}

/// After one delivery, the delivered window has grown by the taken frame,
/// the fill window has lost it, and the invariant holds again.
proof fn lemma_rx_deliver_windows(pre: RxSocket, post: RxSocket, data: Seq<u8>)
    requires
        pre.inv(),
        data.len() <= FRAME_SIZE,
        wrap_dist(pre.producer, pre.u_ring.spec_consumer()) > 0,
        ({
            let a = pre.fillable()[0];
            &&& post.x_ring.spec_producer() == wrap_add(pre.x_ring.spec_producer(), 1)
            &&& post.u_ring.spec_consumer() == wrap_add(pre.u_ring.spec_consumer(), 1)
            &&& post.x_ring.slots@ == pre.x_ring.slots@.update(
                slot_of(pre.x_ring.spec_producer() as int, pre.x_len()),
                XdpDesc { addr: a, len: data.len() as u32, options: 0 },
            )
            &&& post.x_ring.spec_consumer() == pre.x_ring.spec_consumer()
            &&& post.x_ring.len == pre.x_ring.len
            &&& post.x_ring.mask == pre.x_ring.mask
            &&& post.u_ring.slots@ == pre.u_ring.slots@
            &&& post.u_ring.spec_producer() == pre.u_ring.spec_producer()
            &&& post.u_ring.len == pre.u_ring.len
            &&& post.u_ring.mask == pre.u_ring.mask
            &&& post.umem@.len() == pre.umem@.len()
            &&& post.available == pre.available
            &&& post.producer == pre.producer
            &&& post.consumer == pre.consumer
            &&& post.base == pre.base
        }),
    ensures
        post.filled() == pre.filled() + seq![pre.fillable()[0]],
        post.fillable() == pre.fillable().subrange(1, pre.fillable().len() as int),
        post.inv(),
{
    let a = pre.fillable()[0];
    let ul = pre.u_ring.spec_len();
    let xl = pre.x_len();
    let xprod = pre.x_ring.spec_producer();
    let ucons = pre.u_ring.spec_consumer();
    let dist_x = wrap_dist(xprod, pre.consumer);
    let dist_f = wrap_dist(pre.producer, ucons);
    let f = pre.filled();
    let g = pre.fillable();
    let g1 = g.subrange(0, 1);
    let g2 = g.subrange(1, g.len() as int);
    assert(g =~= g1 + g2);
    lemma_wrap_dist_add(xprod, pre.consumer, 1u32);
    lemma_wrap_dist_sub(pre.producer, ucons, 1u32);

    // The delivered window keeps its entries and gains the new frame.
    assert forall|i: int| 0 <= i < dist_x + 1 implies post.filled()[i] == (f + seq![a])[i] by {
        if i < dist_x {
            lemma_slot_distinct(pre.consumer as int, i, dist_x, xl);
            if pre.consumer + dist_x == xprod + 0x1_0000_0000 {
                lemma_slot_add_pow32(xprod as int, pre.x_ring.len as u32);
            }
            assert(slot_of(pre.consumer + dist_x, xl) == slot_of(xprod as int, xl));
        } else {
            if pre.consumer + dist_x == xprod + 0x1_0000_0000 {
                lemma_slot_add_pow32(xprod as int, pre.x_ring.len as u32);
            }
            assert(slot_of(pre.consumer + i, xl) == slot_of(xprod as int, xl));
        }
    }
    assert(post.filled() =~= f + seq![a]);

    // The fill window loses its first entry.
    assert forall|i: int| 0 <= i < dist_f - 1 implies post.fillable()[i] == g2[i] by {
        if ucons + 1 > u32::MAX {
            lemma_slot_add_pow32(post.u_ring.spec_consumer() + i, pre.u_ring.len as u32);
            assert(post.u_ring.spec_consumer() + i + 0x1_0000_0000 == ucons + 1 + i);
        }
        assert(slot_of(post.u_ring.spec_consumer() + i, ul) == slot_of(ucons + (1 + i), ul));
    }
    assert(post.fillable() =~= g2);

    // Descriptor lengths over the grown window stay bounded.
    assert forall|i: int|
        0 <= i < wrap_dist(post.x_ring.spec_producer(), post.consumer)
        implies #[trigger] post.x_ring.slots@[slot_of(post.consumer + i, post.x_len())].len
        <= FRAME_SIZE by {
        if i < dist_x {
            lemma_slot_distinct(pre.consumer as int, i, dist_x, xl);
            if pre.consumer + dist_x == xprod + 0x1_0000_0000 {
                lemma_slot_add_pow32(xprod as int, pre.x_ring.len as u32);
            }
            assert(slot_of(pre.consumer + dist_x, xl) == slot_of(xprod as int, xl));
            assert(post.x_ring.slots@[slot_of(pre.consumer + i, xl)] == pre.x_ring.slots@[slot_of(
                pre.consumer + i,
                xl,
            )]);
        } else {
            if pre.consumer + dist_x == xprod + 0x1_0000_0000 {
                lemma_slot_add_pow32(xprod as int, pre.x_ring.len as u32);
            }
            assert(slot_of(pre.consumer + i, xl) == slot_of(xprod as int, xl));
        }
    }

    // Conservation: the union multiset is untouched.
    assert(post.frames() =~= pre.frames());
    lemma_multiset_commutative(g1, g2);
    lemma_multiset_commutative(f, g);
    lemma_multiset_commutative(f, seq![a]);
    lemma_multiset_commutative(f + seq![a], g2);
    assert(g1 =~= seq![a]);
    assert((post.filled() + post.fillable()).to_multiset() =~= (f + g).to_multiset());
}

} // verus!
