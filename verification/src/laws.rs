//! The laws of the protocol, stated and proved over the operation
//! relations: frame conservation, monotonicity of the published indices,
//! idempotence of an unanswered TX seek, the commit/seek inverse, the
//! peek–write–commit round trip, the fill-ring refill, and kick elision.

use crate::commit::{rx_commit_rel, tx_commit_rel};
use crate::kernel::{rx_kernel_deliver_rel, tx_kernel_complete_rel};
use crate::kick::{rx_kick_rel, tx_kick_rel};
use crate::peek::{tx_peek_rel, tx_write_rel};
use crate::ring::{lemma_wrap_add_dist, slot_of, wrap_add, wrap_dist, RING_NEED_WAKEUP};
use crate::seek::{rx_seek_rel, tx_seek_rel};
use crate::socket::{rx_same, tx_same, RingError, RxSocket, TxSocket};
use vstd::arithmetic::mul::lemma_mul_strict_inequality;
use vstd::prelude::*;

verus! {

/// Frame conservation on the transmit side: the staged, published and
/// completion windows together hold exactly the frame pool — their total
/// length is the ring length and every frame offset appears exactly once.
pub proof fn lemma_tx_frame_conservation(s: TxSocket)
    requires
        s.inv(),
    ensures
        (s.staged() + s.committed() + s.completions()).to_multiset() == s.frames().to_multiset(),
        s.staged().len() + s.committed().len() + s.completions().len() == s.x_len(),
        forall|a: u64|
            s.frames().contains(a) ==> (s.staged() + s.committed()
                + s.completions()).to_multiset().count(a) == 1,
{
    broadcast use vstd::seq_lib::group_to_multiset_ensures;

    lemma_frames_distinct(s.base, s.x_len());
    s.frames().lemma_multiset_has_no_duplicates();
}

/// Frame conservation on the receive side: the delivered and fill windows
/// together hold exactly the frame pool.
pub proof fn lemma_rx_frame_conservation(s: RxSocket)
    requires
        s.inv(),
    ensures
        (s.filled() + s.fillable()).to_multiset() == s.frames().to_multiset(),
        s.filled().len() + s.fillable().len() == s.x_len(),
        forall|a: u64|
            s.frames().contains(a) ==> (s.filled() + s.fillable()).to_multiset().count(a) == 1,
{
    broadcast use vstd::seq_lib::group_to_multiset_ensures;

    lemma_frames_distinct(s.base, s.x_len());
    s.frames().lemma_multiset_has_no_duplicates();
}

/// The frame offsets of a pool are pairwise distinct.
proof fn lemma_frames_distinct(base: u64, n: int)
    requires
        0 <= n,
        base + n * (crate::ring::FRAME_SIZE as int) <= u64::MAX,
    ensures
        crate::socket::frame_seq(base, n).no_duplicates(),
{
    let f = crate::socket::frame_seq(base, n);
    assert forall|i: int, j: int| 0 <= i < n && 0 <= j < n && i != j implies f[i] != f[j] by {
        if i < j {
            lemma_mul_strict_inequality(i, j, crate::ring::FRAME_SIZE as int);
            lemma_frame_below_cap(base, i, j, n);
        } else {
            lemma_mul_strict_inequality(j, i, crate::ring::FRAME_SIZE as int);
            lemma_frame_below_cap(base, j, i, n);
        }
    }
}

/// Frame offsets below the pool end stay below `u64::MAX`, so their casts
/// keep their order.
proof fn lemma_frame_below_cap(base: u64, i: int, j: int, n: int)
    requires
        0 <= i < j < n,
        base + n * (crate::ring::FRAME_SIZE as int) <= u64::MAX,
    ensures
        base + i * (crate::ring::FRAME_SIZE as int) < base + j * (crate::ring::FRAME_SIZE as int),
        base + j * (crate::ring::FRAME_SIZE as int) <= u64::MAX,
{
    lemma_mul_strict_inequality(i, j, crate::ring::FRAME_SIZE as int);
    vstd::arithmetic::mul::lemma_mul_inequality(j, n, crate::ring::FRAME_SIZE as int);
}

/// One user-side or kernel-side transition of a transmit handle.
pub open spec fn tx_step(pre: TxSocket, post: TxSocket) -> bool {
    ||| exists|n: int, r: Result<usize, RingError>| #[trigger] tx_seek_rel(pre, post, n, r)
    ||| exists|n: int, r: Result<(), RingError>| #[trigger] tx_commit_rel(pre, post, n, r)
    ||| exists|i: int, len: int, r: Result<(), RingError>|
        #[trigger] tx_peek_rel(pre, post, i, len, r)
    ||| exists|i: int, at: int, data: Seq<u8>, r: Result<(), RingError>|
        #[trigger] tx_write_rel(pre, post, i, at, data, r)
    ||| exists|r: Result<(), RingError>| #[trigger] tx_kick_rel(pre, post, r)
    ||| exists|n: int| #[trigger] tx_kernel_complete_rel(pre, post, n)
}

/// One user-side or kernel-side transition of a receive handle.
pub open spec fn rx_step(pre: RxSocket, post: RxSocket) -> bool {
    ||| exists|n: int, r: Result<usize, RingError>| #[trigger] rx_seek_rel(pre, post, n, r)
    ||| exists|n: int, r: Result<(), RingError>| #[trigger] rx_commit_rel(pre, post, n, r)
    ||| exists|r: Result<(), RingError>| #[trigger] rx_kick_rel(pre, post, r)
    ||| exists|data: Seq<u8>, r: bool| #[trigger] rx_kernel_deliver_rel(pre, post, data, r)
}

/// Index monotonicity on the transmit side: across any single transition,
/// each published word either stays or advances — by at most the ring
/// length, never regressing modulo 2^32.
pub proof fn lemma_tx_index_monotonic(pre: TxSocket, post: TxSocket)
    requires
        pre.inv(),
        tx_step(pre, post),
    ensures
        0 <= wrap_dist(post.x_ring.spec_producer(), pre.x_ring.spec_producer()) <= pre.x_len(),
        0 <= wrap_dist(post.u_ring.spec_consumer(), pre.u_ring.spec_consumer()) <= pre.x_len(),
        0 <= wrap_dist(post.x_ring.spec_consumer(), pre.x_ring.spec_consumer()) <= pre.x_len(),
        0 <= wrap_dist(post.u_ring.spec_producer(), pre.u_ring.spec_producer()) <= pre.x_len(),
{
    if exists|n: int, r: Result<usize, RingError>| #[trigger] tx_seek_rel(pre, post, n, r) {
        let (n, r) = choose|n: int, r: Result<usize, RingError>| #[trigger] tx_seek_rel(
            pre,
            post,
            n,
            r,
        );
        let k = wrap_dist(pre.u_ring.spec_producer(), pre.consumer);
        if !(pre.available >= n) && k != 0 {
            lemma_wrap_add_dist(pre.consumer, k as u32);
        }
    } else if exists|n: int, r: Result<(), RingError>| #[trigger] tx_commit_rel(pre, post, n, r) {
        let (n, r) = choose|n: int, r: Result<(), RingError>| #[trigger] tx_commit_rel(
            pre,
            post,
            n,
            r,
        );
        if 0 <= n <= pre.available {
            lemma_wrap_add_dist(pre.producer, n as u32);
        }
    } else if exists|n: int| #[trigger] tx_kernel_complete_rel(pre, post, n) {
        let n = choose|n: int| #[trigger] tx_kernel_complete_rel(pre, post, n);
        lemma_wrap_add_dist(pre.x_ring.spec_consumer(), (n as u32));
        lemma_wrap_add_dist(pre.u_ring.spec_producer(), (n as u32));
    }
}

/// Index monotonicity on the receive side.
pub proof fn lemma_rx_index_monotonic(pre: RxSocket, post: RxSocket)
    requires
        pre.inv(),
        rx_step(pre, post),
    ensures
        0 <= wrap_dist(post.x_ring.spec_producer(), pre.x_ring.spec_producer()) <= pre.x_len(),
        0 <= wrap_dist(post.u_ring.spec_consumer(), pre.u_ring.spec_consumer()) <= pre.x_len(),
        0 <= wrap_dist(post.x_ring.spec_consumer(), pre.x_ring.spec_consumer()) <= pre.x_len(),
        0 <= wrap_dist(post.u_ring.spec_producer(), pre.u_ring.spec_producer()) <= pre.x_len(),
{
    if exists|n: int, r: Result<(), RingError>| #[trigger] rx_commit_rel(pre, post, n, r) {
        let (n, r) = choose|n: int, r: Result<(), RingError>| #[trigger] rx_commit_rel(
            pre,
            post,
            n,
            r,
        );
        if 0 <= n <= pre.available {
            lemma_wrap_add_dist(pre.consumer, n as u32);
            lemma_wrap_add_dist(pre.producer, n as u32);
        }
    } else if exists|data: Seq<u8>, r: bool| #[trigger] rx_kernel_deliver_rel(pre, post, data, r) {
        let (data, r) = choose|data: Seq<u8>, r: bool| #[trigger] rx_kernel_deliver_rel(
            pre,
            post,
            data,
            r,
        );
        if wrap_dist(pre.producer, pre.u_ring.spec_consumer()) != 0 {
            lemma_wrap_add_dist(pre.x_ring.spec_producer(), 1u32);
            lemma_wrap_add_dist(pre.u_ring.spec_consumer(), 1u32);
        }
    }
}

/// TX seek idempotence under no kernel progress: when a seek leaves the
/// handle unchanged, or drains the completion ring to exactly the asked
/// count, an immediate second seek for the same count returns the same
/// value and changes nothing.
pub proof fn lemma_tx_seek_idempotent(
    s0: TxSocket,
    s1: TxSocket,
    s2: TxSocket,
    n: int,
    r1: Result<usize, RingError>,
    r2: Result<usize, RingError>,
)
    requires
        s0.inv(),
        0 <= n,
        tx_seek_rel(s0, s1, n, r1),
        tx_seek_rel(s1, s2, n, r2),
        s0.available >= n || wrap_dist(s0.u_ring.spec_producer(), s0.consumer) == 0 || s0.available
            + wrap_dist(s0.u_ring.spec_producer(), s0.consumer) == n,
    ensures
        r2 == r1,
        tx_same(s2, s1),
{
    let k = wrap_dist(s0.u_ring.spec_producer(), s0.consumer);
    if s0.available >= n {
    } else if k == 0 {
    } else {
        assert(s0.available + k == n);
        assert(s1.available == n);
    }
}

/// The commit/seek inverse: after a seek for `n` that returned `k >= n`, a
/// commit of `n` lowers `available` by exactly `n` and advances the cached
/// producer, and the published producer word, by exactly `n`.
pub proof fn lemma_tx_commit_seek_inverse(
    s0: TxSocket,
    s1: TxSocket,
    s2: TxSocket,
    n: int,
    k: usize,
)
    requires
        s0.inv(),
        0 <= n,
        tx_seek_rel(s0, s1, n, Ok(k)),
        k >= n,
        tx_commit_rel(s1, s2, n, Ok(())),
    ensures
        s2.available == s1.available - n,
        s2.producer == wrap_add(s1.producer, n as u32),
        wrap_dist(s2.producer, s1.producer) == n,
        wrap_dist(s2.x_ring.spec_producer(), s1.x_ring.spec_producer()) == n,
{
    lemma_wrap_add_dist(s1.producer, n as u32);
}

/// The peek–write–commit round trip: reserving the first staged frame for
/// `len` bytes, writing `len` bytes, and committing one descriptor leaves a
/// kernel-visible descriptor at the committed slot that carries exactly
/// that length, names the staged frame, and whose frame's first `len`
/// bytes are the written bytes.
pub proof fn lemma_tx_peek_write_commit(
    s0: TxSocket,
    s1: TxSocket,
    s2: TxSocket,
    s3: TxSocket,
    len: int,
    data: Seq<u8>,
)
    requires
        s0.inv(),
        tx_peek_rel(s0, s1, 0, len, Ok(())),
        tx_write_rel(s1, s2, 0, 0, data, Ok(())),
        data.len() == len,
        tx_commit_rel(s2, s3, 1, Ok(())),
    ensures
        s3.x_ring.spec_producer() == wrap_add(s0.producer, 1),
        wrap_dist(s3.x_ring.spec_producer(), s0.producer) == 1,
        ({
            let d = s3.x_ring.slots@[slot_of(s0.producer as int, s0.x_len())];
            &&& d.len == len
            &&& d.addr == s0.staged()[0]
            &&& s3.umem@.subrange(d.addr - s0.base, d.addr - s0.base + len) == data
        }),
{
    lemma_wrap_add_dist(s0.producer, 1u32);
    let slot = slot_of(s0.producer as int, s0.x_len());
    let d = s3.x_ring.slots@[slot];
    assert(s1.staged()[0] == s0.staged()[0]);
    assert(d.addr == s0.staged()[0]);
    crate::peek::lemma_tx_frame_addr_valid(s0, 0);
    assert(s3.umem@.subrange(d.addr - s0.base, d.addr - s0.base + len) =~= data);
}

/// The fill-ring refill: an RX commit of `n` advances the fill producer by
/// exactly `n`, and the last `n` entries of the fill window are exactly the
/// frame offsets of the `n` consumed RX descriptors, in order.
pub proof fn lemma_rx_refill(pre: RxSocket, post: RxSocket, n: int)
    requires
        pre.inv(),
        0 <= n,
        rx_commit_rel(pre, post, n, Ok(())),
    ensures
        post.u_ring.spec_producer() == wrap_add(pre.producer, n as u32),
        wrap_dist(post.u_ring.spec_producer(), pre.u_ring.spec_producer()) == n,
        post.fillable().subrange(
            post.fillable().len() - n,
            post.fillable().len() as int,
        ) == pre.filled().subrange(0, n),
{
    lemma_wrap_add_dist(pre.producer, n as u32);
    assert(post.fillable().subrange(post.fillable().len() - n, post.fillable().len() as int)
        =~= pre.filled().subrange(0, n));
}

/// Kick elision on the transmit side: with NEED_WAKEUP clear in the TX
/// ring's flags, a kick issues no wakeup signal and changes nothing.
pub proof fn lemma_tx_kick_elision(pre: TxSocket, post: TxSocket, r: Result<(), RingError>)
    requires
        tx_kick_rel(pre, post, r),
        pre.x_ring.spec_flags() & RING_NEED_WAKEUP == 0,
    ensures
        r is Ok,
        post.wakeups == pre.wakeups,
        tx_same(post, pre),
{
}

/// Kick elision on the receive side.
pub proof fn lemma_rx_kick_elision(pre: RxSocket, post: RxSocket, r: Result<(), RingError>)
    requires
        rx_kick_rel(pre, post, r),
        pre.x_ring.spec_flags() & RING_NEED_WAKEUP == 0,
    ensures
        r is Ok,
        post.wakeups == pre.wakeups,
        rx_same(post, pre),
{
}

} // verus!
