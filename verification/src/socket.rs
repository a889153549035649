//! The two directional socket handles over a shared frame pool: `TxSocket`
//! (user produces packet descriptors, reclaims sent frames from a completion
//! ring) and `RxSocket` (kernel produces packet descriptors, user refills a
//! fill ring). Each carries the cached `producer`, `consumer` and `available`
//! indices that drive the seek / peek / commit protocol.
//!
//! The central invariant is frame conservation: the frame offsets visible in
//! the handle's windows — staged for the user, published to the peer, and
//! waiting in the reclaim ring — form, together, exactly the frame pool, each
//! frame appearing exactly once.

use crate::ring::{
    slot_of, spec_is_pow2, wrap_dist, check_pow2, Ring, XdpDesc, FRAME_SIZE, MAX_RING_LEN,
};
use vstd::arithmetic::div_mod::{
    lemma_div_is_ordered, lemma_div_multiples_vanish, lemma_fundamental_div_mod, lemma_small_mod,
};
use vstd::arithmetic::mul::{lemma_mul_inequality, lemma_mul_is_commutative};
use vstd::prelude::*;

verus! {

/// The error taxonomy of the ring protocol.
#[derive(Debug, Clone, Copy, PartialEq, Eq, Structural)]
pub enum RingError {
    /// A TX seek found no frame to reclaim: the ring is fully in flight.
    RingFull,
    /// An RX seek found no newly received packet.
    RingEmpty,
    /// A commit asked for more items than are available.
    NotAvailable,
    /// A peek index lies outside the available window.
    InvalidIndex,
    /// A TX peek length exceeds the frame size.
    InvalidLength,
    /// An operating-system error, by its errno value.
    Io(i32),
}

impl RingError {
    /// A short description of the error.
    pub fn message(&self) -> (r: &'static str)
    {
        match self {
            RingError::RingFull => "ring is full",
            RingError::RingEmpty => "ring is empty",
            RingError::NotAvailable => "not enough available frames",
            RingError::InvalidIndex => "invalid index for ring access",
            RingError::InvalidLength => "invalid length for ring access",
            RingError::Io(_) => "I/O error",
        }
    }
}

/// The sequence of frame offsets of a pool of `n` frames starting at byte
/// offset `base`: `base`, `base + FRAME_SIZE`, and so on.
pub open spec fn frame_seq(base: u64, n: int) -> Seq<u64> {
    Seq::new(n as nat, |i: int| (base + i * (FRAME_SIZE as int)) as u64)
}

/// A transmit handle: the user stages descriptors in the TX ring, publishes
/// them with `commit`, and reclaims sent frames from the completion ring
/// with `seek`.
pub struct TxSocket {
    /// The TX descriptor ring; the user is the producer.
    pub x_ring: Ring<XdpDesc>,
    /// The completion ring of sent frame offsets; the kernel is the producer.
    pub u_ring: Ring<u64>,
    /// How many frames are staged for the user to write and commit.
    pub available: u32,
    /// The cached TX producer index; mirrored in `x_ring.producer`.
    pub producer: u32,
    /// The cached completion consumer index; mirrored in `u_ring.consumer`.
    pub consumer: u32,
    /// The frame pool bytes this handle owns.
    pub umem: Vec<u8>,
    /// The byte offset of this handle's first frame within the UMEM.
    pub base: u64,
    /// How many wakeup signals `kick` has issued.
    pub wakeups: u64,
}

impl TxSocket {
    /// The ring length, which equals the number of frames of the pool.
    pub open spec fn x_len(self) -> int {
        self.x_ring.spec_len()
    }

    /// The frame offsets staged for the user: the `available` descriptors
    /// beginning at the cached producer index.
    pub open spec fn staged(self) -> Seq<u64> {
        Seq::new(
            self.available as nat,
            |i: int| self.x_ring.slots@[slot_of(self.producer + i, self.x_len())].addr,
        )
    }

    /// The frame offsets published to the kernel and not yet taken off the
    /// TX ring: between the kernel's consumer word and the producer.
    pub open spec fn committed(self) -> Seq<u64> {
        Seq::new(
            wrap_dist(self.producer, self.x_ring.spec_consumer()) as nat,
            |i: int|
                self.x_ring.slots@[slot_of(self.x_ring.spec_consumer() + i, self.x_len())].addr,
        )
    }

    /// The frame offsets the kernel has finished sending and the user has
    /// not yet reclaimed: the completion window.
    pub open spec fn completions(self) -> Seq<u64> {
        Seq::new(
            wrap_dist(self.u_ring.spec_producer(), self.consumer) as nat,
            |i: int| self.u_ring.slots@[slot_of(self.consumer + i, self.u_ring.spec_len())],
        )
    }

    /// All frame offsets of this handle's pool.
    pub open spec fn frames(self) -> Seq<u64> {
        frame_seq(self.base, self.x_len())
    }

    /// The handle's invariant: well-formed rings of equal length, cached
    /// indices mirrored in the published words, the three windows accounting
    /// for every frame exactly once, and a frame pool of matching size.
    pub open spec fn inv(self) -> bool {
        &&& self.x_ring.wf()
        &&& self.u_ring.wf()
        &&& self.u_ring.spec_len() == self.x_len()
        &&& self.x_ring.spec_producer() == self.producer
        &&& self.u_ring.spec_consumer() == self.consumer
        &&& self.available + wrap_dist(self.producer, self.x_ring.spec_consumer()) + wrap_dist(
            self.u_ring.spec_producer(),
            self.consumer,
        ) == self.x_len()
        &&& (self.staged() + self.committed() + self.completions()).to_multiset()
            == self.frames().to_multiset()
        &&& self.umem@.len() == self.x_len() * (FRAME_SIZE as int)
        &&& self.base + self.x_len() * (FRAME_SIZE as int) <= u64::MAX
    }

    /// The size in bytes of one frame of the pool.
    pub fn frame_size(&self) -> (r: usize)
        ensures
            r == FRAME_SIZE,
    {
        FRAME_SIZE
    }

    /// Builds a transmit handle over a fresh pool of `x_len` frames whose
    /// offsets start at frame number `base_frame`. All frames start staged:
    /// the TX ring is pre-seeded with one descriptor per frame, `available`
    /// is the full ring, and every published word is zero. Returns `None`
    /// when `x_len` is not a nonzero power of two within bounds, or the
    /// offsets would not fit in 64 bits.
    pub fn new(x_len: usize, base_frame: usize) -> (r: Option<TxSocket>)
        ensures
            r is Some <==> {
                &&& 0 < x_len <= MAX_RING_LEN
                &&& spec_is_pow2(x_len as int)
                &&& x_len * (FRAME_SIZE as int) <= usize::MAX
                &&& (base_frame + x_len) * (FRAME_SIZE as int) <= u64::MAX
            },
            r is Some ==> {
                &&& r->0.inv()
                &&& r->0.x_len() == x_len
                &&& r->0.base == base_frame * (FRAME_SIZE as int)
                &&& r->0.available == x_len
                &&& r->0.producer == 0
                &&& r->0.consumer == 0
                &&& r->0.x_ring.spec_consumer() == 0
                &&& r->0.u_ring.spec_producer() == 0
                &&& r->0.x_ring.spec_flags() == 0
                &&& r->0.u_ring.spec_flags() == 0
                &&& r->0.wakeups == 0
                &&& r->0.staged() == r->0.frames()
                &&& r->0.umem@ == Seq::new((x_len * FRAME_SIZE) as nat, |i: int| 0u8)
            },
    {
        if x_len == 0 || x_len > MAX_RING_LEN || !check_pow2(x_len) {
            return None;
        }
        if x_len > usize::MAX / FRAME_SIZE {
            proof {
                lemma_pool_size_bounds(x_len as int, usize::MAX as int);
            }
            return None;
        }
        let fs64: u64 = FRAME_SIZE as u64;
        if base_frame as u64 > u64::MAX / fs64 - x_len as u64 {
            proof {
                lemma_pool_size_bounds(base_frame + x_len, u64::MAX as int);
            }
            return None;
        }
        proof {
            lemma_pool_size_bounds(x_len as int, usize::MAX as int);
            lemma_pool_size_bounds(base_frame + x_len, u64::MAX as int);
            lemma_mul_inequality(base_frame as int, base_frame + x_len, FRAME_SIZE as int);
        }
        let mut x_ring: Ring<XdpDesc> = Ring::new(x_len, XdpDesc::new(0, 0, 0));
        x_ring.fill(base_frame as u64);
        let u_ring: Ring<u64> = Ring::new(x_len, 0u64);
        let umem: Vec<u8> = zero_bytes(x_len * FRAME_SIZE);
        let s = TxSocket {
            x_ring,
            u_ring,
            available: x_len as u32,
            producer: 0,
            consumer: 0,
            umem,
            base: (base_frame as u64) * (FRAME_SIZE as u64),
            wakeups: 0,
        };
        proof {
            assert forall|i: int| 0 <= i < x_len implies s.staged()[i] == s.frames()[i] by {
                lemma_small_mod(i as nat, x_len as nat);
                assert((base_frame as u64 + i) * (FRAME_SIZE as int) == base_frame * (
                FRAME_SIZE as int) + i * (FRAME_SIZE as int)) by (nonlinear_arith);
            }
            assert(s.staged() =~= s.frames());
            assert(s.committed() =~= Seq::<u64>::empty());
            assert(s.completions() =~= Seq::<u64>::empty());
            assert(s.staged() + s.committed() + s.completions() =~= s.frames());
        }
        Some(s)
    }
}

/// A receive handle: the kernel produces packet descriptors in the RX ring;
/// the user reads them after `seek` and returns the frames through the fill
/// ring with `commit`.
pub struct RxSocket {
    /// The RX descriptor ring; the kernel is the producer.
    pub x_ring: Ring<XdpDesc>,
    /// The fill ring of free frame offsets; the user is the producer.
    pub u_ring: Ring<u64>,
    /// How many received descriptors the last seek made readable.
    pub available: u32,
    /// The cached fill producer index; mirrored in `u_ring.producer`.
    pub producer: u32,
    /// The cached RX consumer index; mirrored in `x_ring.consumer`.
    pub consumer: u32,
    /// The frame pool bytes this handle owns.
    pub umem: Vec<u8>,
    /// The byte offset of this handle's first frame within the UMEM.
    pub base: u64,
    /// How many wakeup signals `kick` has issued.
    pub wakeups: u64,
}

impl RxSocket {
    /// The ring length, which equals the number of frames of the pool.
    pub open spec fn x_len(self) -> int {
        self.x_ring.spec_len()
    }

    /// The frame offsets of packets the kernel has delivered and the user
    /// has not yet returned: between the cached consumer and the kernel's
    /// producer word on the RX ring.
    pub open spec fn filled(self) -> Seq<u64> {
        Seq::new(
            wrap_dist(self.x_ring.spec_producer(), self.consumer) as nat,
            |i: int| self.x_ring.slots@[slot_of(self.consumer + i, self.x_len())].addr,
        )
    }

    /// The frame offsets waiting in the fill ring for the kernel to receive
    /// into: between the kernel's consumer word and the cached producer.
    pub open spec fn fillable(self) -> Seq<u64> {
        Seq::new(
            wrap_dist(self.producer, self.u_ring.spec_consumer()) as nat,
            |i: int|
                self.u_ring.slots@[slot_of(self.u_ring.spec_consumer() + i, self.u_ring.spec_len())],
        )
    }

    /// All frame offsets of this handle's pool.
    pub open spec fn frames(self) -> Seq<u64> {
        frame_seq(self.base, self.x_len())
    }

    /// The handle's invariant: well-formed rings of equal length, cached
    /// indices mirrored in the published words, the available window inside
    /// the delivered window with in-range descriptor lengths, and the two
    /// windows accounting for every frame exactly once.
    pub open spec fn inv(self) -> bool {
        &&& self.x_ring.wf()
        &&& self.u_ring.wf()
        &&& self.u_ring.spec_len() == self.x_len()
        &&& self.u_ring.spec_producer() == self.producer
        &&& self.x_ring.spec_consumer() == self.consumer
        &&& self.available <= wrap_dist(self.x_ring.spec_producer(), self.consumer)
        &&& wrap_dist(self.x_ring.spec_producer(), self.consumer) + wrap_dist(
            self.producer,
            self.u_ring.spec_consumer(),
        ) == self.x_len()
        &&& (self.filled() + self.fillable()).to_multiset() == self.frames().to_multiset()
        &&& forall|i: int|
            0 <= i < wrap_dist(self.x_ring.spec_producer(), self.consumer)
                ==> #[trigger] self.x_ring.slots@[slot_of(self.consumer + i, self.x_len())].len
                <= FRAME_SIZE
        &&& self.umem@.len() == self.x_len() * (FRAME_SIZE as int)
        &&& self.base + self.x_len() * (FRAME_SIZE as int) <= u64::MAX
    }

    /// The size in bytes of one frame of the pool.
    pub fn frame_size(&self) -> (r: usize)
        ensures
            r == FRAME_SIZE,
    {
        FRAME_SIZE
    }

    /// Builds a receive handle over a fresh pool of `x_len` frames whose
    /// offsets start at frame number `base_frame`. All frames start with the
    /// kernel: the fill ring is pre-seeded with every frame offset and its
    /// producer word published at `x_len`, so the kernel can receive at
    /// once. Returns `None` under the same conditions as the transmit
    /// constructor.
    pub fn new(x_len: usize, base_frame: usize) -> (r: Option<RxSocket>)
        ensures
            r is Some <==> {
                &&& 0 < x_len <= MAX_RING_LEN
                &&& spec_is_pow2(x_len as int)
                &&& x_len * (FRAME_SIZE as int) <= usize::MAX
                &&& (base_frame + x_len) * (FRAME_SIZE as int) <= u64::MAX
            },
            r is Some ==> {
                &&& r->0.inv()
                &&& r->0.x_len() == x_len
                &&& r->0.base == base_frame * (FRAME_SIZE as int)
                &&& r->0.available == 0
                &&& r->0.producer == x_len
                &&& r->0.consumer == 0
                &&& r->0.x_ring.spec_producer() == 0
                &&& r->0.u_ring.spec_consumer() == 0
                &&& r->0.x_ring.spec_flags() == 0
                &&& r->0.u_ring.spec_flags() == 0
                &&& r->0.wakeups == 0
                &&& r->0.fillable() == r->0.frames()
                &&& r->0.umem@ == Seq::new((x_len * FRAME_SIZE) as nat, |i: int| 0u8)
            },
    {
        if x_len == 0 || x_len > MAX_RING_LEN || !check_pow2(x_len) {
            return None;
        }
        if x_len > usize::MAX / FRAME_SIZE {
            proof {
                lemma_pool_size_bounds(x_len as int, usize::MAX as int);
            }
            return None;
        }
        let fs64: u64 = FRAME_SIZE as u64;
        if base_frame as u64 > u64::MAX / fs64 - x_len as u64 {
            proof {
                lemma_pool_size_bounds(base_frame + x_len, u64::MAX as int);
            }
            return None;
        }
        proof {
            lemma_pool_size_bounds(x_len as int, usize::MAX as int);
            lemma_pool_size_bounds(base_frame + x_len, u64::MAX as int);
            lemma_mul_inequality(base_frame as int, base_frame + x_len, FRAME_SIZE as int);
        }
        let x_ring: Ring<XdpDesc> = Ring::new(x_len, XdpDesc::new(0, 0, 0));
        let mut u_ring: Ring<u64> = Ring::new(x_len, 0u64);
        u_ring.fill(base_frame as u64);
        u_ring.update_producer(x_len as u32);
        let umem: Vec<u8> = zero_bytes(x_len * FRAME_SIZE);
        let s = RxSocket {
            x_ring,
            u_ring,
            available: 0,
            producer: x_len as u32,
            consumer: 0,
            umem,
            base: (base_frame as u64) * (FRAME_SIZE as u64),
            wakeups: 0,
        };
        proof {
            assert forall|i: int| 0 <= i < x_len implies s.fillable()[i] == s.frames()[i] by {
                lemma_small_mod(i as nat, x_len as nat);
                assert((base_frame as u64 + i) * (FRAME_SIZE as int) == base_frame * (
                FRAME_SIZE as int) + i * (FRAME_SIZE as int)) by (nonlinear_arith);
            }
            assert(s.fillable() =~= s.frames());
            assert(s.filled() =~= Seq::<u64>::empty());
            assert(s.filled() + s.fillable() =~= s.frames());
        }
        Some(s)
    }
}

/// Whether two transmit handles are in the same state.
pub open spec fn tx_same(a: TxSocket, b: TxSocket) -> bool {
    &&& crate::ring::ring_same(a.x_ring, b.x_ring)
    &&& crate::ring::ring_same(a.u_ring, b.u_ring)
    &&& a.available == b.available
    &&& a.producer == b.producer
    &&& a.consumer == b.consumer
    &&& a.umem@ == b.umem@
    &&& a.base == b.base
    &&& a.wakeups == b.wakeups
}

/// Whether two receive handles are in the same state.
pub open spec fn rx_same(a: RxSocket, b: RxSocket) -> bool {
    &&& crate::ring::ring_same(a.x_ring, b.x_ring)
    &&& crate::ring::ring_same(a.u_ring, b.u_ring)
    &&& a.available == b.available
    &&& a.producer == b.producer
    &&& a.consumer == b.consumer
    &&& a.umem@ == b.umem@
    &&& a.base == b.base
    &&& a.wakeups == b.wakeups
}

/// Fitting `n` frames under a byte capacity is the same question asked of
/// frame counts or of byte sizes.
proof fn lemma_pool_size_bounds(n: int, cap: int)
    requires
        0 <= n,
        0 < cap,
    ensures
        n <= cap / (FRAME_SIZE as int) <==> n * (FRAME_SIZE as int) <= cap,
{
    let fs = FRAME_SIZE as int;
    lemma_fundamental_div_mod(cap, fs);
    if n <= cap / fs {
        lemma_mul_inequality(n, cap / fs, fs);
    }
    if n * fs <= cap {
        lemma_mul_is_commutative(n, fs);
        lemma_div_multiples_vanish(n, fs);
        lemma_div_is_ordered(n * fs, cap, fs);
    }
}

/// Copies `data` into `v` starting at `start`; every other byte stays.
pub(crate) fn copy_into(v: &mut Vec<u8>, start: usize, data: &[u8])
    requires
        start + data@.len() <= old(v)@.len(),
    ensures
        final(v)@.len() == old(v)@.len(),
        forall|q: int| 0 <= q < data@.len() ==> final(v)@[start + q] == data@[q],
        forall|q: int|
            0 <= q < old(v)@.len() && !(start <= q < start + data@.len()) ==> final(v)@[q] == old(
                v,
            )@[q],
{
    let whole: usize = v.len();
    proof {
        assert(whole == old(v)@.len());
    }
    let mut q: usize = 0;
    while q < data.len()
        invariant
            q <= data@.len(),
            start + data@.len() <= old(v)@.len(),
            old(v)@.len() <= usize::MAX,
            v@.len() == old(v)@.len(),
            forall|t: int| 0 <= t < q ==> v@[start + t] == data@[t],
            forall|t: int|
                0 <= t < old(v)@.len() && !(start <= t < start + q) ==> v@[t] == old(v)@[t],
        decreases data@.len() - q,
    {
        let b = data[q];
        v.set(start + q, b);
        q = q + 1;
    }
}

/// Builds a zeroed byte vector of the given length.
fn zero_bytes(n: usize) -> (r: Vec<u8>)
    ensures
        r@ == Seq::new(n as nat, |i: int| 0u8),
{
    let mut v: Vec<u8> = Vec::new();
    let mut i: usize = 0;
    while i < n
        invariant
            i <= n,
            v@.len() == i,
            forall|j: int| 0 <= j < i ==> v@[j] == 0u8,
        decreases n - i,
    {
        v.push(0);
        i = i + 1;
    }
    proof {
        assert(v@ =~= Seq::new(n as nat, |i: int| 0u8));
    }
    v
}

} // verus!
