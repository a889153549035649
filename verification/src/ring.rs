//! The shared-memory ring model: a fixed, power-of-two array of slots plus
//! the producer, consumer and flags words that the two sides of the protocol
//! exchange. Indices are free-running 32-bit counters; the slot a counter
//! names is the counter reduced modulo the ring length.

use vstd::arithmetic::div_mod::{
    lemma_fundamental_div_mod, lemma_mod_equivalence, lemma_mod_multiples_basic,
    lemma_mod_multiples_vanish, lemma_small_mod,
};
use vstd::arithmetic::mul::{lemma_mul_inequality, lemma_mul_is_distributive_add};
use vstd::arithmetic::power::lemma_pow_strictly_increases;
use vstd::arithmetic::power2::{
    lemma_pow2, lemma_pow2_adds, lemma_pow2_pos, lemma_pow2_strictly_increases, lemma2_to64, pow2,
};
use vstd::bits::{lemma_u32_low_bits_mask_is_mod, low_bits_mask};
use vstd::prelude::*;

verus! {

/// The size in bytes of one UMEM frame.
pub const FRAME_SIZE: usize = 2048;

/// The default number of frames in the UMEM pool.
pub const FRAME_COUNT: usize = 4096;

/// The NEED_WAKEUP bit in a ring's flags word: when the kernel sets it, the
/// user must issue a wakeup call after publishing.
pub const RING_NEED_WAKEUP: u32 = 1;

/// The largest ring length the model accepts (lengths are powers of two).
pub const MAX_RING_LEN: usize = 0x0100_0000;

/// A packet descriptor as it appears in TX and RX rings: a byte offset into
/// the UMEM, a payload length, and an options word.
#[derive(Debug, Clone, Copy, PartialEq, Eq, Structural)]
pub struct XdpDesc {
    /// Byte offset of the packet data within the UMEM.
    pub addr: u64,
    /// Length of the packet data in bytes.
    pub len: u32,
    /// Per-descriptor options; unused by this protocol.
    pub options: u32,
}

impl XdpDesc {
    /// Builds a descriptor from its three fields.
    pub fn new(addr: u64, len: u32, options: u32) -> (r: XdpDesc)
        ensures
            r == (XdpDesc { addr, len, options }),
    {
        XdpDesc { addr, len, options }
    }
}

/// Whether `n` is a power of two.
pub open spec fn spec_is_pow2(n: int) -> bool {
    exists|e: nat| n == pow2(e)
}

/// Addition of free-running 32-bit ring indices: wraps modulo 2^32.
pub open spec fn wrap_add(a: u32, b: u32) -> u32 {
    if a + b > u32::MAX {
        (a + b - 0x1_0000_0000) as u32
    } else {
        (a + b) as u32
    }
}

/// How far index `a` is ahead of index `b`, read modulo 2^32.
pub open spec fn wrap_dist(a: u32, b: u32) -> int {
    if a >= b {
        a - b
    } else {
        a - b + 0x1_0000_0000
    }
}

/// The slot a free-running index (given as a mathematical integer) names in a
/// ring of length `len`.
pub open spec fn slot_of(j: int, len: int) -> int {
    j % len
}

/// A ring of `len` slots with the three shared words. One side produces:
/// it writes slots and then advances `producer`; the peer consumes and
/// advances `consumer`. In this in-process model the peer's words are plain
/// fields driven by the kernel-side transition functions.
pub struct Ring<T> {
    /// The slot array; its length is the ring length.
    pub slots: Vec<T>,
    /// The ring length: a nonzero power of two.
    pub len: usize,
    /// The wrap mask, `len - 1`.
    pub mask: u32,
    /// The shared producer word.
    pub producer: u32,
    /// The shared consumer word.
    pub consumer: u32,
    /// The shared flags word.
    pub flags: u32,
}

impl<T> Ring<T> {
    /// The slot array is full-length, and the length is a nonzero power of
    /// two matched by the wrap mask.
    pub open spec fn wf(self) -> bool {
        &&& self.slots@.len() == self.len
        &&& 0 < self.len <= MAX_RING_LEN
        &&& self.mask == self.len - 1
        &&& spec_is_pow2(self.len as int)
    }

    /// The slot contents, as a sequence.
    pub open spec fn slots_view(self) -> Seq<T> {
        self.slots@
    }

    /// The ring length as a mathematical integer.
    pub open spec fn spec_len(self) -> int {
        self.len as int
    }

    /// The wrap mask.
    pub open spec fn spec_mask(self) -> u32 {
        self.mask
    }

    /// The producer word.
    pub open spec fn spec_producer(self) -> u32 {
        self.producer
    }

    /// The consumer word.
    pub open spec fn spec_consumer(self) -> u32 {
        self.consumer
    }

    /// The flags word.
    pub open spec fn spec_flags(self) -> u32 {
        self.flags
    }

    /// The number of slots the ring holds.
    pub fn len(&self) -> (r: usize)
        ensures
            r == self.spec_len(),
    {
        self.len
    }

    /// The wrap mask, `len - 1`.
    pub fn mask(&self) -> (r: u32)
        ensures
            r == self.spec_mask(),
    {
        self.mask
    }

    /// Reads the producer word (an acquire load on real shared memory).
    pub fn producer(&self) -> (r: u32)
        ensures
            r == self.spec_producer(),
    {
        self.producer
    }

    /// Reads the consumer word (an acquire load on real shared memory).
    pub fn consumer(&self) -> (r: u32)
        ensures
            r == self.spec_consumer(),
    {
        self.consumer
    }

    /// Reads the flags word (an acquire load on real shared memory).
    pub fn flags(&self) -> (r: u32)
        ensures
            r == self.spec_flags(),
    {
        self.flags
    }

    /// Publishes a new producer index (a release store on real shared
    /// memory). Nothing else changes.
    pub fn update_producer(&mut self, value: u32)
        ensures
            final(self).producer == value,
            final(self).consumer == old(self).consumer,
            final(self).flags == old(self).flags,
            final(self).slots@ == old(self).slots@,
            final(self).len == old(self).len,
            final(self).mask == old(self).mask,
    {
        self.producer = value;
    }

    /// Publishes a new consumer index (a release store on real shared
    /// memory). Nothing else changes.
    pub fn update_consumer(&mut self, value: u32)
        ensures
            final(self).consumer == value,
            final(self).producer == old(self).producer,
            final(self).flags == old(self).flags,
            final(self).slots@ == old(self).slots@,
            final(self).len == old(self).len,
            final(self).mask == old(self).mask,
    {
        self.consumer = value;
    }

    /// Sets the flags word. Only the kernel side writes flags; the model
    /// exposes it so the peer can raise or clear NEED_WAKEUP.
    pub fn set_flags(&mut self, value: u32)
        ensures
            final(self).flags == value,
            final(self).producer == old(self).producer,
            final(self).consumer == old(self).consumer,
            final(self).slots@ == old(self).slots@,
            final(self).len == old(self).len,
            final(self).mask == old(self).mask,
    {
        self.flags = value;
    }

    /// Reduces a free-running index to the slot it names.
    pub fn slot_index(&self, index: u32) -> (r: usize)
        requires
            self.wf(),
        ensures
            r == slot_of(index as int, self.spec_len()),
            r < self.spec_len(),
    {
        proof {
            lemma_mask_is_mod(index, self.len as u32, self.mask);
        }
        (index & self.mask) as usize
    }
}

impl<T: Copy> Ring<T> {
    /// Returns a copy of the slot at `slot` (a position already reduced
    /// modulo the length).
    pub fn desc_at(&self, slot: usize) -> (r: T)
        requires
            slot < self.slots_view().len(),
        ensures
            r == self.slots_view()[slot as int],
    {
        self.slots[slot]
    }

    /// Overwrites the slot at `slot`. Nothing else changes.
    pub fn set_desc_at(&mut self, slot: usize, value: T)
        requires
            slot < old(self).slots_view().len(),
        ensures
            final(self).slots@ == old(self).slots@.update(slot as int, value),
            final(self).producer == old(self).producer,
            final(self).consumer == old(self).consumer,
            final(self).flags == old(self).flags,
            final(self).len == old(self).len,
            final(self).mask == old(self).mask,
    {
        self.slots.set(slot, value);
    }

    /// Builds a ring of `len` copies of `init` with all three words zero.
    /// `len` must be a nonzero power of two, shown by the caller through the
    /// mask identity.
    pub fn new(len: usize, init: T) -> (r: Ring<T>)
        requires
            0 < len <= MAX_RING_LEN,
            spec_is_pow2(len as int),
        ensures
            r.wf(),
            r.spec_len() == len,
            r.slots_view() == Seq::new(len as nat, |i: int| init),
            r.spec_producer() == 0,
            r.spec_consumer() == 0,
            r.spec_flags() == 0,
    {
        let mut slots: Vec<T> = Vec::new();
        let mut i: usize = 0;
        while i < len
            invariant
                i <= len,
                slots@.len() == i,
                forall|j: int| 0 <= j < i ==> slots@[j] == init,
            decreases len - i,
        {
            slots.push(init);
            i = i + 1;
        }
        let r = Ring {
            slots,
            len,
            mask: (len - 1) as u32,
            producer: 0,
            consumer: 0,
            flags: 0,
        };
        proof {
            assert(r.slots_view() =~= Seq::new(len as nat, |i: int| init));
        }
        r
    }
}

impl Ring<XdpDesc> {
    /// Pre-seeds every slot `i` with a zero-length descriptor for the frame
    /// numbered `start_frame + i`. The shared words do not change.
    pub fn fill(&mut self, start_frame: u64)
        requires
            old(self).wf(),
            (start_frame + old(self).spec_len()) * (FRAME_SIZE as int) <= u64::MAX,
        ensures
            final(self).wf(),
            final(self).len == old(self).len,
            final(self).mask == old(self).mask,
            final(self).producer == old(self).producer,
            final(self).consumer == old(self).consumer,
            final(self).flags == old(self).flags,
            final(self).slots@ == Seq::new(
                old(self).spec_len() as nat,
                |i: int|
                    XdpDesc {
                        addr: ((start_frame + i) * (FRAME_SIZE as int)) as u64,
                        len: 0,
                        options: 0,
                    },
            ),
    {
        let n = self.len;
        let mut i: usize = 0;
        while i < n
            invariant
                i <= n,
                self.wf(),
                self.len == n,
                self.mask == old(self).mask,
                self.producer == old(self).producer,
                self.consumer == old(self).consumer,
                self.flags == old(self).flags,
                (start_frame + n) * (FRAME_SIZE as int) <= u64::MAX,
                forall|j: int|
                    0 <= j < i ==> self.slots@[j] == (XdpDesc {
                        addr: ((start_frame + j) * (FRAME_SIZE as int)) as u64,
                        len: 0,
                        options: 0,
                    }),
                forall|j: int| i <= j < n ==> self.slots@[j] == old(self).slots@[j],
            decreases n - i,
        {
            proof {
                lemma_mul_inequality(start_frame + i + 1, start_frame + n, FRAME_SIZE as int);
                lemma_mul_is_distributive_add(FRAME_SIZE as int, start_frame + i, 1);
                assert((start_frame + i) * (FRAME_SIZE as int) + FRAME_SIZE <= u64::MAX);
            }
            let addr: u64 = (start_frame + i as u64) * (FRAME_SIZE as u64);
            self.set_desc_at(i, XdpDesc::new(addr, 0, 0));
            i = i + 1;
        }
        proof {
            assert(self.slots@ =~= Seq::new(
                old(self).spec_len() as nat,
                |i: int|
                    XdpDesc {
                        addr: ((start_frame + i) * (FRAME_SIZE as int)) as u64,
                        len: 0,
                        options: 0,
                    },
            ));
        }
    }
}

impl Ring<u64> {
    /// Pre-seeds every slot `i` with the offset of the frame numbered
    /// `start_frame + i`. The shared words do not change.
    pub fn fill(&mut self, start_frame: u64)
        requires
            old(self).wf(),
            (start_frame + old(self).spec_len()) * (FRAME_SIZE as int) <= u64::MAX,
        ensures
            final(self).wf(),
            final(self).len == old(self).len,
            final(self).mask == old(self).mask,
            final(self).producer == old(self).producer,
            final(self).consumer == old(self).consumer,
            final(self).flags == old(self).flags,
            final(self).slots@ == Seq::new(
                old(self).spec_len() as nat,
                |i: int| ((start_frame + i) * (FRAME_SIZE as int)) as u64,
            ),
    {
        let n = self.len;
        let mut i: usize = 0;
        while i < n
            invariant
                i <= n,
                self.wf(),
                self.len == n,
                self.mask == old(self).mask,
                self.producer == old(self).producer,
                self.consumer == old(self).consumer,
                self.flags == old(self).flags,
                (start_frame + n) * (FRAME_SIZE as int) <= u64::MAX,
                forall|j: int|
                    0 <= j < i ==> self.slots@[j] == ((start_frame + j) * (
                    FRAME_SIZE as int)) as u64,
                forall|j: int| i <= j < n ==> self.slots@[j] == old(self).slots@[j],
            decreases n - i,
        {
            proof {
                lemma_mul_inequality(start_frame + i + 1, start_frame + n, FRAME_SIZE as int);
                lemma_mul_is_distributive_add(FRAME_SIZE as int, start_frame + i, 1);
                assert((start_frame + i) * (FRAME_SIZE as int) + FRAME_SIZE <= u64::MAX);
            }
            let addr: u64 = (start_frame + i as u64) * (FRAME_SIZE as u64);
            self.set_desc_at(i, addr);
            i = i + 1;
        }
        proof {
            assert(self.slots@ =~= Seq::new(
                old(self).spec_len() as nat,
                |i: int| ((start_frame + i) * (FRAME_SIZE as int)) as u64,
            ));
        }
    }
}

/// Extracts the exponent of a power-of-two ring length and bounds it.
pub proof fn lemma_pow2_exponent(len: u32) -> (e: nat)
    requires
        0 < len <= 0x0100_0000,
        spec_is_pow2(len as int),
    ensures
        len == pow2(e),
        e <= 24,
{
    let e = choose|e: nat| len as int == pow2(e);
    lemma2_to64();
    if e > 24 {
        lemma_pow2(e);
        lemma_pow2(24);
        lemma_pow_strictly_increases(2, 24, e);
    }
    e
}

/// For a power-of-two ring length, masking equals reduction modulo the
/// length.
pub proof fn lemma_mask_is_mod(x: u32, len: u32, mask: u32)
    requires
        0 < len <= 0x0100_0000,
        mask == len - 1,
        spec_is_pow2(len as int),
    ensures
        x & mask == x % len,
        x % len < len,
{
    let e = lemma_pow2_exponent(len);
    lemma_pow2_pos(e);
    assert(mask == low_bits_mask(e) as u32);
    lemma_u32_low_bits_mask_is_mod(x, e);
}

/// A power-of-two ring length divides 2^32, so reducing a free-running index
/// modulo 2^32 first does not change which slot it names.
pub proof fn lemma_pow2_divides(len: u32)
    requires
        0 < len <= 0x0100_0000,
        spec_is_pow2(len as int),
    ensures
        0x1_0000_0000int % (len as int) == 0,
{
    let e = lemma_pow2_exponent(len);
    lemma_pow2_adds(e, (32 - e) as nat);
    lemma2_to64();
    lemma_mod_multiples_basic(pow2((32 - e) as nat) as int, len as int);
    assert((len as int) * (pow2((32 - e) as nat) as int) == (pow2((32 - e) as nat) as int) * (
    len as int)) by (nonlinear_arith);
}

/// Wrapping addition of ring indices lands on the same slot as exact
/// addition.
pub proof fn lemma_wrap_add_slot(a: u32, b: u32, len: u32)
    requires
        0 < len <= 0x0100_0000,
        spec_is_pow2(len as int),
    ensures
        slot_of(wrap_add(a, b) as int, len as int) == slot_of(a + b, len as int),
{
    lemma_pow2_divides(len);
    if a + b > u32::MAX {
        let q = 0x1_0000_0000int / (len as int);
        lemma_fundamental_div_mod(0x1_0000_0000int, len as int);
        assert(0x1_0000_0000int == q * (len as int));
        lemma_mod_multiples_vanish(-q, a + b, len as int);
        assert((len as int) * (-q) + (a + b) == a + b - q * (len as int)) by (nonlinear_arith);
        assert(wrap_add(a, b) as int == a + b - 0x1_0000_0000int);
    }
}

/// Whether two rings hold the same slots and words.
pub open spec fn ring_same<T>(a: Ring<T>, b: Ring<T>) -> bool {
    &&& a.slots@ == b.slots@
    &&& a.len == b.len
    &&& a.mask == b.mask
    &&& a.producer == b.producer
    &&& a.consumer == b.consumer
    &&& a.flags == b.flags
}

/// Advancing an index moves it exactly that far ahead, as long as the
/// distance stays below 2^32.
pub proof fn lemma_wrap_dist_add(p: u32, c: u32, n: u32)
    requires
        wrap_dist(p, c) + n <= 0xFFFF_FFFF,
    ensures
        wrap_dist(wrap_add(p, n), c) == wrap_dist(p, c) + n,
{
}

/// Advancing the trailing index shortens the distance by exactly that much,
/// as long as it does not overtake the leading index.
pub proof fn lemma_wrap_dist_sub(p: u32, c: u32, n: u32)
    requires
        n <= wrap_dist(p, c),
    ensures
        wrap_dist(p, wrap_add(c, n)) == wrap_dist(p, c) - n,
{
}

/// Shifting a free-running index by 2^32 does not change the slot it names.
pub proof fn lemma_slot_add_pow32(j: int, len: u32)
    requires
        0 < len <= 0x0100_0000,
        spec_is_pow2(len as int),
    ensures
        slot_of(j + 0x1_0000_0000, len as int) == slot_of(j, len as int),
{
    lemma_pow2_divides(len);
    let q = 0x1_0000_0000int / (len as int);
    lemma_fundamental_div_mod(0x1_0000_0000int, len as int);
    assert(0x1_0000_0000int == q * (len as int));
    lemma_mod_multiples_vanish(q, j, len as int);
    assert((len as int) * q + j == j + q * (len as int)) by (nonlinear_arith);
}

/// Two positions of one window land on distinct slots while the window is
/// no longer than the ring.
pub proof fn lemma_slot_distinct(s: int, t1: int, t2: int, len: int)
    requires
        0 < len,
        0 <= t1 < t2,
        t2 - t1 < len,
    ensures
        slot_of(s + t1, len) != slot_of(s + t2, len),
{
    if slot_of(s + t1, len) == slot_of(s + t2, len) {
        lemma_mod_equivalence(s + t2, s + t1, len);
        assert(((s + t2) - (s + t1)) % len == 0);
        lemma_small_mod((t2 - t1) as nat, len as nat);
        assert((s + t2) - (s + t1) == t2 - t1);
    }
}

/// Decides at run time whether `n` is a power of two.
pub fn check_pow2(n: usize) -> (r: bool)
    requires
        n <= MAX_RING_LEN,
    ensures
        r == spec_is_pow2(n as int),
{
    if n == 0 {
        proof {
            if spec_is_pow2(0) {
                let e = choose|e: nat| 0int == pow2(e);
                lemma_pow2_pos(e);
            }
        }
        return false;
    }
    let mut p: usize = 1;
    let ghost mut e: nat = 0;
    proof {
        lemma2_to64();
    }
    while p < n
        invariant
            n != 0,
            n <= MAX_RING_LEN,
            p == pow2(e),
            p < 2 * n,
            forall|j: nat| j < e ==> pow2(j) < n,
        decreases 2 * n - p,
    {
        proof {
            lemma_pow2_adds(e, 1);
            lemma2_to64();
        }
        p = p * 2;
        proof {
            e = e + 1;
            assert forall|j: nat| j < e implies pow2(j) < n by {
                if j + 1 == e {
                    assert(pow2(j) < n);
                }
            }
        }
    }
    if p == n {
        proof {
            assert(n as int == pow2(e));
        }
        true
    } else {
        proof {
            if spec_is_pow2(n as int) {
                let k = choose|k: nat| n as int == pow2(k);
                if k >= e {
                    if k > e {
                        lemma_pow2_strictly_increases(e, k);
                    }
                } else {
                    assert(pow2(k) < n);
                }
            }
        }
        false
    }
}

/// `wrap_dist` inverts `wrap_add`: advancing an index by `k` moves it `k`
/// ahead of where it was.
pub proof fn lemma_wrap_add_dist(a: u32, k: u32)
    ensures
        wrap_dist(wrap_add(a, k), a) == k,
{
}

/// The kinds of ring an AF_XDP socket maps: descriptor rings for packets in
/// flight and address rings for frame reclaim and refill.
#[derive(Debug, Clone, Copy, PartialEq, Eq, Structural)]
pub enum RingType {
    /// The transmit descriptor ring: the user produces.
    Tx,
    /// The receive descriptor ring: the kernel produces.
    Rx,
    /// The fill ring of frame addresses the kernel may receive into.
    Fill,
    /// The completion ring of frame addresses the kernel has sent.
    Completion,
}

impl RingType {
    /// The socket-option number that sets this ring's size, as the kernel's
    /// XDP socket interface defines it.
    pub fn as_index(&self) -> (r: i32)
        ensures
            r == (match self {
                RingType::Rx => 2int,
                RingType::Tx => 3int,
                RingType::Fill => 5int,
                RingType::Completion => 6int,
            }),
    {
        match self {
            RingType::Rx => 2,
            RingType::Tx => 3,
            RingType::Fill => 5,
            RingType::Completion => 6,
        }
    }

    /// The page offset at which this ring is memory-mapped, as the kernel's
    /// XDP socket interface defines it.
    pub fn as_offset(&self) -> (r: u64)
        ensures
            r == (match self {
                RingType::Rx => 0int,
                RingType::Tx => 0x8000_0000int,
                RingType::Fill => 0x1_0000_0000int,
                RingType::Completion => 0x1_8000_0000int,
            }),
    {
        match self {
            RingType::Rx => 0,
            RingType::Tx => 0x8000_0000,
            RingType::Fill => 0x1_0000_0000,
            RingType::Completion => 0x1_8000_0000,
        }
    }

    /// The descriptor count actually submitted when a ring is sized: the
    /// Fill and Completion rings must hold at least one entry even when the
    /// direction leaves them unused.
    pub fn effective_size(&self, requested: usize) -> (r: usize)
        ensures
            r == (if requested == 0 && (self == RingType::Fill || self == RingType::Completion) {
                1int
            } else {
                requested as int
            }),
    {
        if requested == 0 && (*self == RingType::Fill || *self == RingType::Completion) {
            1
        } else {
            requested
        }
    }
}

} // verus!
