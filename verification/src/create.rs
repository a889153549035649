//! Socket construction decisions: how the frame pool is split between the
//! directions, which flags the bind call carries, and the identification of
//! the device queue a socket binds to. The syscall sequence itself lives
//! with the caller; everything it feeds on is computed and specified here.

use crate::ring::{spec_is_pow2, FRAME_COUNT, FRAME_SIZE, MAX_RING_LEN};
use crate::socket::{RxSocket, TxSocket};
use vstd::arithmetic::power2::{lemma2_to64, pow2};
use vstd::prelude::*;

verus! {

/// The direction a socket serves.
#[derive(Debug, Clone, Copy, PartialEq, Eq, Structural)]
pub enum Direction {
    /// Transmit only.
    Tx,
    /// Receive only.
    Rx,
    /// Both directions, splitting the frame pool.
    Both,
}

/// Configuration of a socket: each policy may be forced on, forced off, or
/// left to its default.
#[derive(Debug, Clone, Copy, PartialEq, Eq, Structural)]
pub struct XdpConfig {
    /// Zero-copy mode: request it, force copy mode, or let the kernel
    /// decide.
    pub zero_copy: Option<bool>,
    /// Huge-page backing for the frame pool: force it, refuse it, or probe
    /// the system.
    pub huge_page: Option<bool>,
    /// Whether the bind carries the need-wakeup option; on when absent.
    pub need_wakeup: Option<bool>,
}

impl Default for XdpConfig {
    /// Every policy left to its default.
    fn default() -> (r: XdpConfig)
        ensures
            r.zero_copy is None,
            r.huge_page is None,
            r.need_wakeup is None,
    {
        XdpConfig { zero_copy: None, huge_page: None, need_wakeup: None }
    }
}

/// A queue number on a network device.
#[derive(Debug, Clone, Copy, PartialEq, Eq, Structural)]
pub struct QueueId(pub u8);

/// A network device queue: an interface index and a queue on it.
#[derive(Debug, Clone, Copy, PartialEq, Eq, Structural)]
pub struct DeviceQueue {
    /// The interface index.
    pub if_index: u32,
    /// The queue on that interface.
    pub queue_id: QueueId,
}

impl DeviceQueue {
    /// The first queue of the given interface.
    pub fn form_ifindex(if_index: u32) -> (r: DeviceQueue)
        ensures
            r == (DeviceQueue { if_index, queue_id: QueueId(0) }),
    {
        DeviceQueue { if_index, queue_id: QueueId(0) }
    }

    /// The given queue of the given interface.
    pub fn form_ifindex_and_queue(if_index: u32, queue_id: u8) -> (r: DeviceQueue)
        ensures
            r == (DeviceQueue { if_index, queue_id: QueueId(queue_id) }),
    {
        DeviceQueue { if_index, queue_id: QueueId(queue_id) }
    }
}

/// The bind flag requesting zero-copy mode.
pub const BIND_ZEROCOPY: u16 = 4;

/// The bind flag forcing copy mode.
pub const BIND_COPY: u16 = 2;

/// The bind flag enabling the need-wakeup protocol.
pub const BIND_USE_NEED_WAKEUP: u16 = 8;

/// The (RX, TX) ring sizes for a direction: a single direction takes the
/// whole frame pool, both directions split it evenly.
pub fn ring_sizes(direction: Direction) -> (r: (usize, usize))
    ensures
        (r.0 as int, r.1 as int) == (match direction {
            Direction::Tx => (0int, FRAME_COUNT as int),
            Direction::Rx => (FRAME_COUNT as int, 0int),
            Direction::Both => ((FRAME_COUNT / 2) as int, (FRAME_COUNT / 2) as int),
        }),
{
    match direction {
        Direction::Tx => (0, FRAME_COUNT),
        Direction::Rx => (FRAME_COUNT, 0),
        Direction::Both => (FRAME_COUNT / 2, FRAME_COUNT / 2),
    }
}

/// The flags a bind call carries for a configuration: the zero-copy policy
/// picks zero-copy, forced copy, or neither, and need-wakeup is included
/// unless explicitly disabled.
pub fn bind_flags(config: XdpConfig) -> (r: u16)
    ensures
        r == (match config.zero_copy {
            Some(true) => BIND_ZEROCOPY,
            Some(false) => BIND_COPY,
            None => 0u16,
        }) + (if config.need_wakeup is Some && !config.need_wakeup->0 {
            0u16
        } else {
            BIND_USE_NEED_WAKEUP
        }),
{
    let zc: u16 = match config.zero_copy {
        Some(true) => BIND_ZEROCOPY,
        Some(false) => BIND_COPY,
        None => 0,
    };
    let wk: u16 = match config.need_wakeup {
        Some(false) => 0,
        _ => BIND_USE_NEED_WAKEUP,
    };
    zc + wk
}

/// Builds the handle pair for a direction over a pool of `frames` frames:
/// the transmit side takes the pool's first frames, the receive side the
/// rest, exactly as `ring_sizes` splits them. `frames` must be a power of
/// two so each half is too; with `frames` out of range nothing is built.
pub fn new_pair(direction: Direction, frames: usize) -> (r: (Option<TxSocket>, Option<RxSocket>))
    ensures
        ({
            let tx_len = (match direction {
                Direction::Tx => frames as int,
                Direction::Rx => 0int,
                Direction::Both => frames as int / 2,
            });
            let rx_len = (match direction {
                Direction::Tx => 0int,
                Direction::Rx => frames as int,
                Direction::Both => frames as int / 2,
            });
            &&& (r.0 is Some ==> {
                &&& r.0->0.inv()
                &&& r.0->0.x_len() == tx_len
                &&& r.0->0.base == 0
                &&& r.0->0.available == tx_len
            })
            &&& (r.1 is Some ==> {
                &&& r.1->0.inv()
                &&& r.1->0.x_len() == rx_len
                &&& r.1->0.base == tx_len * (FRAME_SIZE as int)
                &&& r.1->0.fillable().len() == rx_len
            })
            &&& (2 <= frames <= MAX_RING_LEN && spec_is_pow2(frames as int) && frames * (
            FRAME_SIZE as int) <= usize::MAX && frames * (FRAME_SIZE as int) <= u64::MAX ==> {
                &&& (r.0 is Some <==> direction != Direction::Rx)
                &&& (r.1 is Some <==> direction != Direction::Tx)
            })
        }),
{
    match direction {
        Direction::Tx => (TxSocket::new(frames, 0), None),
        Direction::Rx => (None, RxSocket::new(frames, 0)),
        Direction::Both => {
            let half = frames / 2;
            proof {
                if 2 <= frames <= MAX_RING_LEN && spec_is_pow2(frames as int) {
                    lemma_half_pow2(frames);
                }
            }
            (TxSocket::new(half, 0), RxSocket::new(half, half))
        },
    }
}

/// Half of a power of two at least two is a power of two.
proof fn lemma_half_pow2(n: usize)
    requires
        2 <= n,
        spec_is_pow2(n as int),
    ensures
        spec_is_pow2(n as int / 2),
        n as int / 2 * 2 == n as int,
{
    let e = choose|e: nat| n as int == pow2(e);
    lemma2_to64();
    if e == 0 {
        assert(pow2(0) == 1);
    }
    vstd::arithmetic::power2::lemma_pow2_unfold(e);
    assert(n as int == 2 * pow2((e - 1) as nat));
    assert(n as int / 2 == pow2((e - 1) as nat));
}

} // verus!
