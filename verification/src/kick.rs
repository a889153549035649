//! Kicking: waking the kernel after publishing. The kernel raises the
//! NEED_WAKEUP bit in the primary ring's flags word when it wants a wakeup
//! signal; with the bit clear, `kick` does nothing at all. The model counts
//! issued signals in the handle's `wakeups` field; the disposition of the
//! errno a real signaling call may return is classified here too.

use crate::ring::RING_NEED_WAKEUP;
use crate::socket::{rx_same, tx_same, RingError, RxSocket, TxSocket};
use crate::commit::{rx_commit_rel, tx_commit_rel};
use vstd::prelude::*;

verus! {

/// The benign back-pressure errno values a wakeup signal may return:
/// EAGAIN, EBUSY and ENOBUFS.
pub const ERR_AGAIN: i32 = 11;

/// EBUSY.
pub const ERR_BUSY: i32 = 16;

/// ENOBUFS.
pub const ERR_NOBUFS: i32 = 105;

/// ENETDOWN: the interface is down; the signal is logged and swallowed.
pub const ERR_NETDOWN: i32 = 100;

/// What to do with the errno of a failed wakeup signal.
#[derive(Debug, Clone, Copy, PartialEq, Eq, Structural)]
pub enum WakeupOutcome {
    /// Transient back pressure: treat the kick as having succeeded.
    Benign,
    /// The network interface is down: log and swallow.
    NetDown,
    /// Any other error: propagate it to the caller.
    Fatal,
}

/// Classifies the errno of a failed wakeup signal: EAGAIN, EBUSY and
/// ENOBUFS are benign back pressure, ENETDOWN is logged and swallowed, and
/// everything else propagates.
pub fn classify_wakeup_errno(errno: i32) -> (r: WakeupOutcome)
    ensures
        r == (if errno == ERR_AGAIN || errno == ERR_BUSY || errno == ERR_NOBUFS {
            WakeupOutcome::Benign
        } else if errno == ERR_NETDOWN {
            WakeupOutcome::NetDown
        } else {
            WakeupOutcome::Fatal
        }),
{
    if errno == ERR_AGAIN || errno == ERR_BUSY || errno == ERR_NOBUFS {
        WakeupOutcome::Benign
    } else if errno == ERR_NETDOWN {
        WakeupOutcome::NetDown
    } else {
        WakeupOutcome::Fatal
    }
}

/// A wakeup counter after one more signal: wraps at the top.
pub open spec fn bump(w: u64) -> u64 {
    if w == u64::MAX {
        0
    } else {
        (w + 1) as u64
    }
}

/// What a TX kick does: with NEED_WAKEUP set in the TX ring's flags it
/// issues exactly one wakeup signal (counted in `wakeups`); with the bit
/// clear it does nothing at all. It always succeeds and touches no ring.
pub open spec fn tx_kick_rel(pre: TxSocket, post: TxSocket, r: Result<(), RingError>) -> bool {
    &&& r == Ok::<(), RingError>(())
    &&& if pre.x_ring.spec_flags() & RING_NEED_WAKEUP != 0 {
        &&& post.wakeups == bump(pre.wakeups)
        &&& tx_same(TxSocket { wakeups: pre.wakeups, ..post }, pre)
    } else {
        tx_same(post, pre)
    }
}

/// What an RX kick does, mirroring the TX side on the RX ring's flags.
pub open spec fn rx_kick_rel(pre: RxSocket, post: RxSocket, r: Result<(), RingError>) -> bool {
    &&& r == Ok::<(), RingError>(())
    &&& if pre.x_ring.spec_flags() & RING_NEED_WAKEUP != 0 {
        &&& post.wakeups == bump(pre.wakeups)
        &&& rx_same(RxSocket { wakeups: pre.wakeups, ..post }, pre)
    } else {
        rx_same(post, pre)
    }
}

impl TxSocket {
    /// Whether the kernel currently asks for a wakeup signal on the TX
    /// ring.
    pub fn kick_needed(&self) -> (r: bool)
        ensures
            r == (self.x_ring.spec_flags() & RING_NEED_WAKEUP != 0),
    {
        self.x_ring.flags() & RING_NEED_WAKEUP != 0
    }

    /// Wakes the kernel when it asked for it: issues one wakeup signal iff
    /// NEED_WAKEUP is set, and otherwise does nothing. Never fails and
    /// never touches a ring.
    pub fn kick(&mut self) -> (r: Result<(), RingError>)
        requires
            old(self).inv(),
        ensures
            final(self).inv(),
            tx_kick_rel(*old(self), *final(self), r),
    {
        if self.x_ring.flags() & RING_NEED_WAKEUP != 0 {
            self.wakeups = if self.wakeups == u64::MAX {
                0
            } else {
                self.wakeups + 1
            };
        }
        Ok(())
    }

    /// Commits `n` descriptors and then kicks. The commit behaves exactly
    /// as `commit`; the kick runs only when the commit succeeded.
    pub fn commit_and_kick(&mut self, n: usize) -> (r: Result<(), RingError>)
        requires
            old(self).inv(),
        ensures
            final(self).inv(),
            exists|mid: TxSocket, c: Result<(), RingError>|
                {
                    &&& #[trigger] tx_commit_rel(*old(self), mid, n as int, c)
                    &&& match c {
                        Ok(_) => tx_kick_rel(mid, *final(self), r),
                        Err(e) => r == Err::<(), RingError>(e) && tx_same(*final(self), mid),
                    }
                },
    {
        let c = self.commit(n);
        match c {
            Ok(()) => {
                let ghost mid = *self;
                let r = self.kick();
                proof {
                    assert(tx_commit_rel(*old(self), mid, n as int, Ok(())));
                }
                r
            },
            Err(e) => {
                proof {
                    assert(tx_commit_rel(*old(self), *self, n as int, Err(e)));
                }
                Err(e)
            },
        }
    }
}

impl RxSocket {
    /// Whether the kernel currently asks for a wakeup signal on the RX
    /// ring.
    pub fn kick_needed(&self) -> (r: bool)
        ensures
            r == (self.x_ring.spec_flags() & RING_NEED_WAKEUP != 0),
    {
        self.x_ring.flags() & RING_NEED_WAKEUP != 0
    }

    /// Wakes the kernel when it asked for it, as on the TX side.
    pub fn kick(&mut self) -> (r: Result<(), RingError>)
        requires
            old(self).inv(),
        ensures
            final(self).inv(),
            rx_kick_rel(*old(self), *final(self), r),
    {
        if self.x_ring.flags() & RING_NEED_WAKEUP != 0 {
            self.wakeups = if self.wakeups == u64::MAX {
                0
            } else {
                self.wakeups + 1
            };
        }
        Ok(())
    }

    /// Commits `n` descriptors and then kicks, as on the TX side.
    pub fn commit_and_kick(&mut self, n: usize) -> (r: Result<(), RingError>)
        requires
            old(self).inv(),
        ensures
            final(self).inv(),
            exists|mid: RxSocket, c: Result<(), RingError>|
                {
                    &&& #[trigger] rx_commit_rel(*old(self), mid, n as int, c)
                    &&& match c {
                        Ok(_) => rx_kick_rel(mid, *final(self), r),
                        Err(e) => r == Err::<(), RingError>(e) && rx_same(*final(self), mid),
                    }
                },
    {
        let c = self.commit(n);
        match c {
            Ok(()) => {
                let ghost mid = *self;
                let r = self.kick();
                proof {
                    assert(rx_commit_rel(*old(self), mid, n as int, Ok(())));
                }
                r
            },
            Err(e) => {
                proof {
                    assert(rx_commit_rel(*old(self), *self, n as int, Err(e)));
                }
                Err(e)
            },
        }
    }
}

} // verus!
