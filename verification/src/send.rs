//! Sending: the high-level composition over the TX protocol. `send` seeks
//! one descriptor, reserves it for the payload (and optional prepended
//! header), copies the bytes into the frame, and commits it. Each step is
//! exactly the corresponding protocol operation, so the contract chains
//! their relations.

use crate::commit::tx_commit_rel;
use crate::peek::{tx_peek_rel, tx_write_rel};
use crate::ring::FRAME_SIZE;
use crate::seek::tx_seek_rel;
use crate::socket::{RingError, TxSocket};
use vstd::prelude::*;

verus! {

/// What follows a successful seek inside `send`: either the combined
/// length is rejected by the peek, or the peek reserves the first staged
/// descriptor, the header and payload are written back to back into its
/// frame, and one descriptor is committed.
pub open spec fn tx_send_steps(
    mid: TxSocket,
    post: TxSocket,
    data: Seq<u8>,
    hdr: Seq<u8>,
    r: Result<(), RingError>,
) -> bool {
    let total = hdr.len() + data.len();
    ||| {
        &&& r == Err::<(), RingError>(RingError::InvalidLength)
        &&& tx_peek_rel(mid, post, 0, total as int, r)
    }
    ||| exists|m2: TxSocket, m3: TxSocket, m4: TxSocket|
        {
            &&& #[trigger] tx_peek_rel(mid, m2, 0, total as int, Ok(()))
            &&& #[trigger] tx_write_rel(m2, m3, 0, 0, hdr, Ok(()))
            &&& #[trigger] tx_write_rel(m3, m4, 0, hdr.len() as int, data, Ok(()))
            &&& tx_commit_rel(m4, post, 1, r)
        }
}

/// What `send` does: one descriptor is sought, reserved for
/// `header + data`, filled with the header then the payload, and
/// committed. A failed seek or an oversized packet surfaces its error with
/// nothing further done.
pub open spec fn tx_send_rel(
    pre: TxSocket,
    post: TxSocket,
    data: Seq<u8>,
    hdr: Seq<u8>,
    r: Result<(), RingError>,
) -> bool {
    ||| exists|e: RingError|
        {
            &&& #[trigger] tx_seek_rel(pre, post, 1, Err(e))
            &&& r == Err::<(), RingError>(e)
        }
    ||| exists|mid: TxSocket, v: usize|
        {
            &&& #[trigger] tx_seek_rel(pre, mid, 1, Ok(v))
            &&& tx_send_steps(mid, post, data, hdr, r)
        }
}

/// The header bytes of an optional header: empty when there is none.
pub open spec fn header_seq(header: Option<&[u8]>) -> Seq<u8> {
    match header {
        Some(h) => h@,
        None => Seq::empty(),
    }
}

impl TxSocket {
    /// Sends one packet: seeks a descriptor, reserves it for the combined
    /// length of `header` and `data`, copies the header then the payload
    /// into the frame, and commits the descriptor to the kernel. Fails
    /// with `RingFull` when no frame can be had and with `InvalidLength`
    /// when header and payload together exceed the frame size.
    pub fn send(&mut self, data: &[u8], header: Option<&[u8]>) -> (r: Result<(), RingError>)
        requires
            old(self).inv(),
        ensures
            final(self).inv(),
            tx_send_rel(*old(self), *final(self), data@, header_seq(header), r),
    {
        let hdr_len = match header {
            Some(h) => h.len(),
            None => 0,
        };
        match self.seek(1) {
            Err(e) => {
                proof {
                    assert(tx_seek_rel(*old(self), *self, 1, Err::<usize, RingError>(e)));
                }
                return Err(e);
            },
            Ok(v) => {
                let ghost mid = *self;
                proof {
                    assert(tx_seek_rel(*old(self), mid, 1, Ok::<usize, RingError>(v)));
                }
                if hdr_len > FRAME_SIZE || data.len() > FRAME_SIZE - hdr_len {
                    proof {
                        assert(tx_peek_rel(
                            mid,
                            *self,
                            0,
                            (header_seq(header).len() + data@.len()) as int,
                            Err::<(), RingError>(RingError::InvalidLength),
                        ));
                        assert(tx_send_steps(
                            mid,
                            *self,
                            data@,
                            header_seq(header),
                            Err::<(), RingError>(RingError::InvalidLength),
                        ));
                    }
                    return Err(RingError::InvalidLength);
                }
                let total = hdr_len + data.len();
                let p = self.peek(0, total);
                match p {
                    Err(e) => {
                        // A successful seek leaves at least one staged
                        // frame and the length was checked, so the peek
                        // cannot fail.
                        proof {
                            assert(false);
                        }
                        return Err(e);
                    },
                    Ok(()) => {},
                }
                let ghost m2 = *self;
                let w1 = match header {
                    Some(h) => self.write_frame(0, 0, h),
                    None => Ok(()),
                };
                match w1 {
                    Err(e) => {
                        proof {
                            assert(false);
                        }
                        return Err(e);
                    },
                    Ok(()) => {},
                }
                proof {
                    assert(tx_write_rel(m2, *self, 0, 0, header_seq(header), Ok(())));
                }
                let ghost m3 = *self;
                let w2 = self.write_frame(0, hdr_len, data);
                match w2 {
                    Err(e) => {
                        proof {
                            assert(false);
                        }
                        return Err(e);
                    },
                    Ok(()) => {},
                }
                let ghost m4 = *self;
                let c = self.commit(1);
                match c {
                    Err(e) => {
                        proof {
                            assert(false);
                        }
                        return Err(e);
                    },
                    Ok(()) => {},
                }
                proof {
                    assert(tx_send_steps(mid, *self, data@, header_seq(header), Ok(())));
                }
                Ok(())
            },
        }
    }
}

} // verus!
