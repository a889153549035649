//! A verified model of the AF_XDP single-producer / single-consumer ring
//! protocol: a UMEM frame pool and the four rings (TX, RX, Fill, Completion)
//! with the seek / peek / commit / kick state machine over them.
//!
//! The library proves the frame-ownership discipline: every frame offset is,
//! at any instant, in exactly one place — staged for the user, published to
//! the peer, or waiting in the reclaim ring — and the published producer and
//! consumer indices only ever advance.
pub mod commit;
pub mod create;
pub mod hugepage;
pub mod kernel;
pub mod kick;
pub mod laws;
pub mod packet;
pub mod peek;
pub mod ring;
pub mod seek;
pub mod send;
pub mod socket;
pub mod veth;

pub use create::{new_pair, DeviceQueue, Direction, QueueId, XdpConfig};
pub use hugepage::HugePageInfo;
pub use ring::{Ring, RingType, XdpDesc, FRAME_COUNT, FRAME_SIZE};
pub use socket::{RingError, RxSocket, TxSocket};
