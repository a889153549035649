use xdp_socket::socket::RingError;
use xdp_socket::socket::{RxSocket, TxSocket};

#[test]
fn tx_send_then_reclaim() {
    let mut tx = TxSocket::new(8, 0).unwrap();
    assert_eq!(tx.seek(8).unwrap(), 8);
    tx.commit(8).unwrap();
    // The kernel sends all eight frames and completes them at once.
    tx.kernel_complete(8);
    assert_eq!(tx.seek(1).unwrap(), 1);
    assert_eq!(tx.available, 8);
    assert_eq!(tx.consumer, 8);
}

#[test]
fn tx_ring_full() {
    let mut tx = TxSocket::new(4, 0).unwrap();
    assert_eq!(tx.seek(4).unwrap(), 4);
    tx.commit(4).unwrap();
    // No kernel progress: nothing to reclaim.
    assert!(matches!(tx.seek(1), Err(RingError::RingFull)));
}

#[test]
fn rx_empty_then_arrive() {
    let mut rx = RxSocket::new(8, 0).unwrap();
    assert!(matches!(rx.seek(1), Err(RingError::RingEmpty)));
    assert!(rx.kernel_deliver(b"ABC"));
    assert!(rx.kernel_deliver(b"DE"));
    assert!(rx.kernel_deliver(b"F"));
    assert_eq!(rx.seek(3).unwrap(), 3);
    assert_eq!(rx.peek(0).unwrap(), b"ABC".to_vec());
    assert_eq!(rx.peek(1).unwrap(), b"DE".to_vec());
    assert_eq!(rx.peek(2).unwrap(), b"F".to_vec());
}

#[test]
fn rx_refill() {
    let mut rx = RxSocket::new(8, 0).unwrap();
    assert!(matches!(rx.seek(1), Err(RingError::RingEmpty)));
    assert!(rx.kernel_deliver(b"ABC"));
    assert!(rx.kernel_deliver(b"DE"));
    assert!(rx.kernel_deliver(b"F"));
    assert_eq!(rx.seek(3).unwrap(), 3);
    let consumed: Vec<u64> = (0..3).map(|i| rx.x_ring.desc_at(i).addr).collect();
    rx.commit(3).unwrap();
    // The fill producer started at the ring length and advanced by three.
    assert_eq!(rx.u_ring.producer(), 8 + 3);
    // The last three fill slots hold the addresses just consumed.
    for i in 0..3 {
        let slot = rx.u_ring.slot_index(8 + i as u32);
        assert_eq!(rx.u_ring.desc_at(slot), consumed[i]);
    }
}

#[test]
fn tx_peek_length_validation() {
    let mut tx = TxSocket::new(8, 0).unwrap();
    assert_eq!(tx.seek(1).unwrap(), 8);
    let avail = tx.available;
    let prod = tx.x_ring.producer();
    let desc = tx.x_ring.desc_at(0);
    assert!(matches!(tx.peek(0, 2049), Err(RingError::InvalidLength)));
    // A failed peek leaves the ring exactly as it was.
    assert_eq!(tx.available, avail);
    assert_eq!(tx.x_ring.producer(), prod);
    let after = tx.x_ring.desc_at(0);
    assert_eq!(after.addr, desc.addr);
    assert_eq!(after.len, desc.len);
    assert_eq!(after.options, desc.options);
}

#[test]
fn tx_send_composed() {
    let mut tx = TxSocket::new(8, 0).unwrap();
    tx.send(&[0x01, 0x02, 0x03], None).unwrap();
    let desc = tx.x_ring.desc_at(0);
    assert_eq!(desc.len, 3);
    let start = desc.addr as usize;
    assert_eq!(&tx.umem[start..start + 3], &[0x01, 0x02, 0x03]);
    assert_eq!(tx.x_ring.producer(), 1);
}

#[test]
fn tx_send_with_header() {
    let mut tx = TxSocket::new(8, 0).unwrap();
    tx.send(b"payload", Some(b"hdr")).unwrap();
    let desc = tx.x_ring.desc_at(0);
    assert_eq!(desc.len, 10);
    let start = desc.addr as usize;
    assert_eq!(&tx.umem[start..start + 10], b"hdrpayload");
}

#[test]
fn tx_send_errors() {
    let mut tx = TxSocket::new(1, 0).unwrap();
    tx.send(&[9], None).unwrap();
    // The only frame is in flight and nothing has completed.
    assert!(matches!(tx.send(&[7], None), Err(RingError::RingFull)));
    let mut tx2 = TxSocket::new(8, 0).unwrap();
    let big = vec![0u8; 2049];
    assert!(matches!(tx2.send(&big, None), Err(RingError::InvalidLength)));
}

#[test]
fn tx_kick_counts_only_when_asked() {
    let mut tx = TxSocket::new(8, 0).unwrap();
    assert!(!tx.kick_needed());
    tx.kick().unwrap();
    // NEED_WAKEUP clear: no signaling call happened.
    assert_eq!(tx.wakeups, 0);
    tx.x_ring.set_flags(1);
    assert!(tx.kick_needed());
    tx.kick().unwrap();
    assert_eq!(tx.wakeups, 1);
    tx.x_ring.set_flags(0);
    tx.kick().unwrap();
    assert_eq!(tx.wakeups, 1);
}

#[test]
fn rx_kick_counts_only_when_asked() {
    let mut rx = RxSocket::new(8, 0).unwrap();
    rx.kick().unwrap();
    assert_eq!(rx.wakeups, 0);
    rx.x_ring.set_flags(1);
    rx.kick().unwrap();
    assert_eq!(rx.wakeups, 1);
}

#[test]
fn tx_commit_and_kick() {
    let mut tx = TxSocket::new(8, 0).unwrap();
    tx.x_ring.set_flags(1);
    tx.commit_and_kick(2).unwrap();
    assert_eq!(tx.x_ring.producer(), 2);
    assert_eq!(tx.wakeups, 1);
    assert!(matches!(tx.commit_and_kick(7), Err(RingError::NotAvailable)));
    assert_eq!(tx.wakeups, 1);
}

#[test]
fn tx_commit_not_available() {
    let mut tx = TxSocket::new(4, 0).unwrap();
    assert!(matches!(tx.commit(5), Err(RingError::NotAvailable)));
    assert_eq!(tx.x_ring.producer(), 0);
}

#[test]
fn tx_peek_invalid_index() {
    let mut tx = TxSocket::new(8, 0).unwrap();
    assert!(matches!(tx.peek(8, 100), Err(RingError::InvalidIndex)));
}

#[test]
fn tx_write_frame_bounds() {
    let mut tx = TxSocket::new(8, 0).unwrap();
    assert!(matches!(
        tx.write_frame(9, 0, &[1]),
        Err(RingError::InvalidIndex)
    ));
    let big = vec![0u8; 2048];
    assert!(matches!(
        tx.write_frame(0, 1, &big),
        Err(RingError::InvalidLength)
    ));
    tx.write_frame(0, 2047, &[0xAA]).unwrap();
    assert_eq!(tx.umem[2047], 0xAA);
}

#[test]
fn rx_peek_invalid_index() {
    let mut rx = RxSocket::new(8, 0).unwrap();
    assert!(matches!(rx.peek(0), Err(RingError::InvalidIndex)));
}

#[test]
fn rx_commit_not_available() {
    let mut rx = RxSocket::new(8, 0).unwrap();
    assert!(matches!(rx.commit(1), Err(RingError::NotAvailable)));
}

#[test]
fn rx_partial_seek() {
    let mut rx = RxSocket::new(8, 0).unwrap();
    assert!(rx.kernel_deliver(b"one"));
    assert!(rx.kernel_deliver(b"two"));
    assert_eq!(rx.seek(5).unwrap(), 2);
    assert_eq!(rx.available, 2);
}

#[test]
fn tx_seek_idempotent_when_unanswered() {
    let mut tx = TxSocket::new(8, 0).unwrap();
    // Nothing in flight: repeated seeks agree and change nothing.
    let first = tx.seek(3).unwrap();
    let second = tx.seek(3).unwrap();
    assert_eq!(first, second);
    tx.commit(8).unwrap();
    assert!(matches!(tx.seek(2), Err(RingError::RingFull)));
    assert!(matches!(tx.seek(2), Err(RingError::RingFull)));
}

#[test]
fn published_indices_never_regress() {
    let mut tx = TxSocket::new(4, 0).unwrap();
    let mut last_prod = tx.x_ring.producer();
    let mut last_cons = tx.u_ring.consumer();
    for round in 0..6 {
        let n = 1 + (round % 3);
        if tx.seek(n).is_ok() && tx.available as usize >= n {
            tx.commit(n).unwrap();
        }
        tx.kernel_complete(2.min((tx.producer.wrapping_sub(tx.x_ring.consumer())) as usize));
        let p = tx.x_ring.producer();
        let c = tx.u_ring.consumer();
        assert!(p.wrapping_sub(last_prod) <= 4);
        assert!(c.wrapping_sub(last_cons) <= 4);
        last_prod = p;
        last_cons = c;
    }
}

#[test]
fn frame_conservation_over_a_run() {
    let mut tx = TxSocket::new(4, 0).unwrap();
    for _ in 0..5 {
        let got = tx.seek(2);
        if got.is_ok() && tx.available >= 2 {
            tx.peek(0, 10).unwrap();
            tx.commit(2).unwrap();
        }
        let in_flight = tx.producer.wrapping_sub(tx.x_ring.consumer()) as usize;
        tx.kernel_complete(in_flight.min(2));
        // Every frame is exactly one of: staged, published, completed.
        let staged = tx.available as u32;
        let committed = tx.producer.wrapping_sub(tx.x_ring.consumer());
        let completed = tx.u_ring.producer().wrapping_sub(tx.consumer);
        assert_eq!(staged + committed + completed, 4);
    }
}

#[test]
fn both_directions_split_the_pool() {
    let (tx, rx) = match xdp_socket::create::new_pair(xdp_socket::create::Direction::Both, 8) {
        (Some(tx), Some(rx)) => (tx, rx),
        _ => panic!("pair not built"),
    };
    assert_eq!(tx.x_ring.len(), 4);
    assert_eq!(rx.x_ring.len(), 4);
    assert_eq!(tx.base, 0);
    // The receive side's frames start right after the transmit side's.
    assert_eq!(rx.base, 4 * 2048);
    assert_eq!(rx.u_ring.desc_at(0), 4 * 2048);
}

#[test]
fn socket_construction_rejects_bad_lengths() {
    assert!(TxSocket::new(0, 0).is_none());
    assert!(TxSocket::new(3, 0).is_none());
    assert!(RxSocket::new(6, 0).is_none());
    assert!(TxSocket::new(8, 0).is_some());
    assert!(RxSocket::new(1, 0).is_some());
}

#[test]
fn tx_seek_and_peek() {
    let mut tx = TxSocket::new(4, 0).unwrap();
    tx.seek_and_peek(5).unwrap();
    assert_eq!(tx.x_ring.desc_at(0).len, 5);
    tx.commit(4).unwrap();
    assert!(matches!(tx.seek_and_peek(1), Err(RingError::RingFull)));
}

#[test]
fn rx_seek_and_peek() {
    let mut rx = RxSocket::new(4, 0).unwrap();
    assert!(matches!(rx.seek_and_peek(), Err(RingError::RingEmpty)));
    assert!(rx.kernel_deliver(b"hello"));
    assert_eq!(rx.seek_and_peek().unwrap(), b"hello".to_vec());
}

#[test]
fn error_messages() {
    assert_eq!(RingError::RingFull.message(), "ring is full");
    assert_eq!(RingError::RingEmpty.message(), "ring is empty");
    assert_eq!(RingError::NotAvailable.message(), "not enough available frames");
    assert_eq!(RingError::InvalidIndex.message(), "invalid index for ring access");
    assert_eq!(RingError::InvalidLength.message(), "invalid length for ring access");
    assert_eq!(RingError::Io(5).message(), "I/O error");
}

#[test]
fn tx_partial_reclaim() {
    let mut tx = TxSocket::new(4, 0).unwrap();
    tx.commit(4).unwrap();
    tx.kernel_complete(2);
    // Only two frames completed: the seek drains what there is.
    assert_eq!(tx.seek(4).unwrap(), 2);
    assert_eq!(tx.available, 2);
}

#[test]
fn rx_deliver_stops_when_fill_is_empty() {
    let mut rx = RxSocket::new(2, 0).unwrap();
    assert!(rx.kernel_deliver(b"a"));
    assert!(rx.kernel_deliver(b"b"));
    // The fill ring is drained: nothing left to receive into.
    assert!(!rx.kernel_deliver(b"c"));
    assert_eq!(rx.seek(2).unwrap(), 2);
    rx.commit(2).unwrap();
    // The frames are back: delivery works again.
    assert!(rx.kernel_deliver(b"d"));
}
