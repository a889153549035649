use xdp_socket::create::{bind_flags, ring_sizes, DeviceQueue, Direction, XdpConfig};
use xdp_socket::hugepage::{
    aligned_size, apply_meminfo_line, huge_page_choice, huge_pages_usable, parse_decimal,
    parse_meminfo, HugePageInfo,
};
use xdp_socket::kick::{classify_wakeup_errno, WakeupOutcome};
use xdp_socket::packet::HdrWrite;
use xdp_socket::ring::{check_pow2, RingType, XdpDesc};
use xdp_socket::veth;
use xdp_socket::create::new_pair;
use xdp_socket::{RxSocket, TxSocket};

#[test]
fn xdp_desc_new() {
    let d = XdpDesc::new(4096, 64, 0);
    assert_eq!(d.addr, 4096);
    assert_eq!(d.len, 64);
    assert_eq!(d.options, 0);
}

#[test]
fn ring_type_numbers() {
    assert_eq!(RingType::Rx.as_index(), 2);
    assert_eq!(RingType::Tx.as_index(), 3);
    assert_eq!(RingType::Fill.as_index(), 5);
    assert_eq!(RingType::Completion.as_index(), 6);
    assert_eq!(RingType::Rx.as_offset(), 0);
    assert_eq!(RingType::Tx.as_offset(), 0x8000_0000);
    assert_eq!(RingType::Fill.as_offset(), 0x1_0000_0000);
    assert_eq!(RingType::Completion.as_offset(), 0x1_8000_0000);
}

#[test]
fn fill_and_completion_need_one_entry() {
    assert_eq!(RingType::Fill.effective_size(0), 1);
    assert_eq!(RingType::Completion.effective_size(0), 1);
    assert_eq!(RingType::Tx.effective_size(0), 0);
    assert_eq!(RingType::Fill.effective_size(64), 64);
}

#[test]
fn ring_sizes_by_direction() {
    assert_eq!(ring_sizes(Direction::Tx), (0, 4096));
    assert_eq!(ring_sizes(Direction::Rx), (4096, 0));
    assert_eq!(ring_sizes(Direction::Both), (2048, 2048));
}

#[test]
fn bind_flags_by_config() {
    let mut cfg = XdpConfig::default();
    assert_eq!(bind_flags(cfg), 8);
    cfg.zero_copy = Some(true);
    assert_eq!(bind_flags(cfg), 12);
    cfg.zero_copy = Some(false);
    cfg.need_wakeup = Some(false);
    assert_eq!(bind_flags(cfg), 2);
    cfg.zero_copy = None;
    cfg.need_wakeup = Some(true);
    assert_eq!(bind_flags(cfg), 8);
}

#[test]
fn device_queue_forms() {
    let q = DeviceQueue::form_ifindex(7);
    assert_eq!(q.if_index, 7);
    assert_eq!(q.queue_id.0, 0);
    let q = DeviceQueue::form_ifindex_and_queue(3, 9);
    assert_eq!(q.if_index, 3);
    assert_eq!(q.queue_id.0, 9);
}

#[test]
fn wakeup_errno_classes() {
    assert_eq!(classify_wakeup_errno(11), WakeupOutcome::Benign);
    assert_eq!(classify_wakeup_errno(16), WakeupOutcome::Benign);
    assert_eq!(classify_wakeup_errno(105), WakeupOutcome::Benign);
    assert_eq!(classify_wakeup_errno(100), WakeupOutcome::NetDown);
    assert_eq!(classify_wakeup_errno(1), WakeupOutcome::Fatal);
    assert_eq!(classify_wakeup_errno(0), WakeupOutcome::Fatal);
}

#[test]
fn pow2_check() {
    assert!(check_pow2(1));
    assert!(check_pow2(2));
    assert!(check_pow2(4096));
    assert!(!check_pow2(0));
    assert!(!check_pow2(3));
    assert!(!check_pow2(4097));
}

#[test]
fn decimal_parsing() {
    assert_eq!(parse_decimal(b"0"), Some(0));
    assert_eq!(parse_decimal(b"2048"), Some(2048));
    assert_eq!(parse_decimal(b"18446744073709551615"), Some(u64::MAX));
    assert_eq!(parse_decimal(b"18446744073709551616"), None);
    assert_eq!(parse_decimal(b""), None);
    assert_eq!(parse_decimal(b"12a"), None);
    assert_eq!(parse_decimal(b" 1"), None);
}

#[test]
fn meminfo_lines() {
    let mut info = HugePageInfo::default();
    assert!(apply_meminfo_line(&mut info, b"Hugepagesize:       2048 kB"));
    assert_eq!(info.size_kb, Some(2048));
    assert!(apply_meminfo_line(&mut info, b"HugePages_Total:      16"));
    assert_eq!(info.total, Some(16));
    assert!(apply_meminfo_line(&mut info, b"HugePages_Free:        3"));
    assert_eq!(info.free, Some(3));
    // Unknown keys and malformed lines are ignored.
    assert!(apply_meminfo_line(&mut info, b"MemTotal:       32000000 kB"));
    assert!(apply_meminfo_line(&mut info, b"no colon here"));
    assert!(apply_meminfo_line(&mut info, b"a:b:c"));
    assert_eq!(info.size_kb, Some(2048));
    // A huge-page key with an unreadable value fails the probe.
    let mut bad = HugePageInfo::default();
    assert!(!apply_meminfo_line(&mut bad, b"HugePages_Free: lots"));
    assert_eq!(bad, HugePageInfo::default());
}

#[test]
fn meminfo_whole_text() {
    let lines: Vec<Vec<u8>> = vec![
        b"MemTotal:       32854524 kB".to_vec(),
        b"HugePages_Total:       4".to_vec(),
        b"HugePages_Free:        2".to_vec(),
        b"Hugepagesize:       2048 kB".to_vec(),
    ];
    let info = parse_meminfo(&lines).unwrap();
    assert_eq!(info.size_kb, Some(2048));
    assert_eq!(info.total, Some(4));
    assert_eq!(info.free, Some(2));
    let broken: Vec<Vec<u8>> = vec![b"Hugepagesize: what kB".to_vec()];
    assert!(parse_meminfo(&broken).is_none());
}

#[test]
fn huge_page_decisions() {
    let good = HugePageInfo { size_kb: Some(2048), total: Some(4), free: Some(2) };
    let none_free = HugePageInfo { size_kb: Some(2048), total: Some(4), free: Some(0) };
    let wrong_size = HugePageInfo { size_kb: Some(1024), total: Some(4), free: Some(2) };
    assert!(huge_pages_usable(&good));
    assert!(!huge_pages_usable(&none_free));
    assert!(!huge_pages_usable(&wrong_size));
    assert!(huge_page_choice(Some(true), &wrong_size));
    assert!(!huge_page_choice(Some(false), &good));
    assert!(huge_page_choice(None, &good));
    assert!(!huge_page_choice(None, &none_free));
}

#[test]
fn size_alignment() {
    assert_eq!(aligned_size(5000, 4096), Some(8192));
    assert_eq!(aligned_size(8192, 4096), Some(8192));
    assert_eq!(aligned_size(1, 2 * 1024 * 1024), Some(2 * 1024 * 1024));
    assert_eq!(aligned_size(0, 4096), Some(0));
    assert_eq!(aligned_size(10, 0), None);
}

#[test]
fn veth_commands() {
    let cmds = veth::setup_pair("veth", "10.0.0.");
    let expect = vec![
        "ip link add veth0 type veth peer veth1",
        "ip addr add 10.0.0.100/24 dev veth0",
        "ip link set veth0 promisc on",
        "ip link set veth0 up",
        "ip addr add 10.0.0.101/24 dev veth1",
        "ip link set veth1 promisc on",
        "ip link set veth1 up",
    ];
    let got: Vec<&str> = cmds.iter().map(|s| s.as_str()).collect();
    assert_eq!(got, expect);
    assert_eq!(veth::teardown_pair("veth"), "ip link del veth0");
    assert_eq!(veth::up_if_dev("eth3"), "ip link set eth3 up");
    assert_eq!(
        veth::set_ipv4_addr("veth1", "192.168.7.2"),
        "ip addr add 192.168.7.2/24 dev veth1"
    );
    assert_eq!(
        veth::set_promisc_mode("veth1", false),
        "ip link set veth1 promisc off"
    );
}

#[test]
fn test_hdrwrite() {
    let data = b"Test data";
    let mut writer = HdrWrite::new();
    let written = writer.write(data);
    assert_eq!(written, data.len());
    assert_eq!(&writer.buf[..written], data);
    let data = b"aaaaaaaaaaaaaaaaaaaaaaaaaaaaaaaaaaaaaaaaaaTest data";
    let mut writer = HdrWrite::new();
    let written = writer.write(data);
    assert_eq!(written, data.len());
    assert_eq!(&writer.buf[..], &data[..42]);
}

#[test]
fn pair_construction_by_direction() {
    let (tx, rx) = new_pair(Direction::Tx, 8);
    assert!(tx.is_some() && rx.is_none());
    assert_eq!(tx.unwrap().x_ring.len(), 8);
    let (tx, rx) = new_pair(Direction::Rx, 8);
    assert!(tx.is_none() && rx.is_some());
    assert_eq!(rx.unwrap().x_ring.len(), 8);
}

#[test]
fn frame_size_getter() {
    let tx = TxSocket::new(4, 0).unwrap();
    let rx = RxSocket::new(4, 0).unwrap();
    assert_eq!(tx.frame_size(), 2048);
    assert_eq!(rx.frame_size(), 2048);
}
