use seqnet::ack_record::AckRecord;
use seqnet::addr::SocketAddr;
use seqnet::connection::Connection;
use seqnet::packet::{Packet, RawPacket};
use seqnet::sent_window::SentWindow;
use seqnet::sequence::{distance, is_newer};
use seqnet::socket_state::SocketState;

static TEST_HOST_IP: &'static str = "127.0.0.1";
static TEST_BAD_HOST_IP: &'static str = "800.0.0.1";
static TEST_PORT: &'static str = "20000";

fn test_addr() -> SocketAddr {
    SocketAddr::new(127, 0, 0, 1, 20000)
}

fn raw(seq: u16, ack_seq: u16, ack_field: u32, payload: Vec<u8>) -> RawPacket {
    RawPacket { seq, ack_seq, ack_field, payload }
}

#[test]
fn test_create_connection() {
    let addr = SocketAddr::parse(&format!("{}:{}", TEST_HOST_IP, TEST_PORT));
    assert!(addr.is_some());
    let _new_conn = Connection::new(addr.unwrap());
}

#[test]
fn test_invalid_addr_fails() {
    let addr = SocketAddr::parse(&format!("{}:{}", TEST_BAD_HOST_IP, TEST_PORT));
    assert!(addr.is_none());
}

#[test]
fn test_poll_for_invalid_clients() {
    let socket_state = SocketState::new();
    let _stale = socket_state.check_for_timeouts(10000);
}

#[test]
fn parse_accepts_and_rejects() {
    let a = SocketAddr::parse("1.2.3.4:5").unwrap();
    assert_eq!((a.a, a.b, a.c, a.d, a.port), (1, 2, 3, 4, 5));
    let a = SocketAddr::parse("0.0.0.0:0").unwrap();
    assert_eq!((a.a, a.b, a.c, a.d, a.port), (0, 0, 0, 0, 0));
    let a = SocketAddr::parse("255.255.255.255:65535").unwrap();
    assert_eq!((a.a, a.b, a.c, a.d, a.port), (255, 255, 255, 255, 65535));
    assert!(SocketAddr::parse("256.1.1.1:1").is_none());
    assert!(SocketAddr::parse("1.1.1.1:65536").is_none());
    assert!(SocketAddr::parse("01.2.3.4:5").is_none());
    assert!(SocketAddr::parse("1.2.3.4").is_none());
    assert!(SocketAddr::parse("1.2.3:4").is_none());
    assert!(SocketAddr::parse("1.2.3.4:").is_none());
    assert!(SocketAddr::parse("").is_none());
    assert!(SocketAddr::parse("a.b.c.d:e").is_none());
}

// Wrap correctness: of two distinct sequence numbers less than half the
// space apart, exactly one is newer.
#[test]
fn wrap_correctness() {
    let pairs: [(u16, u16); 6] =
        [(1, 0), (0, 65535), (40, 8), (32767, 0), (65535, 32768), (1000, 999)];
    for (a, b) in pairs {
        assert!(is_newer(a, b) != is_newer(b, a));
        assert!(is_newer(a, b));
    }
    // At exactly half the space apart, both directions compare as newer.
    assert!(is_newer(32768, 0) && is_newer(0, 32768));
    assert_eq!(distance(1, 65535), 2);
    assert_eq!(distance(65535, 1), -2);
    assert_eq!(distance(0, 0), 0);
    assert_eq!(distance(8, 40), -32);
}

// Ack monotonicity: after observing 1 and then the newer 3, the newest
// value is 3 and the bit for 1 is set.
#[test]
fn ack_monotonicity() {
    let mut r = AckRecord::new();
    r.observe(1);
    assert_eq!(r.snapshot(), (1, 1));
    r.observe(3);
    // bit 1 covers sequence 1, bit 2 covers sequence 0.
    assert_eq!(r.snapshot(), (3, 0b110));
    // An older value within the horizon sets its bit.
    r.observe(2);
    assert_eq!(r.snapshot(), (3, 0b111));
    // Observing the newest again changes nothing.
    r.observe(3);
    assert_eq!(r.snapshot(), (3, 0b111));
}

#[test]
fn ack_too_old_is_noop() {
    let mut r = AckRecord::new();
    r.observe(100);
    let before = r.snapshot();
    // 100 - 67 = 33: one past the horizon, cannot be represented.
    r.observe(67);
    assert_eq!(r.snapshot(), before);
    // 100 - 68 = 32: the last representable distance.
    r.observe(68);
    assert_eq!(r.snapshot(), (100, 1 << 31));
}

#[test]
fn ack_wraparound() {
    let mut r = AckRecord::new();
    r.observe(65534);
    r.observe(1);
    // 1 - 65534 wraps to a distance of 3: shift by 3, set bit 2 for 65534.
    assert_eq!(r.snapshot().0, 1);
    assert_eq!(r.snapshot().1 & 0b100, 0b100);
}

#[test]
fn packet_clone_is_identical() {
    let p = Packet::new(test_addr(), vec![1, 2, 3]);
    let q = p.clone();
    assert_eq!(q.addr, p.addr);
    assert_eq!(q.payload, p.payload);
}

#[test]
fn window_enqueue_overwrites_by_key() {
    let addr = test_addr();
    let mut w = SentWindow::new();
    w.enqueue(7, Packet::new(addr, vec![1]));
    w.enqueue(7, Packet::new(addr, vec![2]));
    assert_eq!(w.len(), 1);
    // Resolving far past the horizon drops the single entry, with the
    // payload of the overwriting message.
    let dropped = w.resolve(100, 0);
    assert_eq!(w.len(), 0);
    assert_eq!(dropped.len(), 1);
    assert_eq!(dropped[0].payload, vec![2]);
}

// The direct acknowledgment scenario: send sequence 5, then resolve
// against `ack = 5, ack_field = 0`: entry 5 is acknowledged and the
// dropped list comes back empty.
#[test]
fn immediate_ack_is_not_a_drop() {
    let addr = test_addr();
    let mut state = SocketState::new();
    for i in 0u16..=5 {
        let sent = state
            .pre_process_packet_at(Packet::new(addr, vec![i as u8]), 0)
            .unwrap();
        assert_eq!(sent.0, addr);
    }
    let delivered = state
        .process_received_at(addr, &raw(0, 5, 0, vec![42]), 0)
        .map(|p| p.payload);
    assert_eq!(delivered.unwrap(), vec![42]);
    let dropped = state.dropped_packets(addr).unwrap();
    assert!(dropped.is_empty());
    // A later resolve far ahead drops 0 through 4 but never the
    // acknowledged 5.
    state
        .process_received_at(addr, &raw(1, 50, 0, vec![]), 0)
        .unwrap();
    let dropped = state.dropped_packets(addr).unwrap();
    let payloads: Vec<Vec<u8>> = dropped.into_iter().map(|p| p.payload).collect();
    assert_eq!(payloads, vec![vec![0], vec![1], vec![2], vec![3], vec![4]]);
}

// The horizon scenario: send 0 through 40 with no acknowledgment at all;
// continuing traffic must eventually surface 0 through 8 as dropped,
// oldest first, and never surface them again.
#[test]
fn horizon_overflow_drops_oldest() {
    let addr = test_addr();
    let mut state = SocketState::new();
    for i in 0u16..=40 {
        state
            .pre_process_packet_at(Packet::new(addr, vec![i as u8]), 0)
            .unwrap();
    }
    // The peer acknowledges only 40 itself: everything older than the
    // 32-wide horizon behind 40 (0 through 7) is presumed lost.
    state
        .process_received_at(addr, &raw(0, 40, 0, vec![]), 0)
        .unwrap();
    let dropped = state.dropped_packets(addr).unwrap();
    let payloads: Vec<u8> = dropped.iter().map(|p| p.payload[0]).collect();
    assert_eq!(payloads, (0u8..=7).collect::<Vec<u8>>());
    // The acknowledgment moves one further: 8 falls off the horizon.
    state
        .process_received_at(addr, &raw(1, 41, 0, vec![]), 0)
        .unwrap();
    let dropped = state.dropped_packets(addr).unwrap();
    let payloads: Vec<u8> = dropped.iter().map(|p| p.payload[0]).collect();
    assert_eq!(payloads, vec![8]);
    // No double harvest: moving far ahead drops 9 through 17, and none of
    // the already-harvested 0 through 8 come back.
    state
        .process_received_at(addr, &raw(2, 50, 0, vec![]), 0)
        .unwrap();
    let dropped = state.dropped_packets(addr).unwrap();
    let payloads: Vec<u8> = dropped.iter().map(|p| p.payload[0]).collect();
    assert_eq!(payloads, (9u8..=17).collect::<Vec<u8>>());
}

// A message drained once is gone: a second drain returns nothing.
#[test]
fn drain_is_read_once() {
    let addr = test_addr();
    let mut state = SocketState::new();
    for i in 0u16..=40 {
        state
            .pre_process_packet_at(Packet::new(addr, vec![i as u8]), 0)
            .unwrap();
    }
    state
        .process_received_at(addr, &raw(0, 40, 0, vec![]), 0)
        .unwrap();
    let first = state.dropped_packets(addr).unwrap();
    assert_eq!(first.len(), 8);
    let second = state.dropped_packets(addr).unwrap();
    assert!(second.is_empty());
}

// Idempotent get-or-create: repeated operations on one endpoint share a
// single connection; a different endpoint gets its own.
#[test]
fn get_or_create_is_idempotent() {
    let addr = test_addr();
    let other = SocketAddr::new(10, 0, 0, 1, 9);
    let mut state = SocketState::new();
    state
        .process_received_at(addr, &raw(0, 0, 0, vec![]), 0)
        .unwrap();
    state
        .process_received_at(addr, &raw(1, 0, 0, vec![]), 0)
        .unwrap();
    state.pre_process_packet_at(Packet::new(addr, vec![1]), 0).unwrap();
    assert_eq!(state.connections.len(), 1);
    state.pre_process_packet_at(Packet::new(other, vec![1]), 0).unwrap();
    assert_eq!(state.connections.len(), 2);
}

// The liveness sweep reports exactly the endpoints silent for at least the
// timeout, as often as they remain stale.
#[test]
fn timeout_sweep_reports_stale_endpoints() {
    let addr = test_addr();
    let mut state = SocketState::new();
    state
        .process_received_at(addr, &raw(0, 0, 0, vec![]), 1000)
        .unwrap();
    assert!(state.check_for_timeouts(1000).is_empty());
    assert!(state.check_for_timeouts(10999).is_empty());
    let stale = state.check_for_timeouts(11000);
    assert_eq!(stale.len(), 1);
    assert_eq!(stale[0], addr);
    let conn = &state.connections.connections[0];
    assert_eq!(conn.time_since_last_heard(11000), 10000);
    assert_eq!(conn.time_since_last_heard(500), 0);
    assert!(conn.is_stale_at(11000, 10));
    assert!(!conn.is_stale_at(10999, 10));
    // It keeps firing for every sweep while the endpoint stays stale.
    assert_eq!(state.check_for_timeouts(11000).len(), 1);
    // Fresh traffic moves the endpoint back to active.
    state
        .process_received_at(addr, &raw(1, 0, 0, vec![]), 12000)
        .unwrap();
    assert!(state.check_for_timeouts(13000).is_empty());
}

#[test]
fn zero_timeout_is_immediately_stale() {
    let addr = test_addr();
    let mut state = SocketState::new().with_client_timeout(0);
    state
        .process_received_at(addr, &raw(0, 0, 0, vec![]), 500)
        .unwrap();
    assert_eq!(state.check_for_timeouts(500).len(), 1);
}

// The wire bytes: fixed-width little-endian fields and a 64-bit length
// prefix, exactly as the reference encoder produces them.
#[test]
fn wire_encoding_is_exact() {
    let addr = test_addr();
    let mut state = SocketState::new();
    let (_, buf) = state
        .pre_process_packet_at(Packet::new(addr, vec![9, 9, 9]), 0)
        .unwrap();
    let expected: Vec<u8> = vec![
        0, 0, // seq = 0
        0, 0, // ack_seq = 0
        0, 0, 0, 0, // ack_field = 0
        3, 0, 0, 0, 0, 0, 0, 0, // payload length
        9, 9, 9,
    ];
    assert_eq!(buf, expected);
    let reference = bincode::serialize(&(0u16, 0u16, 0u32, vec![9u8, 9, 9])).unwrap();
    assert_eq!(buf, reference);
    // The second message advances the sequence number.
    let (_, buf) = state
        .pre_process_packet_at(Packet::new(addr, vec![]), 0)
        .unwrap();
    assert_eq!(&buf[0..2], &[1, 0]);
    assert_eq!(buf.len(), 16);
}

// The outbound header carries the sender's acknowledgment snapshot of its
// peer.
#[test]
fn outbound_header_snapshots_inbound_acks() {
    let addr = test_addr();
    let mut state = SocketState::new();
    state
        .process_received_at(addr, &raw(7, 0, 0, vec![]), 0)
        .unwrap();
    let (_, buf) = state
        .pre_process_packet_at(Packet::new(addr, vec![]), 0)
        .unwrap();
    assert_eq!(&buf[2..4], &[7, 0]); // ack_seq = 7
    // Observing 7 from a fresh record shifts by 7 and sets bit 6 for the
    // previous newest value 0.
    assert_eq!(&buf[4..8], &[64, 0, 0, 0]);
}

// Sequence numbers wrap without failing.
#[test]
fn outbound_sequence_wraps() {
    let addr = test_addr();
    let mut state = SocketState::new();
    state.pre_process_packet_at(Packet::new(addr, vec![]), 0).unwrap();
    state.connections.connections[0].seq_num = 65535;
    let (_, buf) = state
        .pre_process_packet_at(Packet::new(addr, vec![]), 0)
        .unwrap();
    assert_eq!(&buf[0..2], &[255, 255]);
    let (_, buf) = state
        .pre_process_packet_at(Packet::new(addr, vec![]), 0)
        .unwrap();
    assert_eq!(&buf[0..2], &[0, 0]);
}

// One connection stamps and encodes outbound messages on its own, exactly
// as the session layer does.
#[test]
fn connection_prepare_outbound() {
    let addr = test_addr();
    let mut conn = Connection::new(addr);
    let buf = conn.prepare_outbound(Packet::new(addr, vec![9, 9, 9])).unwrap();
    let reference = bincode::serialize(&(0u16, 0u16, 0u32, vec![9u8, 9, 9])).unwrap();
    assert_eq!(buf, reference);
    assert_eq!(conn.seq_num, 1);
    let buf = conn.prepare_outbound(Packet::new(addr, vec![])).unwrap();
    assert_eq!(&buf[0..2], &[1, 0]);
}

// Processing an inbound packet reconstructs the delivered message.
#[test]
fn delivered_message_carries_payload_and_endpoint() {
    let addr = test_addr();
    let mut state = SocketState::new();
    let delivered = state
        .process_received_at(addr, &raw(0, 0, 0, vec![5, 6, 7]), 0)
        .unwrap();
    assert_eq!(delivered.addr, addr);
    assert_eq!(delivered.payload, vec![5, 6, 7]);
}
