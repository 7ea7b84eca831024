use tcp_tunnel::engine::{FlowKey, PacketAction, Tunnel};
use tcp_tunnel::packet::{
    craft_ipv4_tcp, parse_ipv4_tcp, SockAddr, FLAG_ACK, FLAG_FIN, FLAG_PSH, FLAG_SYN,
};

fn ip(a: u8, b: u8, c: u8, d: u8) -> u32 {
    u32::from_be_bytes([a, b, c, d])
}

fn host() -> SockAddr {
    SockAddr { ip: ip(10, 0, 0, 2), port: 50000 }
}

fn remote() -> SockAddr {
    SockAddr { ip: ip(93, 184, 216, 34), port: 443 }
}

fn flow_key() -> FlowKey {
    FlowKey { remote_ip: remote().ip, remote_port: 443, local_port: 50000 }
}

/// Sets up one established flow with isn 7777 and the host's first
/// sequence number 1000, as the SYN scenario leaves it.
fn established() -> Tunnel {
    let mut tunnel = Tunnel::new();
    let syn = craft_ipv4_tcp(host(), remote(), 1000, 0, FLAG_SYN, b"");
    match tunnel.process_packet(&syn) {
        PacketAction::SynSeen { key, src, dst, kernel_next } => {
            let synack = tunnel.accept_flow(&key, src, dst, kernel_next, 7777);
            let seg = parse_ipv4_tcp(&synack).unwrap();
            assert_eq!(seg.flags, FLAG_SYN | FLAG_ACK);
        }
        _ => panic!("SYN did not report a new flow"),
    }
    tunnel
}

#[test]
fn syn_gets_synack_and_flow() {
    let mut tunnel = Tunnel::new();
    let syn = craft_ipv4_tcp(host(), remote(), 1000, 0, FLAG_SYN, b"");
    let action = tunnel.process_packet(&syn);
    match action {
        PacketAction::SynSeen { key, src, dst, kernel_next } => {
            assert_eq!(key, flow_key());
            assert_eq!(src, host());
            assert_eq!(dst, remote());
            assert_eq!(kernel_next, 1001);
            let synack = tunnel.accept_flow(&key, src, dst, kernel_next, 7777);
            let seg = parse_ipv4_tcp(&synack).unwrap();
            assert_eq!(seg.src, remote());
            assert_eq!(seg.dst, host());
            assert_eq!(seg.flags, FLAG_SYN | FLAG_ACK);
            assert_eq!(seg.seq, 7777);
            assert_eq!(seg.ack, 1001);
        }
        _ => panic!("SYN did not report a new flow"),
    }
    assert!(tunnel.has_flow(&flow_key()));
    assert_eq!(tunnel.flow_seq_ack(&flow_key()), Some((7777, 1001)));
}

#[test]
fn open_flow_draws_an_isn() {
    let mut tunnel = Tunnel::new();
    let synack = tunnel.open_flow(&flow_key(), host(), remote(), 1001);
    let seg = parse_ipv4_tcp(&synack).unwrap();
    assert_eq!(seg.flags, FLAG_SYN | FLAG_ACK);
    assert_eq!(seg.ack, 1001);
    assert_eq!(tunnel.flow_seq_ack(&flow_key()), Some((seg.seq, 1001)));
}

#[test]
fn data_segment_is_acked_and_forwarded() {
    let mut tunnel = established();
    let data = craft_ipv4_tcp(host(), remote(), 1001, 7778, FLAG_PSH | FLAG_ACK, b"GET /\r\n\r\n");
    match tunnel.process_packet(&data) {
        PacketAction::AckData { key, response, egress } => {
            assert_eq!(key, flow_key());
            assert_eq!(egress, b"GET /\r\n\r\n");
            let seg = parse_ipv4_tcp(&response).unwrap();
            assert_eq!(seg.src, remote());
            assert_eq!(seg.dst, host());
            assert_eq!(seg.flags, FLAG_ACK);
            assert_eq!(seg.seq, 7778);
            assert_eq!(seg.ack, 1010);
            assert!(seg.payload.is_empty());
        }
        _ => panic!("data segment was not acknowledged"),
    }
    assert_eq!(tunnel.flow_seq_ack(&flow_key()), Some((7778, 1010)));
}

#[test]
fn upstream_payload_is_pushed_to_host() {
    let mut tunnel = established();
    let data = craft_ipv4_tcp(host(), remote(), 1001, 7778, FLAG_PSH | FLAG_ACK, b"GET /\r\n\r\n");
    tunnel.process_packet(&data);

    let pkt = tunnel.process_upstream(&flow_key(), b"200 OK\r\n").unwrap();
    let seg = parse_ipv4_tcp(&pkt).unwrap();
    assert_eq!(seg.src, remote());
    assert_eq!(seg.dst, host());
    assert_eq!(seg.flags, FLAG_PSH | FLAG_ACK);
    assert_eq!(seg.seq, 7778);
    assert_eq!(seg.ack, 1010);
    assert_eq!(seg.payload, b"200 OK\r\n");
    // The next emitted payload continues after this one.
    assert_eq!(tunnel.flow_seq_ack(&flow_key()), Some((7786, 1010)));
}

#[test]
fn successive_upstream_payloads_advance_seq() {
    // Each emitted PSH|ACK advances our_seq by its payload length, so a
    // second delivery continues where the first ended instead of
    // overlapping it.
    let mut tunnel = established();
    let first = tunnel.process_upstream(&flow_key(), b"abc").unwrap();
    let second = tunnel.process_upstream(&flow_key(), b"defgh").unwrap();
    let seg1 = parse_ipv4_tcp(&first).unwrap();
    let seg2 = parse_ipv4_tcp(&second).unwrap();
    assert_eq!(seg1.seq, 7777);
    assert_eq!(seg2.seq, 7780);
    assert_eq!(tunnel.flow_seq_ack(&flow_key()), Some((7785, 1001)));
}

#[test]
fn upstream_payload_for_unknown_flow_is_dropped() {
    let mut tunnel = Tunnel::new();
    assert_eq!(tunnel.process_upstream(&flow_key(), b"stray"), None);
}

#[test]
fn fin_is_answered_once_and_flow_removed() {
    let mut tunnel = established();
    let data = craft_ipv4_tcp(host(), remote(), 1001, 7778, FLAG_PSH | FLAG_ACK, b"GET /\r\n\r\n");
    tunnel.process_packet(&data);

    let fin = craft_ipv4_tcp(host(), remote(), 1010, 7778, FLAG_FIN | FLAG_ACK, b"");
    match tunnel.process_packet(&fin) {
        PacketAction::FinClose { key, response, egress } => {
            assert_eq!(key, flow_key());
            assert!(egress.is_empty());
            let seg = parse_ipv4_tcp(&response).unwrap();
            assert_eq!(seg.flags, FLAG_FIN | FLAG_ACK);
            assert_eq!(seg.seq, 7778);
            assert_eq!(seg.ack, 1011);
        }
        _ => panic!("FIN was not answered with a close"),
    }
    assert!(!tunnel.has_flow(&flow_key()));

    // A later packet with the same key and no SYN is dropped.
    let stray = craft_ipv4_tcp(host(), remote(), 1011, 7778, FLAG_ACK, b"late");
    match tunnel.process_packet(&stray) {
        PacketAction::Ignore => {}
        _ => panic!("segment after close was not dropped"),
    }
}

#[test]
fn ack_correctness_across_sequence_wrap() {
    // our_ack arithmetic is modulo 2^32: a data segment and a FIN whose
    // sums wrap still acknowledge correctly.
    let mut tunnel = Tunnel::new();
    let syn = craft_ipv4_tcp(host(), remote(), 0xffff_fff0, 0, FLAG_SYN, b"");
    match tunnel.process_packet(&syn) {
        PacketAction::SynSeen { key, src, dst, kernel_next } => {
            assert_eq!(kernel_next, 0xffff_fff1);
            tunnel.accept_flow(&key, src, dst, kernel_next, 1);
        }
        _ => panic!("SYN did not report a new flow"),
    }
    let data = craft_ipv4_tcp(host(), remote(), 0xffff_fffe, 2, FLAG_PSH | FLAG_ACK, b"wrapwrapw");
    match tunnel.process_packet(&data) {
        PacketAction::AckData { response, .. } => {
            let seg = parse_ipv4_tcp(&response).unwrap();
            assert_eq!(seg.ack, 7); // (2^32 - 2 + 9) mod 2^32
        }
        _ => panic!("wrapping data segment was not acknowledged"),
    }
    let fin = craft_ipv4_tcp(host(), remote(), 0xffff_ffff, 2, FLAG_FIN | FLAG_ACK, b"");
    match tunnel.process_packet(&fin) {
        PacketAction::FinClose { response, .. } => {
            let seg = parse_ipv4_tcp(&response).unwrap();
            assert_eq!(seg.ack, 0); // (2^32 - 1 + 1) mod 2^32
        }
        _ => panic!("wrapping FIN was not answered"),
    }
}

#[test]
fn fin_with_payload_forwards_bytes() {
    // A FIN that still carries data hands the data to the sink and
    // acknowledges seq + 1, as for a bare FIN.
    let mut tunnel = established();
    let fin = craft_ipv4_tcp(host(), remote(), 1001, 7778, FLAG_FIN | FLAG_ACK, b"last words");
    match tunnel.process_packet(&fin) {
        PacketAction::FinClose { egress, response, .. } => {
            assert_eq!(egress, b"last words");
            let seg = parse_ipv4_tcp(&response).unwrap();
            assert_eq!(seg.ack, 1002);
        }
        _ => panic!("FIN with payload was not answered with a close"),
    }
    assert!(!tunnel.has_flow(&flow_key()));
}

#[test]
fn upstream_seq_advances_across_wrap() {
    let mut tunnel = Tunnel::new();
    tunnel.accept_flow(&flow_key(), host(), remote(), 1001, 0xffff_fffd);
    let pkt = tunnel.process_upstream(&flow_key(), b"12345").unwrap();
    let seg = parse_ipv4_tcp(&pkt).unwrap();
    assert_eq!(seg.seq, 0xffff_fffd);
    // (2^32 - 3 + 5) mod 2^32
    assert_eq!(tunnel.flow_seq_ack(&flow_key()), Some((2, 1001)));
}

#[test]
fn pure_ack_is_swallowed() {
    let mut tunnel = established();
    let ack = craft_ipv4_tcp(host(), remote(), 1001, 7778, FLAG_ACK, b"");
    match tunnel.process_packet(&ack) {
        PacketAction::Ignore => {}
        _ => panic!("pure ACK was not swallowed"),
    }
    assert_eq!(tunnel.flow_seq_ack(&flow_key()), Some((7777, 1001)));
}

#[test]
fn unknown_flow_without_syn_is_dropped() {
    let mut tunnel = Tunnel::new();
    let data = craft_ipv4_tcp(host(), remote(), 5, 6, FLAG_PSH | FLAG_ACK, b"who?");
    match tunnel.process_packet(&data) {
        PacketAction::Ignore => {}
        _ => panic!("segment for unknown flow was not dropped"),
    }
    assert!(!tunnel.has_flow(&flow_key()));
}

#[test]
fn non_tcp_and_malformed_packets_are_ignored() {
    let mut tunnel = Tunnel::new();
    match tunnel.process_packet(&[1, 2, 3]) {
        PacketAction::Ignore => {}
        _ => panic!("malformed packet was not ignored"),
    }
    let mut udp = craft_ipv4_tcp(host(), remote(), 0, 0, FLAG_SYN, b"");
    udp[9] = 17;
    match tunnel.process_packet(&udp) {
        PacketAction::Ignore => {}
        _ => panic!("non-TCP packet was not ignored"),
    }
}

#[test]
fn flows_are_kept_apart_by_key() {
    // One entry per key: a second flow with a different local port lives
    // beside the first, and closing one leaves the other.
    let mut tunnel = established();
    let host2 = SockAddr { ip: host().ip, port: 50001 };
    let key2 = FlowKey { remote_ip: remote().ip, remote_port: 443, local_port: 50001 };
    let syn = craft_ipv4_tcp(host2, remote(), 3000, 0, FLAG_SYN, b"");
    match tunnel.process_packet(&syn) {
        PacketAction::SynSeen { key, src, dst, kernel_next } => {
            assert_eq!(key, key2);
            tunnel.accept_flow(&key, src, dst, kernel_next, 4444);
        }
        _ => panic!("second SYN did not report a new flow"),
    }
    assert_eq!(tunnel.flow_seq_ack(&flow_key()), Some((7777, 1001)));
    assert_eq!(tunnel.flow_seq_ack(&key2), Some((4444, 3001)));

    let fin = craft_ipv4_tcp(host2, remote(), 3001, 4445, FLAG_FIN | FLAG_ACK, b"");
    tunnel.process_packet(&fin);
    assert!(!tunnel.has_flow(&key2));
    assert!(tunnel.has_flow(&flow_key()));
}

#[test]
fn syn_for_existing_flow_changes_nothing() {
    let mut tunnel = established();
    let syn_again = craft_ipv4_tcp(host(), remote(), 2000, 0, FLAG_SYN, b"");
    match tunnel.process_packet(&syn_again) {
        PacketAction::Ignore => {}
        _ => panic!("SYN on an existing flow was not swallowed"),
    }
    assert_eq!(tunnel.flow_seq_ack(&flow_key()), Some((7777, 1001)));
}
