use iec104sim_core::master::build_gi_command;
use iec104sim_core::protocol::{ProtocolState, RxEvent, TickAction};

const TESTFR_CON: [u8; 6] = [0x68, 0x04, 0x83, 0x00, 0x00, 0x00];
const TESTFR_ACT: [u8; 6] = [0x68, 0x04, 0x43, 0x00, 0x00, 0x00];

/// A single-point I-frame from the peer with the given N(S) and N(R).
fn peer_i_frame(ssn: u16, rsn: u16) -> Vec<u8> {
    let s = (ssn << 1).to_le_bytes();
    let r = (rsn << 1).to_le_bytes();
    vec![0x68, 0x0E, s[0], s[1], r[0], r[1], 0x01, 0x01, 0x03, 0x00, 0x01, 0x00, 0x01, 0x00, 0x00, 0x00]
}

fn peer_s_frame(rsn: u16) -> Vec<u8> {
    let r = (rsn << 1).to_le_bytes();
    vec![0x68, 0x04, 0x01, 0x00, r[0], r[1]]
}

/// After t3 of silence the timer sends TESTFR ACT; TESTFR CON from the
/// peer clears the test (timers in milliseconds: t1=5 s, t2=2 s, t3=1 s).
#[test]
fn master_sends_testfr_act_after_t3_idle() {
    let mut p = ProtocolState::new(5000, 2000, 1000, 12, 8, 0);
    assert_eq!(p.tick(500), TickAction::Idle);
    assert_eq!(p.tick(1000), TickAction::SendTestFr);
    assert_eq!(p.test_pending_deadline, Some(6000));
    // no second test while one is in flight
    assert_eq!(p.tick(1500), TickAction::Idle);
    let ev = p.on_frame_received(&TESTFR_CON, 1600);
    assert_eq!(ev, RxEvent::Unnumbered { reply_test_con: false });
    assert_eq!(p.test_pending_deadline, None);
    assert_eq!(p.last_rx, 1600);
    assert_eq!(p.tick(2000), TickAction::Idle);
    assert_eq!(p.tick(2600), TickAction::SendTestFr);
}

/// A peer that keeps sending I-frames whose N(R) never acknowledges the
/// master's request keeps the link up well past t1 (t1=1 s, t2=1 s, t3=30 s).
#[test]
fn master_keeps_link_alive_when_peer_sends_frames_without_advancing_rsn() {
    let mut p = ProtocolState::new(1000, 1000, 30000, 12, 8, 0);
    let mut gi = build_gi_command(1, 20);
    p.stamp_outgoing(&mut gi, 0);
    assert_eq!(p.pending_acks.len(), 1);
    let mut now = 0u64;
    let mut peer_ssn = 0u16;
    while now <= 2500 {
        now += 200;
        let ev = p.on_frame_received(&peer_i_frame(peer_ssn, 0), now);
        assert!(matches!(ev, RxEvent::Information { freed: 0, .. }));
        peer_ssn += 1;
        let a = p.tick(now + 100);
        assert_ne!(a, TickAction::DropT1);
    }
    // the request is still unacknowledged, and the link is still up
    assert_eq!(p.pending_acks.len(), 1);
    assert_eq!(p.rsn, peer_ssn);
}

/// A completely silent peer is dropped t1 after the TESTFR ACT that t3 of
/// silence triggered (t1=t2=t3=1 s).
#[test]
fn master_drops_connection_when_peer_goes_completely_silent() {
    let mut p = ProtocolState::new(1000, 1000, 1000, 12, 8, 0);
    let mut gi = build_gi_command(1, 20);
    p.stamp_outgoing(&mut gi, 0);
    assert_eq!(p.tick(500), TickAction::Idle);
    assert_eq!(p.tick(1000), TickAction::SendTestFr);
    assert_eq!(p.tick(1500), TickAction::Idle);
    assert_eq!(p.tick(2000), TickAction::DropT1);
}

#[test]
fn outgoing_frames_are_numbered() {
    let mut p = ProtocolState::new(15000, 10000, 20000, 12, 8, 0);
    // two peer I-frames so that our RSN is 2
    p.on_frame_received(&peer_i_frame(0, 0), 10);
    p.on_frame_received(&peer_i_frame(1, 0), 20);
    assert_eq!(p.rsn, 2);
    assert_eq!(p.pending_ack_deadline, Some(10010));
    let mut f = build_gi_command(1, 20);
    p.stamp_outgoing(&mut f, 100);
    assert_eq!(&f[2..6], &[0x00, 0x00, 0x04, 0x00]);
    assert_eq!(p.ssn, 1);
    assert_eq!(p.pending_ack_deadline, None);
    assert_eq!(p.unacked_received, 0);
    let mut f2 = build_gi_command(1, 20);
    p.stamp_outgoing(&mut f2, 200);
    assert_eq!(&f2[2..6], &[0x02, 0x00, 0x04, 0x00]);
    assert_eq!(p.pending_acks.iter().copied().collect::<Vec<_>>(), vec![(0, 15100), (1, 15200)]);
    // an S-frame only gets the receive number
    let mut s = vec![0x68, 0x04, 0x01, 0x00, 0x00, 0x00];
    p.stamp_outgoing(&mut s, 300);
    assert_eq!(s, vec![0x68, 0x04, 0x01, 0x00, 0x04, 0x00]);
    assert_eq!(p.ssn, 2);
    // a U-frame is left alone
    let mut u = TESTFR_ACT.to_vec();
    p.stamp_outgoing(&mut u, 400);
    assert_eq!(u, TESTFR_ACT.to_vec());
}

#[test]
fn acknowledgements_free_the_send_window() {
    let mut p = ProtocolState::new(15000, 10000, 20000, 2, 8, 0);
    for t in 0..2u64 {
        let mut f = build_gi_command(1, 20);
        assert!(p.can_send_iframe());
        p.stamp_outgoing(&mut f, t);
    }
    assert!(!p.can_send_iframe());
    assert_eq!(p.on_frame_received(&peer_s_frame(1), 50), RxEvent::Supervisory { freed: 1 });
    assert!(p.can_send_iframe());
    assert_eq!(p.on_frame_received(&peer_i_frame(0, 2), 60), RxEvent::Information { freed: 1, ack: None });
    assert_eq!(p.pending_acks.len(), 0);
    assert_eq!(p.free_acked_pending(5), 0);
}

#[test]
fn w_received_frames_force_an_ack_and_t2_sends_a_late_one() {
    let mut p = ProtocolState::new(15000, 10000, 20000, 12, 3, 0);
    assert_eq!(p.on_frame_received(&peer_i_frame(0, 0), 1), RxEvent::Information { freed: 0, ack: None });
    assert_eq!(p.on_frame_received(&peer_i_frame(1, 0), 2), RxEvent::Information { freed: 0, ack: None });
    assert_eq!(p.on_frame_received(&peer_i_frame(2, 0), 3), RxEvent::Information { freed: 0, ack: Some(3) });
    assert_eq!(p.unacked_received, 0);
    assert_eq!(p.pending_ack_deadline, None);
    // one more frame arms t2; the tick at the deadline sends the S-frame
    p.on_frame_received(&peer_i_frame(3, 0), 100);
    assert_eq!(p.pending_ack_deadline, Some(10100));
    assert_eq!(p.tick(10099), TickAction::Idle);
    assert_eq!(p.tick(10100), TickAction::SendSFrame(4));
    assert_eq!(p.pending_ack_deadline, None);
}

#[test]
fn short_and_truncated_frames() {
    let mut p = ProtocolState::new(15000, 10000, 20000, 12, 8, 0);
    assert_eq!(p.on_frame_received(&[0x68, 0x04, 0x01], 5), RxEvent::TooShort);
    assert_eq!(p.last_rx, 0);
    assert_eq!(p.on_frame_received(&[0x68, 0x06, 0x02, 0x00, 0x00, 0x00, 0x01, 0x01], 7), RxEvent::TruncatedInformation);
    assert_eq!(p.last_rx, 7);
    assert_eq!(p.rsn, 0);
    assert_eq!(p.on_frame_received(&TESTFR_ACT, 9), RxEvent::Unnumbered { reply_test_con: true });
}
