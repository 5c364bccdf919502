use jackline::endpoint::{Endpoint, IpAddress};
use jackline::masp::message::{MalformedPacket, MaspPacket, PacketType};
use jackline::masp::receiver::{ReceiveAction, ReceiverState};
use jackline::masp::sender::{
    AckOutcome, HandshakeAttempts, HandshakeError, HandshakeStep, SenderState,
};
use jackline::video::ascii_frame::compress_ascii_image;
use jackline::video::stream::{take_earliest_frame, take_latest_frame};

fn peer_a() -> Endpoint {
    Endpoint::new(IpAddress::V4(0x7F00_0001), 60001)
}

fn peer_b() -> Endpoint {
    Endpoint::new(IpAddress::V4(0x7F00_0001), 60000)
}

fn stranger() -> Endpoint {
    Endpoint::new(IpAddress::V4(0x0A00_0001), 60001)
}

fn ack_bytes(seq: u32) -> Vec<u8> {
    MaspPacket::new(PacketType::Ack, 0, seq.to_be_bytes().to_vec()).serialize()
}

#[test]
fn send_counts_and_tracks() {
    let mut s = SenderState::new(peer_b());
    let p = s.send_data(PacketType::VideoData, vec![9, 9]);
    assert_eq!(p.sequence_number, 1);
    assert_eq!(p.packet_type, PacketType::VideoData);
    assert_eq!(p.payload, vec![9, 9]);
    assert_eq!(s.sequence_number, 1);
    assert!(s.unacknowledged_packets.contains_key(&1));
    let a = s.send_data(PacketType::Ack, vec![0, 0, 0, 1]);
    assert_eq!(a.sequence_number, 2);
    assert!(!s.unacknowledged_packets.contains_key(&2));
    let r = s.send_data(PacketType::RetransmissionRequest, vec![0, 0, 0, 1]);
    assert_eq!(r.sequence_number, 3);
    assert_eq!(s.unacknowledged_packets.len(), 1);
}

#[test]
fn ack_removes_entry() {
    let mut s = SenderState::new(peer_b());
    for _ in 0..5 {
        s.send_data(PacketType::VideoData, vec![]);
    }
    assert_eq!(s.unacknowledged_packets.len(), 5);
    let outcome = s.handle_acknowledgment(&ack_bytes(5), &peer_b());
    assert_eq!(outcome, AckOutcome::Acknowledged(5));
    assert!(!s.unacknowledged_packets.contains_key(&5));
    for k in 1..5u32 {
        assert!(s.unacknowledged_packets.contains_key(&k));
    }
    // An Ack for a sequence number no longer in the table changes nothing else.
    assert_eq!(s.handle_acknowledgment(&ack_bytes(5), &peer_b()), AckOutcome::Acknowledged(5));
    assert_eq!(s.unacknowledged_packets.len(), 4);
}

#[test]
fn acks_from_strangers_and_junk_are_dropped() {
    let mut s = SenderState::new(peer_b());
    s.send_data(PacketType::VideoData, vec![]);
    assert_eq!(s.handle_acknowledgment(&ack_bytes(1), &stranger()), AckOutcome::UnexpectedSource);
    assert_eq!(
        s.handle_acknowledgment(&[1, 2, 3], &peer_b()),
        AckOutcome::Malformed(MalformedPacket::TooShort)
    );
    let short_ack = MaspPacket::new(PacketType::Ack, 0, vec![0, 1]).serialize();
    assert_eq!(
        s.handle_acknowledgment(&short_ack, &peer_b()),
        AckOutcome::Malformed(MalformedPacket::ShortPayload)
    );
    let video = MaspPacket::new(PacketType::VideoData, 1, vec![]).serialize();
    assert_eq!(s.handle_acknowledgment(&video, &peer_b()), AckOutcome::Ignored);
    assert!(s.unacknowledged_packets.contains_key(&1));
}

#[test]
fn retransmission_batch_holds_every_entry() {
    let mut s = SenderState::new(peer_b());
    for i in 0..4u8 {
        s.send_data(PacketType::VideoData, vec![i]);
    }
    s.acknowledge(2);
    let mut batch: Vec<(u32, Vec<u8>)> = s
        .retransmission_batch()
        .into_iter()
        .map(|p| (p.sequence_number, p.payload))
        .collect();
    batch.sort();
    assert_eq!(batch, vec![(1, vec![0]), (3, vec![2]), (4, vec![3])]);
}

#[test]
fn sequence_counter_wraps() {
    let mut s = SenderState::new(peer_b());
    s.sequence_number = u32::MAX;
    let p = s.send_data(PacketType::Punch, vec![]);
    assert_eq!(p.sequence_number, 0);
    assert_eq!(s.sequence_number, 0);
    let q = s.send_data(PacketType::Punch, vec![]);
    assert_eq!(q.sequence_number, 1);
}

#[test]
fn handshake_fails_after_three_silent_attempts() {
    let mut h = HandshakeAttempts::new();
    assert_eq!(h.record(&Err(HandshakeError::Timeout)), HandshakeStep::Retry);
    assert_eq!(h.record(&Err(HandshakeError::Timeout)), HandshakeStep::Retry);
    assert_eq!(h.record(&Err(HandshakeError::Timeout)), HandshakeStep::Failed);
    assert_eq!(h.failures, 3);
}

#[test]
fn handshake_completes_on_second_attempt() {
    let mut h = HandshakeAttempts::new();
    assert_eq!(h.record(&Err(HandshakeError::Timeout)), HandshakeStep::Retry);
    assert_eq!(h.record(&Ok(())), HandshakeStep::Complete);
}

#[test]
fn handshake_packets() {
    let s = SenderState::new(peer_b());
    let ack = MaspPacket::new(PacketType::HandshakeAck, 0, vec![]).serialize();
    assert_eq!(s.check_handshake_ack(&ack, &peer_b()), Ok(()));
    assert_eq!(s.check_handshake_ack(&ack, &stranger()), Err(HandshakeError::UnexpectedSource));
    let wrong = MaspPacket::new(PacketType::VideoData, 0, vec![]).serialize();
    assert_eq!(s.check_handshake_ack(&wrong, &peer_b()), Err(HandshakeError::UnexpectedType));
    assert_eq!(
        s.check_handshake_ack(&[0; 4], &peer_b()),
        Err(HandshakeError::Malformed(MalformedPacket::TooShort))
    );
    let mut t = SenderState::new(peer_b());
    t.send_data(PacketType::Punch, vec![]);
    t.send_data(PacketType::Punch, vec![]);
    let fin = t.handshake_final_ack();
    assert_eq!(fin.packet_type, PacketType::HandshakeFinalAck);
    assert_eq!(fin.sequence_number, 2);
}

#[test]
fn punch_burst_covers_port_matrix() {
    let mut s = SenderState::new(peer_b());
    let shots = s.punch_hole(55000, 55001, 60000, 60001);
    assert_eq!(shots.len(), 40);
    for (i, shot) in shots.iter().enumerate() {
        let expected_remote = if i < 20 { 60000 } else { 60001 };
        let expected_local = if (i / 10) % 2 == 0 { 55000 } else { 55001 };
        assert_eq!(shot.remote_port, expected_remote);
        assert_eq!(shot.local_port, expected_local);
        assert_eq!(shot.packet.packet_type, PacketType::Punch);
        assert_eq!(shot.packet.sequence_number, i as u32 + 1);
    }
    assert_eq!(s.sequence_number, 40);
    assert_eq!(s.remote_addr, peer_b());
    assert_eq!(s.unacknowledged_packets.len(), 40);
}

#[test]
fn responder_handshake() {
    let mut r = ReceiverState::new(Some(peer_b()));
    let punch = MaspPacket::new(PacketType::Punch, 3, vec![]).serialize();
    assert!(r.accept_handshake_request(&punch, &peer_a()).is_none());
    assert_eq!(r.remote_addr, Some(peer_b()));
    let req = MaspPacket::new(PacketType::HandshakeRequest, 1, vec![]).serialize();
    let ack = r.accept_handshake_request(&req, &peer_a()).unwrap();
    assert_eq!(ack.packet_type, PacketType::HandshakeAck);
    assert_eq!(ack.sequence_number, 1);
    assert_eq!(r.remote_addr, Some(peer_a()));
    let fin = MaspPacket::new(PacketType::HandshakeFinalAck, 1, vec![]).serialize();
    assert_eq!(r.check_final_ack(&fin, &stranger()), Err(HandshakeError::UnexpectedSource));
    assert_eq!(r.check_final_ack(&req, &peer_a()), Err(HandshakeError::UnexpectedType));
    assert_eq!(r.check_final_ack(&fin, &peer_a()), Ok(()));
    let unbound = ReceiverState::new(None);
    assert_eq!(unbound.check_final_ack(&fin, &peer_a()), Err(HandshakeError::UnexpectedSource));
}

#[test]
fn unexpected_source_is_never_dispatched() {
    let mut r = ReceiverState::new(Some(peer_a()));
    let frame = MaspPacket::new(PacketType::VideoData, 9, compress_ascii_image("abc")).serialize();
    assert!(matches!(r.receive(&frame, &stranger()), ReceiveAction::Dropped));
    assert_eq!(r.ascii_frames_buffer.len(), 0);
    assert_eq!(r.expected_sequence_number, 0);
    let mut unbound = ReceiverState::new(None);
    assert!(matches!(unbound.receive(&frame, &peer_a()), ReceiveAction::Dropped));
    assert_eq!(unbound.ascii_frames_buffer.len(), 0);
}

#[test]
fn video_frames_are_stored_and_acked() {
    let mut r = ReceiverState::new(Some(peer_a()));
    let frame = MaspPacket::new(PacketType::VideoData, 5, compress_ascii_image("@@ \n")).serialize();
    match r.receive(&frame, &peer_a()) {
        ReceiveAction::SendAck(ack) => {
            assert_eq!(ack.serialize(), ack_bytes(5));
        }
        other => panic!("unexpected action {:?}", other),
    }
    assert_eq!(r.expected_sequence_number, 5);
    assert_eq!(r.ascii_frames_buffer, vec![("@@ \n".to_string(), 5)]);
}

#[test]
fn malformed_and_control_packets() {
    let mut r = ReceiverState::new(Some(peer_a()));
    assert!(matches!(
        r.receive(&[0x4D, 0x41], &peer_a()),
        ReceiveAction::Malformed(MalformedPacket::TooShort)
    ));
    let hs = MaspPacket::new(PacketType::HandshakeRequest, 0, vec![]).serialize();
    assert!(matches!(r.receive(&hs, &peer_a()), ReceiveAction::Ignored));
    assert_eq!(r.expected_sequence_number, 0);
    let audio = MaspPacket::new(PacketType::AudioData, 1, vec![1]).serialize();
    assert!(matches!(r.receive(&audio, &peer_a()), ReceiveAction::Ignored));
    assert_eq!(r.expected_sequence_number, 1);
}

#[test]
fn text_in_and_out_of_order() {
    let mut r = ReceiverState::new(Some(peer_a()));
    let first = MaspPacket::new(PacketType::TextData, 1, b"hi".to_vec()).serialize();
    match r.receive(&first, &peer_a()) {
        ReceiveAction::DeliverText(t) => assert_eq!(t, b"hi".to_vec()),
        other => panic!("unexpected action {:?}", other),
    }
    let late = MaspPacket::new(PacketType::TextData, 7, b"yo".to_vec()).serialize();
    match r.receive(&late, &peer_a()) {
        ReceiveAction::RequestRetransmission(q) => {
            assert_eq!(q.packet_type, PacketType::RetransmissionRequest);
            assert_eq!(q.payload, vec![0, 0, 0, 2]);
        }
        other => panic!("unexpected action {:?}", other),
    }
    assert_eq!(r.parked_text.get(&7), Some(&b"yo".to_vec()));
    assert_eq!(r.expected_sequence_number, 2);
}

#[test]
fn render_waits_for_threshold_then_takes_latest() {
    let mut r = ReceiverState::new(Some(peer_a()));
    for seq in 1..=23u32 {
        r.ascii_frames_buffer.push((format!("f{}", seq), seq));
    }
    assert_eq!(r.take_frame_to_render(), None);
    r.ascii_frames_buffer.push(("late".to_string(), 100));
    r.ascii_frames_buffer.push(("f24".to_string(), 24));
    assert_eq!(r.take_frame_to_render(), Some("late".to_string()));
    assert_eq!(r.ascii_frames_buffer.len(), 24);
}

#[test]
fn frame_ordering_helpers() {
    let mut v: Vec<(String, u128)> = vec![("c".into(), 3), ("a".into(), 1), ("b".into(), 2)];
    assert_eq!(take_earliest_frame(&mut v), Some(("a".to_string(), 1)));
    assert_eq!(take_earliest_frame(&mut v), Some(("b".to_string(), 2)));
    assert_eq!(take_earliest_frame(&mut v), Some(("c".to_string(), 3)));
    assert_eq!(take_earliest_frame(&mut v), None);
    let mut w: Vec<(String, u32)> = vec![("x".into(), 5), ("y".into(), 9), ("z".into(), 1)];
    assert_eq!(take_latest_frame(&mut w), Some(("y".to_string(), 9)));
    assert_eq!(w.len(), 2);
    let mut empty: Vec<(String, u32)> = vec![];
    assert_eq!(take_latest_frame(&mut empty), None);
}

#[test]
fn lost_packet_is_resent_until_acked() {
    let mut s = SenderState::new(peer_b());
    s.sequence_number = 4;
    let first = s.send_data(PacketType::VideoData, vec![7, 7, 7]);
    assert_eq!(first.sequence_number, 5);
    // The first transmission is lost: the retransmitter resends it.
    let batch = s.retransmission_batch();
    assert_eq!(batch.len(), 1);
    assert_eq!(batch[0].serialize(), first.serialize());
    // The receiver acknowledges the resent packet.
    let mut r = ReceiverState::new(Some(peer_a()));
    let action = r.receive(&batch[0].serialize(), &peer_a());
    let ack = match action {
        ReceiveAction::SendAck(ack) => ack,
        other => panic!("unexpected action {:?}", other),
    };
    assert_eq!(s.handle_acknowledgment(&ack.serialize(), &peer_b()), AckOutcome::Acknowledged(5));
    assert!(s.retransmission_batch().is_empty());
}

#[test]
fn handshake_sequence_scenario() {
    // A fresh initiator sends request 1; the responder echoes 1; the final
    // acknowledgement carries 1 as well.
    let mut initiator = SenderState::new(peer_b());
    let req = initiator.handshake_request();
    assert_eq!(req.packet_type, PacketType::HandshakeRequest);
    assert_eq!(req.sequence_number, 1);
    assert!(req.payload.is_empty());
    assert_eq!(initiator.sequence_number, 1);
    assert!(initiator.unacknowledged_packets.contains_key(&1));
    let mut responder = ReceiverState::new(None);
    let ack = responder.accept_handshake_request(&req.serialize(), &peer_a()).unwrap();
    assert_eq!(ack.sequence_number, 1);
    assert_eq!(responder.remote_addr, Some(peer_a()));
    assert_eq!(initiator.check_handshake_ack(&ack.serialize(), &peer_b()), Ok(()));
    let fin = initiator.handshake_final_ack();
    assert_eq!(fin.packet_type, PacketType::HandshakeFinalAck);
    assert_eq!(fin.sequence_number, 1);
    assert_eq!(responder.check_final_ack(&fin.serialize(), &peer_a()), Ok(()));
    // A second attempt counts again.
    let again = initiator.handshake_request();
    assert_eq!(again.sequence_number, 2);
}
