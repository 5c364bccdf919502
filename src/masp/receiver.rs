//! The receiver endpoint's state: bound remote, expected sequence number,
//! reassembly buffer of decoded frames and parked out-of-order text. The
//! caller reads datagrams, hands them in with their source, and sends what
//! comes back.

use crate::endpoint::{is_bound_remote, matches_remote, Endpoint};
use crate::masp::message::{
    spec_parse, u32_to_be, MalformedPacket, MaspPacket, PacketModel, PacketType, MASP_VERSION,
};
use crate::masp::sender::{check_reply, next_sequence, spec_check_reply, HandshakeError};
use crate::buffer::be32;
use crate::video::ascii_frame::{decompress_ascii_image, rle_decode};
use crate::video::stream::{frames_view, take_latest_frame};
use std::collections::HashMap;
use vstd::prelude::*;

verus! {

pub const FINAL_ACK_TIMEOUT_SECONDS: u64 = 3;

/// Frames held back before the latest is rendered: one nominal second.
pub const RENDER_THRESHOLD: usize = 24;

/// Size of the buffer that datagrams are read into.
pub const RECEIVE_BUFFER_LEN: usize = 10000;

/// The largest UDP payload.
pub const MAX_DATAGRAM_LEN: usize = 65535;

/// What the receive loop does with one datagram.
#[derive(Debug)]
pub enum ReceiveAction {
    /// It came from another address than the bound remote: dropped silently.
    Dropped,
    /// It is not a packet: dropped with a log line.
    Malformed(MalformedPacket),
    /// A handshake, audio or control packet: nothing to do.
    Ignored,
    /// A video frame was stored; send this Ack to the remote.
    SendAck(MaspPacket),
    /// Text in sequence: hand this payload to the text handler.
    DeliverText(Vec<u8>),
    /// Text out of sequence was parked; send this request to the remote.
    RequestRetransmission(MaspPacket),
}

/// The Ack for sequence number `s`: counter 0, payload the four big-endian
/// bytes of `s`.
pub open spec fn ack_model(s: u32) -> PacketModel {
    PacketModel {
        version: MASP_VERSION,
        packet_type: PacketType::Ack,
        sequence_number: 0,
        payload: be32(s),
    }
}

/// The request to resend sequence number `s`.
pub open spec fn retransmission_request_model(s: u32) -> PacketModel {
    PacketModel {
        version: MASP_VERSION,
        packet_type: PacketType::RetransmissionRequest,
        sequence_number: 0,
        payload: be32(s),
    }
}

pub struct ReceiverState {
    pub remote_addr: Option<Endpoint>,
    pub expected_sequence_number: u32,
    pub ascii_frames_buffer: Vec<(String, u32)>,
    pub parked_text: HashMap<u32, Vec<u8>>,
}

impl ReceiverState {
    /// The reassembly buffer: decoded frame text and sequence number.
    pub open spec fn frames(&self) -> Seq<(Seq<char>, u32)> {
        frames_view(self.ascii_frames_buffer@)
    }

    /// Out-of-order text payloads by sequence number.
    pub open spec fn parked(&self) -> Map<u32, Seq<u8>> {
        Map::new(|k: u32| self.parked_text@.contains_key(k), |k: u32| self.parked_text@[k]@)
    }

    /// The same remote, counter, buffer and parked text.
    pub open spec fn same_state(&self, other: &ReceiverState) -> bool {
        &&& self.remote_addr == other.remote_addr
        &&& self.expected_sequence_number == other.expected_sequence_number
        &&& self.frames() == other.frames()
        &&& self.parked() == other.parked()
    }

    /// A receiver that accepts from `remote_addr` (or from nobody yet).
    pub fn new(remote_addr: Option<Endpoint>) -> (r: ReceiverState)
        ensures
            r.remote_addr == remote_addr,
            r.expected_sequence_number == 0,
            r.frames() == Seq::<(Seq<char>, u32)>::empty(),
            r.parked() == Map::<u32, Seq<u8>>::empty(),
    {
        let r = ReceiverState {
            remote_addr,
            expected_sequence_number: 0,
            ascii_frames_buffer: Vec::new(),
            parked_text: HashMap::new(),
        };
        assert(r.frames() =~= Seq::<(Seq<char>, u32)>::empty());
        assert(r.parked() =~= Map::<u32, Seq<u8>>::empty());
        r
    }

    /// Listening for a handshake: a HandshakeRequest, from any address,
    /// binds the remote to that address and is answered by a HandshakeAck
    /// that echoes its sequence number. Anything else changes nothing.
    pub fn accept_handshake_request(&mut self, datagram: &[u8], source: &Endpoint) -> (r: Option<
        MaspPacket,
    >)
        ensures
            final(self).expected_sequence_number == old(self).expected_sequence_number,
            final(self).frames() == old(self).frames(),
            final(self).parked() == old(self).parked(),
            match spec_parse(datagram@) {
                Ok(p) if p.packet_type == PacketType::HandshakeRequest => {
                    &&& final(self).remote_addr == Some(*source)
                    &&& r matches Some(a) && a@ == (PacketModel {
                        version: MASP_VERSION,
                        packet_type: PacketType::HandshakeAck,
                        sequence_number: p.sequence_number,
                        payload: Seq::<u8>::empty(),
                    })
                },
                _ => r is None && final(self).remote_addr == old(self).remote_addr,
            },
    {
        match MaspPacket::deserialize(datagram) {
            Ok(packet) => {
                if packet.packet_type == PacketType::HandshakeRequest {
                    self.remote_addr = Some(*source);
                    let ack = MaspPacket::new(
                        PacketType::HandshakeAck,
                        packet.sequence_number,
                        Vec::new(),
                    );
                    assert(ack.payload@ =~= Seq::<u8>::empty());
                    Some(ack)
                } else {
                    None
                }
            },
            Err(_) => None,
        }
    }

    /// Judges the datagram awaited after the HandshakeAck: the handshake
    /// completes on a HandshakeFinalAck from the bound remote.
    pub fn check_final_ack(&self, datagram: &[u8], source: &Endpoint) -> (r: Result<
        (),
        HandshakeError,
    >)
        ensures
            match self.remote_addr {
                Some(remote) => r == spec_check_reply(
                    datagram@,
                    *source,
                    remote,
                    PacketType::HandshakeFinalAck,
                ),
                None => r == Err::<(), HandshakeError>(HandshakeError::UnexpectedSource),
            },
    {
        match &self.remote_addr {
            Some(remote) => check_reply(datagram, source, remote, PacketType::HandshakeFinalAck),
            None => Err(HandshakeError::UnexpectedSource),
        }
    }

    /// One step of the receive loop. Datagrams from any address but the
    /// bound remote are dropped and change nothing; so are malformed ones.
    /// Each accepted data packet advances the expected sequence number by
    /// one; a video frame then makes its own sequence number the expected
    /// one, is decoded into the reassembly buffer and acknowledged; text out
    /// of sequence is parked and the expected number requested again.
    pub fn receive(&mut self, datagram: &[u8], source: &Endpoint) -> (r: ReceiveAction)
        requires
            datagram@.len() <= MAX_DATAGRAM_LEN,
        ensures
            final(self).remote_addr == old(self).remote_addr,
            !is_bound_remote(old(self).remote_addr, *source) ==> r is Dropped && final(self).same_state(old(self)),
            is_bound_remote(old(self).remote_addr, *source) ==> match spec_parse(datagram@) {
                Err(e) => r == ReceiveAction::Malformed(e) && final(self).same_state(old(self)),
                Ok(p) => {
                    let e = next_sequence(old(self).expected_sequence_number);
                    if p.packet_type == PacketType::VideoData {
                        &&& final(self).expected_sequence_number == p.sequence_number
                        &&& final(self).frames() == old(self).frames().push(
                            (rle_decode(p.payload), p.sequence_number),
                        )
                        &&& final(self).parked() == old(self).parked()
                        &&& r matches ReceiveAction::SendAck(a) && a@ == ack_model(
                            p.sequence_number,
                        )
                    } else if p.packet_type == PacketType::TextData {
                        &&& final(self).expected_sequence_number == e
                        &&& final(self).frames() == old(self).frames()
                        &&& if p.sequence_number == e {
                            &&& final(self).parked() == old(self).parked()
                            &&& r matches ReceiveAction::DeliverText(t) && t@ == p.payload
                        } else {
                            &&& final(self).parked() == old(self).parked().insert(
                                p.sequence_number,
                                p.payload,
                            )
                            &&& r matches ReceiveAction::RequestRetransmission(q) && q@
                                == retransmission_request_model(e)
                        }
                    } else if p.packet_type == PacketType::AudioData {
                        &&& r is Ignored
                        &&& final(self).expected_sequence_number == e
                        &&& final(self).frames() == old(self).frames()
                        &&& final(self).parked() == old(self).parked()
                    } else {
                        r is Ignored && final(self).same_state(old(self))
                    }
                },
            },
    {
        let ghost frames0 = self.frames();
        let ghost parked0 = self.parked();
        if !matches_remote(&self.remote_addr, source) {
            return ReceiveAction::Dropped;
        }
        let packet = match MaspPacket::deserialize(datagram) {
            Ok(p) => p,
            Err(e) => {
                return ReceiveAction::Malformed(e);
            },
        };
        if !packet.packet_type.is_data() {
            return ReceiveAction::Ignored;
        }
        self.expected_sequence_number = self.expected_sequence_number.wrapping_add(1);
        match packet.packet_type {
            PacketType::VideoData => {
                let sequence_number = packet.sequence_number;
                self.expected_sequence_number = sequence_number;
                let frame = decompress_ascii_image(packet.payload);
                self.ascii_frames_buffer.push((frame, sequence_number));
                assert(self.frames() =~= frames0.push((frame@, sequence_number)));
                let ack = MaspPacket::new(PacketType::Ack, 0, u32_to_be(sequence_number));
                ReceiveAction::SendAck(ack)
            },
            PacketType::TextData => {
                if packet.sequence_number == self.expected_sequence_number {
                    ReceiveAction::DeliverText(packet.payload)
                } else {
                    let sequence_number = packet.sequence_number;
                    let ghost payload = packet.payload@;
                    self.parked_text.insert(sequence_number, packet.payload);
                    assert(self.parked() =~= parked0.insert(sequence_number, payload));
                    let request = MaspPacket::new(
                        PacketType::RetransmissionRequest,
                        0,
                        u32_to_be(self.expected_sequence_number),
                    );
                    ReceiveAction::RequestRetransmission(request)
                }
            },
            _ => ReceiveAction::Ignored,
        }
    }

    /// Once the reassembly buffer holds the threshold of frames, removes and
    /// returns the text of the one with the largest sequence number.
    pub fn take_frame_to_render(&mut self) -> (r: Option<String>)
        ensures
            final(self).remote_addr == old(self).remote_addr,
            final(self).expected_sequence_number == old(self).expected_sequence_number,
            final(self).parked() == old(self).parked(),
            old(self).frames().len() < RENDER_THRESHOLD ==> r is None && final(self).frames()
                == old(self).frames(),
            old(self).frames().len() >= RENDER_THRESHOLD ==> exists|i: int|
                0 <= i < old(self).frames().len() && (r matches Some(f) && f@ == old(self).frames()[i].0) && final(self).frames() == old(self).frames().remove(i)
                    && forall|j: int|
                    0 <= j < old(self).frames().len() ==> #[trigger] old(self).frames()[j].1
                        <= old(self).frames()[i].1,
    {
        if self.ascii_frames_buffer.len() < RENDER_THRESHOLD {
            return None;
        }
        let ghost before = self.ascii_frames_buffer@;
        match take_latest_frame(&mut self.ascii_frames_buffer) {
            Some(f) => {
                let ghost i = choose|i: int|
                    0 <= i < before.len() && Some(f) == Some(before[i])
                        && self.ascii_frames_buffer@ == before.remove(i) && forall|j: int|
                        0 <= j < before.len() ==> #[trigger] before[j].1 <= before[i].1;
                assert(self.frames() =~= frames_view(before).remove(i));
                Some(f.0)
            },
            None => None,
        }
    }
}

} // verus!
