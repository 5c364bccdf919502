//! The sender endpoint's state: sequence counter, remote endpoint and the
//! table of packets that wait for an acknowledgement. Socket work is done by
//! the caller, which hands datagrams in and writes the packets that come out.

use crate::endpoint::Endpoint;
use crate::masp::message::{
    be32_value, spec_parse, MalformedPacket, MaspPacket, PacketModel, PacketType, MASP_VERSION,
};
use std::collections::HashMap;
use vstd::std_specs::iter::IteratorSpec;
use vstd::prelude::*;

verus! {

pub const MAX_HANDSHAKE_ATTEMPTS: u8 = 3;

pub const HANDSHAKE_TIMEOUT_SECONDS: u64 = 3;

pub const RETRANSMIT_TIMEOUT_MS: u64 = 100;

pub const HOLE_PUNCHES_COUNT: u8 = 10;

pub const HOLE_PUNCH_DELAY_MS: u64 = 5;

/// The counter after one more packet: it wraps at 2^32.
pub open spec fn next_sequence(n: u32) -> u32 {
    ((n as int + 1) % 0x1_0000_0000) as u32
}

/// The counter after `k` more packets.
pub open spec fn sequence_after(n: u32, k: nat) -> u32 {
    ((n as int + k) % 0x1_0000_0000) as u32
}

/// Packets kept for retransmission: all but Ack and RetransmissionRequest,
/// which are sent once.
pub open spec fn is_tracked(t: PacketType) -> bool {
    t != PacketType::Ack && t != PacketType::RetransmissionRequest
}

/// What an acknowledgement datagram means to the sender.
#[derive(Debug, Clone, Copy, PartialEq, Eq, Structural)]
pub enum AckOutcome {
    /// An Ack for this sequence number; its entry is gone from the table.
    Acknowledged(u32),
    /// A packet of another type, ignored.
    Ignored,
    /// A datagram from another address than the remote, dropped.
    UnexpectedSource,
    /// Not a packet, or an Ack without four payload bytes; dropped.
    Malformed(MalformedPacket),
}

/// The acknowledged sequence number that a datagram carries: `Ok(None)` for
/// a packet of another type.
pub open spec fn spec_acked_sequence(b: Seq<u8>) -> Result<Option<u32>, MalformedPacket> {
    match spec_parse(b) {
        Err(e) => Err(e),
        Ok(p) => if p.packet_type != PacketType::Ack {
            Ok(None)
        } else if p.payload.len() < 4 {
            Err(MalformedPacket::ShortPayload)
        } else {
            Ok(Some(be32_value(p.payload.subrange(0, 4))))
        },
    }
}

/// Why one handshake attempt failed.
#[derive(Debug, Clone, Copy, PartialEq, Eq, Structural)]
pub enum HandshakeError {
    /// The reply came from another address than the remote.
    UnexpectedSource,
    /// The reply was not a packet.
    Malformed(MalformedPacket),
    /// The reply was a packet of the wrong type.
    UnexpectedType,
    /// No reply came in time.
    Timeout,
}

/// How a reply to a handshake step is judged: it must come from `remote`,
/// parse, and be of type `expected`.
pub open spec fn spec_check_reply(
    b: Seq<u8>,
    source: Endpoint,
    remote: Endpoint,
    expected: PacketType,
) -> Result<(), HandshakeError> {
    if source != remote {
        Err(HandshakeError::UnexpectedSource)
    } else {
        match spec_parse(b) {
            Err(e) => Err(HandshakeError::Malformed(e)),
            Ok(p) => if p.packet_type == expected {
                Ok(())
            } else {
                Err(HandshakeError::UnexpectedType)
            },
        }
    }
}

/// Judges a reply to a handshake step.
pub fn check_reply(datagram: &[u8], source: &Endpoint, remote: &Endpoint, expected: PacketType) -> (r:
    Result<(), HandshakeError>)
    ensures
        r == spec_check_reply(datagram@, *source, *remote, expected),
{
    if !source.same_as(remote) {
        return Err(HandshakeError::UnexpectedSource);
    }
    match MaspPacket::deserialize(datagram) {
        Err(e) => Err(HandshakeError::Malformed(e)),
        Ok(p) => {
            if p.packet_type == expected {
                Ok(())
            } else {
                Err(HandshakeError::UnexpectedType)
            }
        },
    }
}

/// What the initiator does after an attempt.
#[derive(Debug, Clone, Copy, PartialEq, Eq, Structural)]
pub enum HandshakeStep {
    /// The HandshakeAck came: send the HandshakeFinalAck; the session is up.
    Complete,
    /// Send another HandshakeRequest.
    Retry,
    /// Three attempts failed.
    Failed,
}

/// The initiator's count of failed attempts and the step after one more
/// attempt with the given success.
pub open spec fn spec_handshake_step(failures: u8, succeeded: bool) -> (u8, HandshakeStep) {
    if succeeded {
        (failures, HandshakeStep::Complete)
    } else if failures + 1 >= MAX_HANDSHAKE_ATTEMPTS {
        ((failures + 1) as u8, HandshakeStep::Failed)
    } else {
        ((failures + 1) as u8, HandshakeStep::Retry)
    }
}

/// The initiator's side of the three-way handshake: up to three attempts.
pub struct HandshakeAttempts {
    pub failures: u8,
}

impl HandshakeAttempts {
    pub fn new() -> (r: HandshakeAttempts)
        ensures
            r.failures == 0,
    {
        HandshakeAttempts { failures: 0 }
    }

    /// Records how an attempt ended and says what comes next. Any failure
    /// (timeout, wrong source, wrong type, malformed reply) uses up the
    /// attempt.
    pub fn record(&mut self, outcome: &Result<(), HandshakeError>) -> (r: HandshakeStep)
        requires
            old(self).failures < MAX_HANDSHAKE_ATTEMPTS,
        ensures
            (final(self).failures, r) == spec_handshake_step(old(self).failures, outcome is Ok),
    {
        match outcome {
            Ok(()) => HandshakeStep::Complete,
            Err(_) => {
                self.failures = self.failures + 1;
                if self.failures >= MAX_HANDSHAKE_ATTEMPTS {
                    HandshakeStep::Failed
                } else {
                    HandshakeStep::Retry
                }
            },
        }
    }
}

/// When no peer answers, the first two attempts are retried and the third
/// ends the handshake in failure.
pub proof fn lemma_handshake_fails_on_third_silent_attempt()
    ensures
        spec_handshake_step(0, false) == (1u8, HandshakeStep::Retry),
        spec_handshake_step(1, false) == (2u8, HandshakeStep::Retry),
        spec_handshake_step(2, false) == (3u8, HandshakeStep::Failed),
{
}

pub struct SenderState {
    pub remote_addr: Endpoint,
    pub sequence_number: u32,
    pub unacknowledged_packets: HashMap<u32, MaspPacket>,
}

impl SenderState {
    /// Each entry of the table is keyed by its own sequence number.
    pub open spec fn wf(&self) -> bool {
        forall|k: u32| #[trigger]
            self.unacknowledged_packets@.contains_key(k)
                ==> self.unacknowledged_packets@[k].sequence_number == k
    }

    /// The table's content: sequence number to packet.
    pub open spec fn table(&self) -> Map<u32, PacketModel> {
        Map::new(
            |k: u32| self.unacknowledged_packets@.contains_key(k),
            |k: u32| self.unacknowledged_packets@[k]@,
        )
    }

    pub fn new(remote_addr: Endpoint) -> (r: SenderState)
        ensures
            r.wf(),
            r.remote_addr == remote_addr,
            r.sequence_number == 0,
            r.table() == Map::<u32, PacketModel>::empty(),
    {
        let r = SenderState {
            remote_addr,
            sequence_number: 0,
            unacknowledged_packets: HashMap::new(),
        };
        assert(r.table() =~= Map::<u32, PacketModel>::empty());
        r
    }

    /// Counts one more outbound packet and builds it; every type but Ack and
    /// RetransmissionRequest is kept for retransmission under its sequence
    /// number. The caller writes the packet to the remote.
    pub fn send_data(&mut self, packet_type: PacketType, payload: Vec<u8>) -> (r: MaspPacket)
        requires
            old(self).wf(),
        ensures
            final(self).wf(),
            final(self).remote_addr == old(self).remote_addr,
            final(self).sequence_number == next_sequence(old(self).sequence_number),
            r@ == (PacketModel {
                version: MASP_VERSION,
                packet_type,
                sequence_number: final(self).sequence_number,
                payload: payload@,
            }),
            is_tracked(packet_type) ==> final(self).table() == old(self).table().insert(
                final(self).sequence_number,
                r@,
            ),
            !is_tracked(packet_type) ==> final(self).table() == old(self).table(),
    {
        self.sequence_number = self.sequence_number.wrapping_add(1);
        let packet = MaspPacket::new(packet_type, self.sequence_number, payload);
        if packet_type != PacketType::Ack && packet_type != PacketType::RetransmissionRequest {
            let ghost before = self.table();
            self.unacknowledged_packets.insert(self.sequence_number, packet.duplicate());
            assert(self.table() =~= before.insert(self.sequence_number, packet@));
        }
        packet
    }

    /// Drops the entry of an acknowledged sequence number.
    pub fn acknowledge(&mut self, sequence_number: u32)
        requires
            old(self).wf(),
        ensures
            final(self).wf(),
            final(self).remote_addr == old(self).remote_addr,
            final(self).sequence_number == old(self).sequence_number,
            final(self).table() == old(self).table().remove(sequence_number),
            !final(self).table().contains_key(sequence_number),
    {
        let ghost before = self.table();
        self.unacknowledged_packets.remove(&sequence_number);
        assert(self.table() =~= before.remove(sequence_number));
    }

    /// Consumes a datagram read from the sender's socket: an Ack from the
    /// remote removes its sequence number from the table; everything else
    /// leaves the table as it was.
    pub fn handle_acknowledgment(&mut self, datagram: &[u8], source: &Endpoint) -> (r: AckOutcome)
        requires
            old(self).wf(),
        ensures
            final(self).wf(),
            final(self).remote_addr == old(self).remote_addr,
            final(self).sequence_number == old(self).sequence_number,
            *source != old(self).remote_addr ==> r == AckOutcome::UnexpectedSource
                && final(self).table() == old(self).table(),
            *source == old(self).remote_addr ==> match spec_acked_sequence(datagram@) {
                Err(e) => r == AckOutcome::Malformed(e) && final(self).table() == old(
                    self,
                ).table(),
                Ok(None) => r == AckOutcome::Ignored && final(self).table() == old(self).table(),
                Ok(Some(s)) => r == AckOutcome::Acknowledged(s) && final(self).table() == old(
                    self,
                ).table().remove(s),
            },
    {
        if !source.same_as(&self.remote_addr) {
            return AckOutcome::UnexpectedSource;
        }
        let packet = match MaspPacket::deserialize(datagram) {
            Ok(p) => p,
            Err(e) => {
                return AckOutcome::Malformed(e);
            },
        };
        if packet.packet_type != PacketType::Ack {
            return AckOutcome::Ignored;
        }
        if packet.payload.len() < 4 {
            return AckOutcome::Malformed(MalformedPacket::ShortPayload);
        }
        let acked_sequence_number = crate::masp::message::u32_from_be(
            packet.payload[0],
            packet.payload[1],
            packet.payload[2],
            packet.payload[3],
        );
        assert(packet.payload@.subrange(0, 4) =~= seq![
            packet.payload@[0],
            packet.payload@[1],
            packet.payload@[2],
            packet.payload@[3],
        ]);
        self.acknowledge(acked_sequence_number);
        AckOutcome::Acknowledged(acked_sequence_number)
    }

    /// A copy of every packet in the table, for the retransmitter to resend.
    pub fn retransmission_batch(&self) -> (r: Vec<MaspPacket>)
        requires
            self.wf(),
        ensures
            r@.len() == self.table().dom().len(),
            forall|i: int|
                0 <= i < r@.len() ==> #[trigger] self.table().contains_key(
                    r@[i].sequence_number,
                ) && self.table()[r@[i].sequence_number] == r@[i]@,
            forall|k: u32|
                #[trigger] self.table().contains_key(k) ==> exists|i: int|
                    0 <= i < r@.len() && r@[i].sequence_number == k,
    {
        let mut out: Vec<MaspPacket> = Vec::new();
        let ghost m = self.unacknowledged_packets@;
        let ghost all = vstd::std_specs::hash::spec_values_iter(
            &self.unacknowledged_packets,
        ).remaining();
        for packet in it: self.unacknowledged_packets.values()
            invariant
                it.seq() == all,
                self.wf(),
                m == self.unacknowledged_packets@,
                it.seq().unref().to_set() == m.values(),
                it.seq().len() == m.dom().len(),
                out@.len() == it.index(),
                forall|i: int|
                    0 <= i < out@.len() ==> #[trigger] out@[i]@ == it.seq()[i]@,
        {
            out.push(packet.duplicate());
        }
        assert(self.table().dom() =~= m.dom());
        let ghost s = all.unref();
        assert forall|i: int| 0 <= i < out@.len() implies #[trigger] self.table().contains_key(
            out@[i].sequence_number,
        ) && self.table()[out@[i].sequence_number] == out@[i]@ by {
            assert(s[i] == *all[i]);
            assert(out@[i]@ == all[i]@);
            assert(s.to_set().contains(s[i]));
            assert(m.values().contains(s[i]));
            let k = choose|k: u32| m.contains_key(k) && m[k] == s[i];
            assert(m[k].sequence_number == k);
            assert(out@[i].sequence_number == k);
            assert(self.table().contains_key(k));
        }
        assert forall|k: u32| #[trigger] self.table().contains_key(k) implies exists|i: int|
            0 <= i < out@.len() && out@[i].sequence_number == k by {
            assert(m.values().contains(m[k]));
            assert(s.to_set().contains(m[k]));
            let i = choose|i: int| 0 <= i < s.len() && s[i] == m[k];
            assert(s[i] == *all[i]);
            assert(out@[i]@ == m[k]@);
        }
        out
    }

    /// Counts and builds the HandshakeRequest: it is sent like any other
    /// tracked packet, with the next sequence number and no payload.
    pub fn handshake_request(&mut self) -> (r: MaspPacket)
        requires
            old(self).wf(),
        ensures
            final(self).wf(),
            final(self).remote_addr == old(self).remote_addr,
            final(self).sequence_number == next_sequence(old(self).sequence_number),
            r@ == (PacketModel {
                version: MASP_VERSION,
                packet_type: PacketType::HandshakeRequest,
                sequence_number: final(self).sequence_number,
                payload: Seq::<u8>::empty(),
            }),
            final(self).table() == old(self).table().insert(final(self).sequence_number, r@),
    {
        let r = self.send_data(PacketType::HandshakeRequest, Vec::new());
        assert(r.payload@ =~= Seq::<u8>::empty());
        r
    }

    /// The HandshakeFinalAck: it echoes the current counter (that of the
    /// last request) and is not counted.
    pub fn handshake_final_ack(&self) -> (r: MaspPacket)
        ensures
            r@ == (PacketModel {
                version: MASP_VERSION,
                packet_type: PacketType::HandshakeFinalAck,
                sequence_number: self.sequence_number,
                payload: Seq::<u8>::empty(),
            }),
    {
        let r = MaspPacket::new(PacketType::HandshakeFinalAck, self.sequence_number, Vec::new());
        assert(r.payload@ =~= Seq::<u8>::empty());
        r
    }

    /// Judges a reply to the HandshakeRequest.
    pub fn check_handshake_ack(&self, datagram: &[u8], source: &Endpoint) -> (r: Result<
        (),
        HandshakeError,
    >)
        ensures
            r == spec_check_reply(datagram@, *source, self.remote_addr, PacketType::HandshakeAck),
    {
        check_reply(datagram, source, &self.remote_addr, PacketType::HandshakeAck)
    }
}

/// Whether one of the `n` packets counted after `start` got number `k`.
pub open spec fn counted_within(start: u32, k: u32, n: nat) -> bool {
    exists|j: int| 0 <= j < n && #[trigger] sequence_after(start, (j + 1) as nat) == k
}

/// One Punch packet of the hole-punching burst and the ports it pairs.
pub struct PunchShot {
    pub local_port: u16,
    pub remote_port: u16,
    pub packet: MaspPacket,
}

/// The number of Punch packets in a burst: ten for each of the four
/// (local, remote) port pairs.
pub open spec fn punch_burst_len() -> int {
    4 * HOLE_PUNCHES_COUNT as int
}

/// The local port of the `i`th shot: the receive port for the first ten of
/// each twenty, then the send port.
pub open spec fn punch_local_port(i: int, local_rx: u16, local_tx: u16) -> u16 {
    if (i / HOLE_PUNCHES_COUNT as int) % 2 == 0 {
        local_rx
    } else {
        local_tx
    }
}

/// The remote port of the `i`th shot: the remote receive port for the first
/// twenty, then the remote send port.
pub open spec fn punch_remote_port(i: int, remote_rx: u16, remote_tx: u16) -> u16 {
    if i < 2 * HOLE_PUNCHES_COUNT as int {
        remote_rx
    } else {
        remote_tx
    }
}

impl SenderState {
    /// The hole-punching burst: for each remote port (receive, then send)
    /// and each local port (receive, then send), ten Punch packets, each
    /// counted and kept like any other tracked packet. The remote endpoint
    /// is the same afterwards. The caller sends the shots in order, 5 ms
    /// apart.
    pub fn punch_hole(
        &mut self,
        local_rx_port: u16,
        local_tx_port: u16,
        remote_receiver_port: u16,
        remote_sender_port: u16,
    ) -> (r: Vec<PunchShot>)
        requires
            old(self).wf(),
        ensures
            final(self).wf(),
            final(self).remote_addr == old(self).remote_addr,
            final(self).sequence_number == sequence_after(
                old(self).sequence_number,
                punch_burst_len() as nat,
            ),
            r@.len() == punch_burst_len(),
            forall|i: int|
                0 <= i < r@.len() ==> {
                    &&& (#[trigger] r@[i]).local_port == punch_local_port(
                        i,
                        local_rx_port,
                        local_tx_port,
                    )
                    &&& r@[i].remote_port == punch_remote_port(
                        i,
                        remote_receiver_port,
                        remote_sender_port,
                    )
                    &&& r@[i].packet@ == (PacketModel {
                        version: MASP_VERSION,
                        packet_type: PacketType::Punch,
                        sequence_number: sequence_after(old(self).sequence_number, (i + 1) as nat),
                        payload: Seq::<u8>::empty(),
                    })
                    &&& final(self).table().contains_key(r@[i].packet.sequence_number)
                },
            forall|k: u32|
                !#[trigger] counted_within(old(self).sequence_number, k, punch_burst_len() as nat)
                    ==> (final(self).table().contains_key(k) == old(self).table().contains_key(k)
                    && (old(self).table().contains_key(k) ==> final(self).table()[k] == old(
                    self,
                ).table()[k])),
    {
        let ghost start = self.sequence_number;
        let ghost t0 = self.table();
        let mut shots: Vec<PunchShot> = Vec::new();
        let remote_ports: [u16; 2] = [remote_receiver_port, remote_sender_port];
        let local_ports: [u16; 2] = [local_rx_port, local_tx_port];
        let mut i: usize = 0;
        while i < 40
            invariant
                0 <= i <= 40,
                self.wf(),
                self.remote_addr == old(self).remote_addr,
                start == old(self).sequence_number,
                t0 == old(self).table(),
                remote_ports@ == seq![remote_receiver_port, remote_sender_port],
                local_ports@ == seq![local_rx_port, local_tx_port],
                self.sequence_number == sequence_after(start, i as nat),
                shots@.len() == i,
                forall|j: int|
                    0 <= j < i ==> {
                        &&& (#[trigger] shots@[j]).local_port == punch_local_port(
                            j,
                            local_rx_port,
                            local_tx_port,
                        )
                        &&& shots@[j].remote_port == punch_remote_port(
                            j,
                            remote_receiver_port,
                            remote_sender_port,
                        )
                        &&& shots@[j].packet@ == (PacketModel {
                            version: MASP_VERSION,
                            packet_type: PacketType::Punch,
                            sequence_number: sequence_after(start, (j + 1) as nat),
                            payload: Seq::<u8>::empty(),
                        })
                        &&& self.table().contains_key(shots@[j].packet.sequence_number)
                    },
                forall|k: u32|
                    !#[trigger] counted_within(start, k, i as nat) ==> (self.table().contains_key(k)
                        == t0.contains_key(k) && (t0.contains_key(k) ==> self.table()[k] == t0[k])),
            decreases 40 - i,
        {
            let remote_port = remote_ports[i / 20];
            let local_port = local_ports[(i / 10) % 2];
            let ghost before = self.table();
            let packet = self.send_data(PacketType::Punch, Vec::new());
            assert(packet.payload@ =~= Seq::<u8>::empty());
            shots.push(PunchShot { local_port, remote_port, packet });
            proof {
                assert forall|k: u32| !#[trigger] counted_within(start, k, (i + 1) as nat) implies !counted_within(start, k, i as nat) && k != packet.sequence_number by {
                    if counted_within(start, k, i as nat) {
                        let j = choose|j: int| 0 <= j < i && #[trigger] sequence_after(start, (j + 1) as nat) == k;
                        assert(0 <= j < i + 1 && sequence_after(start, (j + 1) as nat) == k);
                    }
                    if k == packet.sequence_number {
                        assert(0 <= i < i + 1 && sequence_after(start, (i + 1) as nat) == k);
                    }
                }
            }
            i = i + 1;
        }
        shots
    }
}

/// The table after acknowledgements of `acks`, in order.
pub open spec fn after_acks(table: Map<u32, PacketModel>, acks: Seq<u32>) -> Map<u32, PacketModel>
    decreases acks.len(),
{
    if acks.len() == 0 {
        table
    } else {
        after_acks(table, acks.drop_last()).remove(acks.last())
    }
}

/// A packet in the table stays there, unchanged, through any run of
/// acknowledgements that does not name its sequence number; each one that
/// names it leaves it out of the table.
pub proof fn lemma_unacknowledged_until_acked(
    table: Map<u32, PacketModel>,
    k: u32,
    acks: Seq<u32>,
)
    requires
        table.contains_key(k),
    ensures
        !acks.contains(k) ==> after_acks(table, acks).contains_key(k) && after_acks(table, acks)[k]
            == table[k],
        forall|i: int|
            0 <= i < acks.len() && acks[i] == k ==> !#[trigger] after_acks(
                table,
                acks.take(i + 1),
            ).contains_key(k),
    decreases acks.len(),
{
    if acks.len() > 0 {
        let init = acks.drop_last();
        lemma_unacknowledged_until_acked(table, k, init);
        if !acks.contains(k) {
            assert(!init.contains(k)) by {
                if init.contains(k) {
                    let i = choose|i: int| 0 <= i < init.len() && init[i] == k;
                    assert(acks[i] == k);
                }
            }
            assert(acks.last() != k) by {
                assert(acks[acks.len() - 1] == acks.last());
            }
        }
    }
    assert forall|i: int| 0 <= i < acks.len() && acks[i] == k implies !#[trigger] after_acks(
        table,
        acks.take(i + 1),
    ).contains_key(k) by {
        assert(acks.take(i + 1).drop_last() =~= acks.take(i));
        assert(acks.take(i + 1).last() == k);
    }
}

/// Counting packets one at a time adds up: the counter wraps at 2^32.
pub proof fn lemma_sequence_counts(n: u32, k: nat)
    ensures
        sequence_after(next_sequence(n), k) == sequence_after(n, k + 1),
        sequence_after(n, 0) == n,
        sequence_after(n, 0x1_0000_0000) == n,
{
}

/// The counter after 2^32 packets is where it started, and after one packet
/// from the largest value it is 0.
pub proof fn lemma_sequence_wraps()
    ensures
        next_sequence(0xffff_ffff) == 0,
        sequence_after(0, 0x1_0000_0000) == 0,
{
}

} // verus!
