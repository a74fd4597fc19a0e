//! The client side of the Hermes Lite protocol: the requests a client
//! sends, the reading of discovery replies, and statistics over received
//! data packets.
use vstd::prelude::*;
use crate::protocol::{
    spec_be_bytes, spec_data_packet, spec_le_bytes, spec_overlay, spec_reply_bytes, spec_status_byte,
    spec_u32_be, spec_u32_le, u32_from_be, u32_from_le, lemma_be_roundtrip, lemma_le_roundtrip,
    BOARD_ID_HL2, MAGIC_DATA_RX, MAGIC_DATA_TX, PROTOCOL_VERSION, RxConfig,
};
use crate::server::{
    spec_config_after, spec_control_effect, spec_control_offsets, spec_freq_changes, spec_packet_kind, ControlEffect,
    PacketKind,
};

verus! {

/// Size of a command packet a client sends: magic, sequence and two
/// 512-byte frames.
pub const COMMAND_PACKET_LEN: usize = 1032;

/// Why a client request could not be built or a reply was refused.
#[derive(Debug, Clone, Copy, PartialEq, Eq, Structural)]
pub enum ClientError {
    /// Receiver index of twelve or more.
    InvalidRx(u8),
    /// A discovery reply shorter than 60 bytes or with the wrong magic.
    InvalidReply,
}

/// The four bytes of a request with no payload (discovery, start, stop).
pub fn magic_packet(magic: u32) -> (p: Vec<u8>)
    ensures
        p@ == spec_le_bytes(magic),
{
    let mut p: Vec<u8> = Vec::new();
    p.push((magic & 0xff) as u8);
    p.push(((magic >> 8u32) & 0xff) as u8);
    p.push(((magic >> 16u32) & 0xff) as u8);
    p.push(((magic >> 24u32) & 0xff) as u8);
    assert(p@ =~= spec_le_bytes(magic));
    p
}

/// The sync bytes that start each 512-byte frame of a packet.
pub open spec fn spec_sync() -> Seq<u8> {
    seq![0x7fu8, 0x7fu8, 0x7fu8]
}

/// The second frame's control bytes of a command packet: a transmit
/// frequency of 0 Hz, which a receive-only server ignores.
pub open spec fn spec_filler_frame() -> Seq<u8> {
    seq![0x02u8, 0u8, 0u8, 0u8, 0u8]
}

/// A command packet: a 1032-byte packet from the client (data magic,
/// sequence 0) whose first frame carries the control bytes C0..C4 = `c`
/// after its sync bytes, at byte 11, and whose second frame carries the
/// filler frame at byte 523; no IQ data.
pub open spec fn spec_command_packet(c: Seq<u8>) -> Seq<u8> {
    spec_overlay(
        spec_overlay(
            spec_overlay(
                spec_overlay(
                    spec_overlay(Seq::new(1032, |i: int| 0u8), 0, spec_le_bytes(MAGIC_DATA_TX)),
                    8,
                    spec_sync(),
                ),
                11,
                c,
            ),
            520,
            spec_sync(),
        ),
        523,
        spec_filler_frame(),
    )
}

/// The command code that selects receiver `rx` (below twelve) for a
/// frequency command: 0x02 to 0x08 for the first seven, 0x12 to 0x16 for
/// the rest. On the wire C0 carries it shifted left by one (bit 0 is MOX).
pub open spec fn spec_rx_code(rx: u8) -> u8 {
    if rx < 7 {
        (0x02 + rx) as u8
    } else {
        (0x12 + (rx - 7)) as u8
    }
}

fn command_packet(c: [u8; 5]) -> (p: Vec<u8>)
    ensures
        p@ == spec_command_packet(c@),
{
    let mut p: Vec<u8> = vec![0u8; COMMAND_PACKET_LEN];
    let magic = MAGIC_DATA_TX;
    p.set(0, (magic & 0xff) as u8);
    p.set(1, ((magic >> 8u32) & 0xff) as u8);
    p.set(2, ((magic >> 16u32) & 0xff) as u8);
    p.set(3, ((magic >> 24u32) & 0xff) as u8);
    p.set(8, 0x7f);
    p.set(9, 0x7f);
    p.set(10, 0x7f);
    p.set(520, 0x7f);
    p.set(521, 0x7f);
    p.set(522, 0x7f);
    p.set(523, 0x02);
    let mut i: usize = 0;
    while i < 5
        invariant
            i <= 5,
            p@.len() == 1032,
            forall|k: int| 0 <= k < 1032 && !(11 <= k < 11 + i) ==> p@[k] == (
            if k < 4 {
                spec_le_bytes(MAGIC_DATA_TX)[k]
            } else if 8 <= k < 11 || 520 <= k < 523 {
                0x7fu8
            } else if k == 523 {
                0x02u8
            } else {
                0u8
            }),
            forall|k: int| 0 <= k < i ==> p@[11 + k] == c@[k],
        decreases 5 - i,
    {
        p.set(11 + i, c[i]);
        i = i + 1;
    }
    assert(p@ =~= spec_command_packet(c@));
    p
}

/// The command that sets the frequency of receiver `rx_index` (below
/// twelve) to `freq_hz` (its low 32 bits, big endian in C1..C4); other
/// receiver indexes are refused.
pub fn frequency_command(rx_index: u8, freq_hz: u64) -> (r: Result<Vec<u8>, ClientError>)
    ensures
        rx_index < 12 <==> r is Ok,
        rx_index >= 12 ==> r == Err::<Vec<u8>, ClientError>(ClientError::InvalidRx(rx_index)),
        r matches Ok(p) ==> p@ == spec_command_packet(
            seq![(spec_rx_code(rx_index) << 1u8) as u8] + spec_be_bytes(freq_hz as u32),
        ),
{
    let code: u8 = if rx_index < 7 {
        0x02 + rx_index
    } else if rx_index < 12 {
        0x12 + (rx_index - 7)
    } else {
        return Err(ClientError::InvalidRx(rx_index));
    };
    let f = freq_hz as u32;
    let c = [code << 1u8, ((f >> 24u32) & 0xff) as u8, ((f >> 16u32) & 0xff) as u8, ((f >> 8u32) & 0xff) as u8, (f & 0xff) as u8];
    assert(c@ =~= seq![(spec_rx_code(rx_index) << 1u8) as u8] + spec_be_bytes(freq_hz as u32));
    Ok(command_packet(c))
}

/// The general command that sets the sample rate code (C1 bits 1..0:
/// 48, 96, 192 or 384 kHz) and the number of receivers (C4 bits 5..3 hold
/// the count minus one; a count of 0 is sent as 1).
pub fn configure_command(sample_rate_index: u8, num_receivers: u8) -> (p: Vec<u8>)
    ensures
        p@ == spec_command_packet(seq![0u8, sample_rate_index & 0x3u8, 0u8, 0u8, spec_receivers_c4(num_receivers)]),
{
    let n1: u8 = if num_receivers > 0 {
        num_receivers - 1
    } else {
        0
    };
    let c4: u8 = (n1 & 0x7u8) << 3u8;
    let c = [0u8, sample_rate_index & 0x3u8, 0u8, 0u8, c4];
    assert(c@ =~= seq![0u8, sample_rate_index & 0x3u8, 0u8, 0u8, spec_receivers_c4(num_receivers)]);
    command_packet(c)
}

/// The C4 byte that announces `n` receivers (the count minus one, in bits
/// 5..3; a count of 0 is sent as 1).
pub open spec fn spec_receivers_c4(n: u8) -> u8 {
    let n1: u8 = if n > 0 { (n - 1) as u8 } else { 0u8 };
    ((n1 & 0x7u8) << 3u8) as u8
}

proof fn lemma_command_packet_frames(c: Seq<u8>, cfg: RxConfig)
    requires
        c.len() == 5,
    ensures
        ({
            let p = spec_command_packet(c);
            &&& p.len() == 1032
            &&& p.subrange(11, 16) == c
            &&& p.subrange(523, 528) == spec_filler_frame()
            &&& spec_packet_kind(spec_u32_le(p[0], p[1], p[2], p[3])) == PacketKind::DataTx
            &&& spec_control_offsets(p.len() as int) == seq![11int, 523int]
            &&& spec_control_effect(spec_filler_frame(), cfg) == ControlEffect::Ignored
            &&& spec_config_after(spec_filler_frame(), cfg) == cfg
        }),
{
    let p = spec_command_packet(c);
    assert(p.subrange(11, 16) =~= c);
    assert(p.subrange(523, 528) =~= spec_filler_frame());
    lemma_le_roundtrip(MAGIC_DATA_TX);
    assert(p[0] == spec_le_bytes(MAGIC_DATA_TX)[0]);
    assert(p[1] == spec_le_bytes(MAGIC_DATA_TX)[1]);
    assert(p[2] == spec_le_bytes(MAGIC_DATA_TX)[2]);
    assert(p[3] == spec_le_bytes(MAGIC_DATA_TX)[3]);
    assert(0x02u8 >> 1u8 == 1u8) by (bit_vector);
}

/// The frequency changes of a command packet's two frame effects.
proof fn lemma_two_changes(e0: ControlEffect, e1: ControlEffect)
    ensures
        e1 == ControlEffect::Ignored ==> spec_freq_changes(seq![e0, e1]) == spec_freq_changes(seq![e0]),
        spec_freq_changes(seq![e0]) == (match e0 {
            ControlEffect::Frequency { rx, freq } => seq![(rx, freq)],
            _ => Seq::<(usize, u64)>::empty(),
        }),
{
    assert(seq![e0, e1].drop_last() =~= seq![e0]);
    assert(seq![e0].drop_last() =~= Seq::<ControlEffect>::empty());
    assert(spec_freq_changes(Seq::<ControlEffect>::empty()) == Seq::<(usize, u64)>::empty());
    match e0 {
        ControlEffect::Frequency { rx, freq } => {
            assert(Seq::<(usize, u64)>::empty().push((rx, freq)) =~= seq![(rx, freq)]);
        },
        _ => {},
    }
}

/// A server that receives a frequency command from the client, in either
/// configuration, reports exactly one frequency change, of that receiver
/// to that frequency, and keeps its configuration.
pub proof fn lemma_frequency_command_applies(rx: u8, freq: u32, cfg: RxConfig)
    requires
        rx < 12,
    ensures
        ({
            let p = spec_command_packet(seq![(spec_rx_code(rx) << 1u8) as u8] + spec_be_bytes(freq));
            let e0 = spec_control_effect(p.subrange(11, 16), cfg);
            let mid = spec_config_after(p.subrange(11, 16), cfg);
            let e1 = spec_control_effect(p.subrange(523, 528), mid);
            &&& p.len() == 1032
            &&& spec_packet_kind(spec_u32_le(p[0], p[1], p[2], p[3])) == PacketKind::DataTx
            &&& spec_control_offsets(p.len() as int) == seq![11int, 523int]
            &&& e0 == (ControlEffect::Frequency { rx: rx as usize, freq: freq as u64 })
            &&& e1 == ControlEffect::Ignored
            &&& spec_freq_changes(seq![e0, e1]) == seq![(rx as usize, freq as u64)]
            &&& spec_config_after(p.subrange(523, 528), mid) == cfg
        }),
{
    let code = spec_rx_code(rx);
    let c = seq![(code << 1u8) as u8] + spec_be_bytes(freq);
    lemma_command_packet_frames(c, cfg);
    assert(code < 0x80);
    assert(((code << 1u8) as u8) >> 1u8 == code) by (bit_vector)
        requires
            code < 0x80,
    ;
    lemma_be_roundtrip(freq);
    assert(c[1] == spec_be_bytes(freq)[0]);
    assert(c[2] == spec_be_bytes(freq)[1]);
    assert(c[3] == spec_be_bytes(freq)[2]);
    assert(c[4] == spec_be_bytes(freq)[3]);
    let p = spec_command_packet(c);
    let e0 = spec_control_effect(p.subrange(11, 16), cfg);
    let mid = spec_config_after(p.subrange(11, 16), cfg);
    assert(mid == cfg);
    lemma_two_changes(e0, spec_control_effect(p.subrange(523, 528), mid));
}

/// A server that receives a configure command from the client takes its
/// sample rate code and receiver count (1 to 8), with no ADC options,
/// keeps its attenuation and filter selection, and reports no frequency
/// change.
pub proof fn lemma_configure_command_applies(rate: u8, n: u8, cfg: RxConfig)
    requires
        rate <= 3,
        1 <= n <= 8,
    ensures
        ({
            let p = spec_command_packet(seq![0u8, rate & 0x3u8, 0u8, 0u8, spec_receivers_c4(n)]);
            let e0 = spec_control_effect(p.subrange(11, 16), cfg);
            let mid = spec_config_after(p.subrange(11, 16), cfg);
            let e1 = spec_control_effect(p.subrange(523, 528), mid);
            &&& p.len() == 1032
            &&& spec_packet_kind(spec_u32_le(p[0], p[1], p[2], p[3])) == PacketKind::DataTx
            &&& spec_control_offsets(p.len() as int) == seq![11int, 523int]
            &&& spec_freq_changes(seq![e0, e1]).len() == 0
            &&& spec_config_after(p.subrange(523, 528), mid) == (RxConfig {
                num_receivers: n,
                sample_rate_code: rate,
                adc_config: 0,
                ..cfg
            })
        }),
{
    let c = seq![0u8, rate & 0x3u8, 0u8, 0u8, spec_receivers_c4(n)];
    let p = spec_command_packet(c);
    let mid = spec_config_after(p.subrange(11, 16), cfg);
    lemma_command_packet_frames(c, mid);
    let n1: u8 = (n - 1) as u8;
    assert(((((n1 & 0x7u8) << 3u8) as u8) >> 3u8) & 0x7u8 == n1 && rate & 0x3u8 == rate) by (bit_vector)
        requires
            n1 < 8,
            rate <= 3,
    ;
    assert(0u8 >> 1u8 == 0u8 && (0u8 >> 2u8) & 0x3u8 == 0u8) by (bit_vector);
    let e0 = spec_control_effect(p.subrange(11, 16), cfg);
    lemma_two_changes(e0, spec_control_effect(p.subrange(523, 528), mid));
}

/// What a discovery reply announces.
#[derive(Debug, Clone, Copy)]
pub struct DiscoveryInfo {
    pub status: u8,
    pub mac: [u8; 6],
    pub board_id: u8,
    pub protocol_version: u8,
    pub num_receivers: u8,
}

/// Whether bytes are an acceptable discovery reply: at least 60 bytes
/// starting with 0xEF, 0xFE, 0x02.
pub open spec fn spec_is_reply(b: Seq<u8>) -> bool {
    b.len() >= 60 && b[0] == 0xEF && b[1] == 0xFE && b[2] == 0x02
}

/// Reads a discovery reply.
pub fn parse_discovery_reply(b: &[u8]) -> (r: Result<DiscoveryInfo, ClientError>)
    ensures
        r is Ok <==> spec_is_reply(b@),
        r is Err ==> r == Err::<DiscoveryInfo, ClientError>(ClientError::InvalidReply),
        r matches Ok(info) ==> {
            &&& info.status == b@[3]
            &&& info.mac@ == b@.subrange(4, 10)
            &&& info.board_id == b@[10]
            &&& info.protocol_version == b@[11]
            &&& info.num_receivers == b@[19]
        },
{
    if b.len() >= 60 && b[0] == 0xEF && b[1] == 0xFE && b[2] == 0x02 {
        let mac = [b[4], b[5], b[6], b[7], b[8], b[9]];
        assert(mac@ =~= b@.subrange(4, 10));
        Ok(DiscoveryInfo { status: b[3], mac, board_id: b[10], protocol_version: b[11], num_receivers: b[19] })
    } else {
        Err(ClientError::InvalidReply)
    }
}

/// A client reads back from a server's discovery reply the server's MAC
/// address, receiver count and streaming status.
pub proof fn lemma_discovery_roundtrip(mac: [u8; 6], n: u8, active: bool)
    ensures
        ({
            let b = spec_reply_bytes(mac, n, active);
            &&& spec_is_reply(b)
            &&& b[3] == spec_status_byte(active)
            &&& b.subrange(4, 10) == mac@
            &&& b[10] == BOARD_ID_HL2
            &&& b[11] == PROTOCOL_VERSION
            &&& b[19] == n
        }),
{
    let b = spec_reply_bytes(mac, n, active);
    assert(b.subrange(4, 10) =~= mac@);
}

/// Statistics over the packets a client received.
#[derive(Debug)]
pub struct DataStats {
    pub packet_count: usize,
    pub total_bytes: usize,
    pub invalid_packets: usize,
    pub dropped_packets: usize,
    pub first_seq: u32,
    pub last_seq: u32,
    pub prev_seq: u32,
}

impl Default for DataStats {
    /// All counts zero.
    fn default() -> (s: Self)
        ensures
            s == spec_zero_stats(),
    {
        DataStats {
            packet_count: 0,
            total_bytes: 0,
            invalid_packets: 0,
            dropped_packets: 0,
            first_seq: 0,
            last_seq: 0,
            prev_seq: 0,
        }
    }
}

/// Statistics before any packet.
pub open spec fn spec_zero_stats() -> DataStats {
    DataStats {
        packet_count: 0,
        total_bytes: 0,
        invalid_packets: 0,
        dropped_packets: 0,
        first_seq: 0,
        last_seq: 0,
        prev_seq: 0,
    }
}

/// Whether a packet is an IQ data packet: at least 8 bytes with the data
/// magic.
pub open spec fn spec_is_data(b: Seq<u8>) -> bool {
    b.len() >= 8 && spec_u32_le(b[0], b[1], b[2], b[3]) == MAGIC_DATA_RX
}

/// The statistics after receiving packet `b`. A data packet counts as
/// dropped-before when its sequence number is not one more than that of
/// the previous data packet, from the third packet on.
pub open spec fn spec_record(s: DataStats, b: Seq<u8>) -> DataStats {
    let count = (s.packet_count + 1) as usize;
    let bytes = (s.total_bytes + b.len()) as usize;
    if spec_is_data(b) {
        let seq = spec_u32_be(b[4], b[5], b[6], b[7]);
        let dropped = if count > 1 && seq.wrapping_sub(1) != s.prev_seq && count > 2 {
            (s.dropped_packets + 1) as usize
        } else {
            s.dropped_packets
        };
        DataStats {
            packet_count: count,
            total_bytes: bytes,
            invalid_packets: s.invalid_packets,
            dropped_packets: dropped,
            first_seq: if count == 1 { seq } else { s.first_seq },
            last_seq: seq,
            prev_seq: seq,
        }
    } else {
        DataStats {
            packet_count: count,
            total_bytes: bytes,
            invalid_packets: (s.invalid_packets + 1) as usize,
            ..s
        }
    }
}

impl DataStats {
    /// Records one received packet.
    pub fn record_packet(&mut self, packet: &[u8])
        requires
            old(self).packet_count < usize::MAX,
            old(self).total_bytes + packet@.len() <= usize::MAX,
            old(self).invalid_packets < usize::MAX,
            old(self).dropped_packets < usize::MAX,
        ensures
            *final(self) == spec_record(*old(self), packet@),
    {
        let size = packet.len();
        self.packet_count = self.packet_count + 1;
        self.total_bytes = self.total_bytes + size;
        if size >= 8 {
            let magic = u32_from_le(packet[0], packet[1], packet[2], packet[3]);
            if magic == MAGIC_DATA_RX {
                let seq = u32_from_be(packet[4], packet[5], packet[6], packet[7]);
                if self.packet_count == 1 {
                    self.first_seq = seq;
                }
                self.last_seq = seq;
                if self.packet_count > 1 {
                    let expected = self.last_seq.wrapping_sub(1);
                    if expected != self.prev_seq && self.packet_count > 2 {
                        self.dropped_packets = self.dropped_packets + 1;
                    }
                }
                self.prev_seq = seq;
            } else {
                self.invalid_packets = self.invalid_packets + 1;
            }
        } else {
            self.invalid_packets = self.invalid_packets + 1;
        }
    }
}

/// Every packet is counted, and an invalid one is counted as such.
pub proof fn lemma_record_counts(s: DataStats, b: Seq<u8>)
    requires
        s.packet_count < usize::MAX,
        s.invalid_packets < usize::MAX,
        s.total_bytes + b.len() <= usize::MAX,
    ensures
        spec_record(s, b).packet_count == s.packet_count + 1,
        spec_record(s, b).invalid_packets == s.invalid_packets + if spec_is_data(b) { 0int } else { 1int },
        spec_record(s, b).total_bytes == s.total_bytes + b.len(),
{
}

/// A data packet whose sequence number follows the previous one is not
/// counted as a drop.
pub proof fn lemma_consecutive_not_dropped(s: DataStats, b: Seq<u8>)
    requires
        spec_is_data(b),
        spec_u32_be(b[4], b[5], b[6], b[7]) == s.prev_seq.wrapping_add(1),
        s.packet_count < usize::MAX,
        s.total_bytes + b.len() <= usize::MAX,
    ensures
        spec_record(s, b).dropped_packets == s.dropped_packets,
        spec_record(s, b).prev_seq == s.prev_seq.wrapping_add(1),
{
    let p = s.prev_seq;
    assert((p.wrapping_add(1)).wrapping_sub(1) == p) by {
        if p == u32::MAX {
            assert(p.wrapping_add(1) == 0);
        }
    }
}

/// A data packet, from the third packet received on, whose sequence
/// number is not one more (modulo 2^32) than that of the previous data
/// packet counts one drop; before the third packet nothing counts as a
/// drop. The packet's sequence number becomes the last and previous one.
pub proof fn lemma_gap_counts_one_drop(s: DataStats, b: Seq<u8>)
    requires
        spec_is_data(b),
        s.packet_count < usize::MAX,
        s.dropped_packets < usize::MAX,
        s.total_bytes + b.len() <= usize::MAX,
    ensures
        ({
            let seq = spec_u32_be(b[4], b[5], b[6], b[7]);
            let after = spec_record(s, b);
            &&& s.packet_count >= 2 && seq as int != (s.prev_seq as int + 1) % 0x1_0000_0000
                ==> after.dropped_packets == s.dropped_packets + 1
            &&& (s.packet_count < 2 || seq as int == (s.prev_seq as int + 1) % 0x1_0000_0000)
                ==> after.dropped_packets == s.dropped_packets
            &&& after.last_seq == seq
            &&& after.prev_seq == seq
            &&& after.invalid_packets == s.invalid_packets
            &&& s.packet_count == 0 ==> after.first_seq == seq
            &&& s.packet_count > 0 ==> after.first_seq == s.first_seq
        }),
{
    let seq = spec_u32_be(b[4], b[5], b[6], b[7]);
    let p = s.prev_seq;
    assert((seq.wrapping_sub(1) == p) <==> (seq as int == (p as int + 1) % 0x1_0000_0000)) by {
        if seq == 0 {
            assert(seq.wrapping_sub(1) == u32::MAX);
        } else {
            assert(seq.wrapping_sub(1) == seq - 1);
        }
    }
}

/// A packet built by the server is an IQ data packet that carries the
/// builder's sequence number.
pub proof fn lemma_server_packet_is_data(sequence: u32, h: int, samples: Seq<Seq<(i32, i32)>>)
    requires
        0 <= h < 5,
    ensures
        spec_is_data(spec_data_packet(sequence, h, samples)),
        ({
            let b = spec_data_packet(sequence, h, samples);
            spec_u32_be(b[4], b[5], b[6], b[7]) == sequence
        }),
{
    let b = spec_data_packet(sequence, h, samples);
    let m = spec_le_bytes(MAGIC_DATA_RX);
    let q = spec_be_bytes(sequence);
    assert(b[0] == m[0] && b[1] == m[1] && b[2] == m[2] && b[3] == m[3]);
    assert(b[4] == q[0] && b[5] == q[1] && b[6] == q[2] && b[7] == q[3]);
    lemma_le_roundtrip(MAGIC_DATA_RX);
    lemma_be_roundtrip(sequence);
}

} // verus!
