//! Hermes Lite 2 protocol: discovery replies, control (C0..C4) frames,
//! receiver configuration and IQ data packets.
use vstd::prelude::*;

verus! {

broadcast use vstd::array::group_array_axioms;

/// Magic prefix of a discovery request (little endian on the wire).
pub const MAGIC_DISCOVERY: u32 = 0x0002feef;
/// Magic prefix of a start request.
pub const MAGIC_START: u32 = 0x0104feef;
/// Magic prefix of a stop request.
pub const MAGIC_STOP: u32 = 0x0004feef;
/// Magic prefix of a packet from the client (control frames embedded).
pub const MAGIC_DATA_TX: u32 = 0x0201feef;
/// Magic prefix of an IQ data packet to the client.
pub const MAGIC_DATA_RX: u32 = 0x0601feef;

/// Board identifier of a Hermes Lite 2.
pub const BOARD_ID_HL2: u8 = 73;
/// Protocol version announced in discovery replies.
pub const PROTOCOL_VERSION: u8 = 0x06;
/// Size of a discovery reply on the wire.
pub const DISCOVERY_REPLY_LEN: usize = 60;
/// Size of an IQ data packet on the wire.
pub const DATA_PACKET_LEN: usize = 1032;
/// Number of frame headers sent in rotation.
pub const NUM_HEADERS: usize = 5;

/// The four bytes of a value in little-endian order.
pub open spec fn spec_le_bytes(v: u32) -> Seq<u8> {
    seq![
        (v & 0xff) as u8,
        ((v >> 8u32) & 0xff) as u8,
        ((v >> 16u32) & 0xff) as u8,
        ((v >> 24u32) & 0xff) as u8,
    ]
}

/// The four bytes of a value in big-endian order.
pub open spec fn spec_be_bytes(v: u32) -> Seq<u8> {
    seq![
        ((v >> 24u32) & 0xff) as u8,
        ((v >> 16u32) & 0xff) as u8,
        ((v >> 8u32) & 0xff) as u8,
        (v & 0xff) as u8,
    ]
}

/// The value of four bytes read in little-endian order.
pub open spec fn spec_u32_le(b0: u8, b1: u8, b2: u8, b3: u8) -> u32 {
    (b0 as u32) | ((b1 as u32) << 8u32) | ((b2 as u32) << 16u32) | ((b3 as u32) << 24u32)
}

/// The value of four bytes read in big-endian order.
pub open spec fn spec_u32_be(b0: u8, b1: u8, b2: u8, b3: u8) -> u32 {
    ((b0 as u32) << 24u32) | ((b1 as u32) << 16u32) | ((b2 as u32) << 8u32) | (b3 as u32)
}

/// Reads four bytes as a little-endian value.
pub fn u32_from_le(b0: u8, b1: u8, b2: u8, b3: u8) -> (v: u32)
    ensures
        v == spec_u32_le(b0, b1, b2, b3),
{
    (b0 as u32) | ((b1 as u32) << 8u32) | ((b2 as u32) << 16u32) | ((b3 as u32) << 24u32)
}

/// Reads four bytes as a big-endian value.
pub fn u32_from_be(b0: u8, b1: u8, b2: u8, b3: u8) -> (v: u32)
    ensures
        v == spec_u32_be(b0, b1, b2, b3),
{
    ((b0 as u32) << 24u32) | ((b1 as u32) << 16u32) | ((b2 as u32) << 8u32) | (b3 as u32)
}

/// Writing a value as little-endian bytes and reading them back gives the value.
pub proof fn lemma_le_roundtrip(v: u32)
    ensures
        spec_u32_le(spec_le_bytes(v)[0], spec_le_bytes(v)[1], spec_le_bytes(v)[2], spec_le_bytes(v)[3]) == v,
{
    let b0 = (v & 0xff) as u8;
    let b1 = ((v >> 8u32) & 0xff) as u8;
    let b2 = ((v >> 16u32) & 0xff) as u8;
    let b3 = ((v >> 24u32) & 0xff) as u8;
    assert((b0 as u32) | ((b1 as u32) << 8u32) | ((b2 as u32) << 16u32) | ((b3 as u32) << 24u32) == v)
        by (bit_vector)
        requires
            b0 == (v & 0xff) as u8,
            b1 == ((v >> 8u32) & 0xff) as u8,
            b2 == ((v >> 16u32) & 0xff) as u8,
            b3 == ((v >> 24u32) & 0xff) as u8,
    ;
}

/// Writing a value as big-endian bytes and reading them back gives the value.
pub proof fn lemma_be_roundtrip(v: u32)
    ensures
        spec_u32_be(spec_be_bytes(v)[0], spec_be_bytes(v)[1], spec_be_bytes(v)[2], spec_be_bytes(v)[3]) == v,
{
    let b0 = ((v >> 24u32) & 0xff) as u8;
    let b1 = ((v >> 16u32) & 0xff) as u8;
    let b2 = ((v >> 8u32) & 0xff) as u8;
    let b3 = (v & 0xff) as u8;
    assert(((b0 as u32) << 24u32) | ((b1 as u32) << 16u32) | ((b2 as u32) << 8u32) | (b3 as u32) == v)
        by (bit_vector)
        requires
            b0 == ((v >> 24u32) & 0xff) as u8,
            b1 == ((v >> 16u32) & 0xff) as u8,
            b2 == ((v >> 8u32) & 0xff) as u8,
            b3 == (v & 0xff) as u8,
    ;
}

// ---------------------------------------------------------------------------
// Discovery reply
// ---------------------------------------------------------------------------

/// Discovery reply packet.
pub struct DiscoveryReply {
    /// 0xEF, 0xFE, 0x02, status (0x03 when a client is streaming, else 0x02).
    pub magic: [u8; 4],
    pub mac_address: [u8; 6],
    /// Board identifier (73 for a Hermes Lite 2).
    pub board_id: u8,
    pub protocol_version: u8,
    pub _reserved: [u8; 9],
    pub num_receivers: u8,
    pub _padding: [u8; 2],
}

/// The status byte of a discovery reply.
pub open spec fn spec_status_byte(active: bool) -> u8 {
    if active {
        0x03
    } else {
        0x02
    }
}

/// The 60 bytes of a discovery reply on the wire.
pub open spec fn spec_discovery_bytes(r: DiscoveryReply) -> Seq<u8> {
    Seq::new(
        60,
        |i: int|
            if i < 4 {
                r.magic@[i]
            } else if i < 10 {
                r.mac_address@[i - 4]
            } else if i == 10 {
                r.board_id
            } else if i == 11 {
                r.protocol_version
            } else if i == 19 {
                r.num_receivers
            } else {
                0u8
            },
    )
}

/// The bytes of the discovery reply of a server with MAC address `mac`,
/// `n` receivers and a client that is (or is not) streaming.
pub open spec fn spec_reply_bytes(mac: [u8; 6], n: u8, active: bool) -> Seq<u8> {
    Seq::new(
        60,
        |i: int|
            if i == 0 {
                0xEFu8
            } else if i == 1 {
                0xFEu8
            } else if i == 2 {
                0x02u8
            } else if i == 3 {
                spec_status_byte(active)
            } else if i < 10 {
                mac@[i - 4]
            } else if i == 10 {
                BOARD_ID_HL2
            } else if i == 11 {
                PROTOCOL_VERSION
            } else if i == 19 {
                n
            } else {
                0u8
            },
    )
}

/// The bytes of a freshly built discovery reply.
pub proof fn lemma_new_reply_bytes(r: DiscoveryReply, mac: [u8; 6], n: u8, active: bool)
    requires
        r.magic@ == seq![0xEFu8, 0xFEu8, 0x02u8, spec_status_byte(active)],
        r.mac_address == mac,
        r.board_id == BOARD_ID_HL2,
        r.protocol_version == PROTOCOL_VERSION,
        r.num_receivers == n,
    ensures
        spec_discovery_bytes(r) == spec_reply_bytes(mac, n, active),
{
    assert(spec_discovery_bytes(r) =~= spec_reply_bytes(mac, n, active));
}

impl DiscoveryReply {
    /// Builds the reply that announces this server.
    pub fn new(mac_address: [u8; 6], num_receivers: u8, active: bool) -> (r: Self)
        ensures
            r.magic@ == seq![0xEFu8, 0xFEu8, 0x02u8, spec_status_byte(active)],
            r.mac_address == mac_address,
            r.board_id == BOARD_ID_HL2,
            r.protocol_version == PROTOCOL_VERSION,
            r.num_receivers == num_receivers,
            r._reserved@ == Seq::new(9, |i: int| 0u8),
            r._padding@ == Seq::new(2, |i: int| 0u8),
    {
        let status: u8 = if active {
            0x03
        } else {
            0x02
        };
        let r = DiscoveryReply {
            magic: [0xEF, 0xFE, 0x02, status],
            mac_address,
            board_id: 73,
            protocol_version: 0x06,
            _reserved: [0u8; 9],
            num_receivers,
            _padding: [0u8; 2],
        };
        assert(r.magic@ =~= seq![0xEFu8, 0xFEu8, 0x02u8, spec_status_byte(active)]);
        assert(r._reserved@ =~= Seq::new(9, |i: int| 0u8));
        assert(r._padding@ =~= Seq::new(2, |i: int| 0u8));
        r
    }

    /// The reply as it is sent: magic and status, MAC address, board id,
    /// protocol version, and the receiver count at byte 19; zeros elsewhere.
    pub fn to_bytes(&self) -> (buf: [u8; 60])
        ensures
            buf@ == spec_discovery_bytes(*self),
    {
        let mut buf = [0u8; 60];
        let mut i: usize = 0;
        while i < 4
            invariant
                i <= 4,
                forall|k: int| 0 <= k < i ==> buf@[k] == self.magic@[k],
                forall|k: int| i <= k < 60 ==> buf@[k] == 0u8,
            decreases 4 - i,
        {
            buf[i] = self.magic[i];
            i = i + 1;
        }
        let mut j: usize = 0;
        while j < 6
            invariant
                j <= 6,
                forall|k: int| 0 <= k < 4 ==> buf@[k] == self.magic@[k],
                forall|k: int| 0 <= k < j ==> buf@[4 + k] == self.mac_address@[k],
                forall|k: int| 4 + j <= k < 60 ==> buf@[k] == 0u8,
            decreases 6 - j,
        {
            buf[4 + j] = self.mac_address[j];
            j = j + 1;
        }
        buf[10] = self.board_id;
        buf[11] = self.protocol_version;
        buf[19] = self.num_receivers;
        assert(buf@ =~= spec_discovery_bytes(*self));
        buf
    }
}

// ---------------------------------------------------------------------------
// Control frames
// ---------------------------------------------------------------------------

/// Command carried by the C0 byte of a control frame.
#[derive(Debug, Clone, Copy, PartialEq, Eq, Structural)]
pub enum CommandType {
    /// 0x00: sample rate, receivers, ADC configuration.
    General,
    /// 0x01: TX NCO frequency.
    TxFreq,
    /// 0x02-0x08 and 0x12-0x16: NCO frequency of receiver 1 to 12.
    RxFreq(usize),
    /// 0x09: TX drive, VNA, PA, filters.
    LpfSelect,
    /// 0x0a: LNA gain / attenuation.
    Attenuation,
    /// 0x0b-0x0d.
    TxGainPtt,
    /// 0x0e: LNA gain during TX.
    LnaGainTx,
    /// 0x0f: CWX enable.
    CwConfig,
    /// 0x10: CW hang time.
    CwHangTime,
    /// 0x17: PTT hang time and TX buffer latency.
    PttLatency,
    /// 0x2b: predistortion.
    Predistortion,
    /// 0x39: watchdog, receiver locking, sync, clock.
    MiscCommands,
    /// 0x3a: reset on disconnect.
    ResetOnDisconnect,
    /// 0x3b: AD9866 SPI access.
    Ad9866Spi,
    /// 0x3c: I2C bus 1.
    I2c1,
    /// 0x3d: I2C bus 2 (filter board).
    I2c2,
    /// 0x3f: error responses.
    ErrorResponse,
    /// Reserved or unknown codes.
    Unknown(u8),
}

/// The command named by a 6-bit command code.
pub open spec fn spec_command_type(raw: u8) -> CommandType {
    if raw == 0x00 {
        CommandType::General
    } else if raw == 0x01 {
        CommandType::TxFreq
    } else if 0x02 <= raw <= 0x08 {
        CommandType::RxFreq((raw - 0x02) as usize)
    } else if raw == 0x09 {
        CommandType::LpfSelect
    } else if raw == 0x0a {
        CommandType::Attenuation
    } else if 0x0b <= raw <= 0x0d {
        CommandType::TxGainPtt
    } else if raw == 0x0e {
        CommandType::LnaGainTx
    } else if raw == 0x0f {
        CommandType::CwConfig
    } else if raw == 0x10 {
        CommandType::CwHangTime
    } else if 0x12 <= raw <= 0x16 {
        CommandType::RxFreq((raw - 0x12 + 7) as usize)
    } else if raw == 0x17 {
        CommandType::PttLatency
    } else if raw == 0x2b {
        CommandType::Predistortion
    } else if raw == 0x39 {
        CommandType::MiscCommands
    } else if raw == 0x3a {
        CommandType::ResetOnDisconnect
    } else if raw == 0x3b {
        CommandType::Ad9866Spi
    } else if raw == 0x3c {
        CommandType::I2c1
    } else if raw == 0x3d {
        CommandType::I2c2
    } else if raw == 0x3f {
        CommandType::ErrorResponse
    } else {
        CommandType::Unknown(raw)
    }
}

/// The command code a client puts in C0 to set the frequency of receiver `rx`.
pub open spec fn spec_rx_freq_code(rx: int) -> int {
    if rx < 7 {
        0x02 + rx
    } else {
        0x12 + (rx - 7)
    }
}

impl CommandType {
    /// Decodes a 6-bit command code (C0 shifted right by one).
    pub fn from_raw(raw: u8) -> (c: Self)
        ensures
            c == spec_command_type(raw),
    {
        match raw {
            0x00 => CommandType::General,
            0x01 => CommandType::TxFreq,
            0x02..=0x08 => CommandType::RxFreq((raw - 0x02) as usize),
            0x09 => CommandType::LpfSelect,
            0x0a => CommandType::Attenuation,
            0x0b..=0x0d => CommandType::TxGainPtt,
            0x0e => CommandType::LnaGainTx,
            0x0f => CommandType::CwConfig,
            0x10 => CommandType::CwHangTime,
            0x11 => CommandType::Unknown(raw),
            0x12 => CommandType::RxFreq(7),
            0x13 => CommandType::RxFreq(8),
            0x14 => CommandType::RxFreq(9),
            0x15 => CommandType::RxFreq(10),
            0x16 => CommandType::RxFreq(11),
            0x17 => CommandType::PttLatency,
            0x18..=0x2a => CommandType::Unknown(raw),
            0x2b => CommandType::Predistortion,
            0x2c..=0x38 => CommandType::Unknown(raw),
            0x39 => CommandType::MiscCommands,
            0x3a => CommandType::ResetOnDisconnect,
            0x3b => CommandType::Ad9866Spi,
            0x3c => CommandType::I2c1,
            0x3d => CommandType::I2c2,
            0x3e => CommandType::Unknown(raw),
            0x3f => CommandType::ErrorResponse,
            other => CommandType::Unknown(other),
        }
    }
}

/// Every receiver-frequency command names one of the twelve receivers.
pub proof fn lemma_rx_freq_index_bounded(raw: u8)
    ensures
        spec_command_type(raw) matches CommandType::RxFreq(i) ==> i < 12,
{
}

/// The code a client uses for receiver `rx` decodes to that receiver.
pub proof fn lemma_rx_freq_code_roundtrip(rx: int)
    requires
        0 <= rx < 12,
    ensures
        spec_command_type(spec_rx_freq_code(rx) as u8) == CommandType::RxFreq(rx as usize),
{
}

/// Parsed control frame: the command and the four payload bytes C1..C4.
#[derive(Debug)]
pub struct ControlPacket {
    pub cmd_type: CommandType,
    pub data: [u8; 4],
}

impl ControlPacket {
    /// Parses a five-byte control frame; shorter frames give `None`.
    /// The command code is C0 without its lowest (MOX) bit.
    pub fn parse(frame: &[u8]) -> (p: Option<Self>)
        ensures
            p is Some <==> frame@.len() >= 5,
            p matches Some(pk) ==> {
                &&& pk.cmd_type == spec_command_type(frame@[0] >> 1u8)
                &&& pk.data@ == frame@.subrange(1, 5)
            },
    {
        if frame.len() < 5 {
            return None;
        }
        let raw = frame[0] >> 1u8;
        let p = ControlPacket {
            cmd_type: CommandType::from_raw(raw),
            data: [frame[1], frame[2], frame[3], frame[4]],
        };
        assert(p.data@ =~= frame@.subrange(1, 5));
        Some(p)
    }
}

// ---------------------------------------------------------------------------
// Receiver configuration
// ---------------------------------------------------------------------------

/// Receiver configuration carried by general control frames.
#[derive(Debug, Clone, Copy, PartialEq, Eq, Structural)]
pub struct RxConfig {
    pub num_receivers: u8,
    /// 0 = 48 kHz, 1 = 96 kHz, 2 = 192 kHz, 3 = 384 kHz.
    pub sample_rate_code: u8,
    pub adc_config: u8,
    /// Last received attenuation value.
    pub attenuation_db: u8,
    /// Last received LPF selection code.
    pub lpf_select: u8,
}

impl Default for RxConfig {
    /// One receiver at 48 kHz.
    fn default() -> (c: Self)
        ensures
            c == spec_default_config(),
    {
        RxConfig { num_receivers: 1, sample_rate_code: 0, adc_config: 0, attenuation_db: 0, lpf_select: 0 }
    }
}

/// The configuration before any client sent one: one receiver at 48 kHz.
pub open spec fn spec_default_config() -> RxConfig {
    RxConfig { num_receivers: 1, sample_rate_code: 0, adc_config: 0, attenuation_db: 0, lpf_select: 0 }
}

/// The configuration a general frame with payload C1..C4 = d0..d3 sets.
pub open spec fn spec_general_config(d0: u8, d2: u8, d3: u8) -> RxConfig {
    RxConfig {
        num_receivers: (((d3 >> 3u8) & 0x7u8) + 1) as u8,
        sample_rate_code: d0 & 0x3u8,
        adc_config: (d2 >> 2u8) & 0x3u8,
        attenuation_db: 0,
        lpf_select: 0,
    }
}

/// Decimation from 61.44 MHz for a sample rate code.
pub open spec fn spec_decimation(code: u8) -> u16 {
    if code == 1 {
        640
    } else if code == 2 {
        320
    } else if code == 3 {
        160
    } else {
        1280
    }
}

/// Output sample rate in Hz for a sample rate code.
pub open spec fn spec_sample_rate(code: u8) -> u32 {
    if code == 1 {
        96_000
    } else if code == 2 {
        192_000
    } else if code == 3 {
        384_000
    } else {
        48_000
    }
}

impl RxConfig {
    /// Decodes the payload of a general control frame; fewer than four
    /// bytes give `None`.
    pub fn parse_general_packet(data: &[u8]) -> (c: Option<Self>)
        ensures
            c is Some <==> data@.len() >= 4,
            c matches Some(cfg) ==> cfg == spec_general_config(data@[0], data@[2], data@[3]),
    {
        if data.len() < 4 {
            return None;
        }
        let d3 = data[3];
        assert((d3 >> 3u8) & 0x7u8 <= 7) by (bit_vector);
        Some(
            RxConfig {
                num_receivers: ((data[3] >> 3u8) & 0x7u8) + 1,
                sample_rate_code: data[0] & 0x3u8,
                adc_config: (data[2] >> 2u8) & 0x3u8,
                attenuation_db: 0,
                lpf_select: 0,
            },
        )
    }

    /// Decimation factor for the configured sample rate.
    pub fn get_decimation(&self) -> (d: u16)
        ensures
            d == spec_decimation(self.sample_rate_code),
    {
        match self.sample_rate_code {
            0 => 1280,
            1 => 640,
            2 => 320,
            3 => 160,
            _ => 1280,
        }
    }

    /// Output sample rate in Hz.
    pub fn get_sample_rate(&self) -> (r: u32)
        ensures
            r == spec_sample_rate(self.sample_rate_code),
    {
        match self.sample_rate_code {
            0 => 48_000,
            1 => 96_000,
            2 => 192_000,
            3 => 384_000,
            _ => 48_000,
        }
    }
}

/// A general frame announces between one and eight receivers.
pub proof fn lemma_general_receivers_bounded(d0: u8, d2: u8, d3: u8)
    ensures
        1 <= spec_general_config(d0, d2, d3).num_receivers <= 8,
        spec_general_config(d0, d2, d3).sample_rate_code <= 3,
{
    assert((d3 >> 3u8) & 0x7u8 <= 7) by (bit_vector);
    assert(d0 & 0x3u8 <= 3) by (bit_vector);
}

/// Output rate times decimation is always the 61.44 MHz converter clock.
pub proof fn lemma_rate_times_decimation(code: u8)
    ensures
        spec_sample_rate(code) * spec_decimation(code) == 61_440_000,
{
    if code == 1 {
        assert(96_000 * 640 == 61_440_000) by (nonlinear_arith);
    } else if code == 2 {
        assert(192_000 * 320 == 61_440_000) by (nonlinear_arith);
    } else if code == 3 {
        assert(384_000 * 160 == 61_440_000) by (nonlinear_arith);
    } else {
        assert(48_000 * 1280 == 61_440_000) by (nonlinear_arith);
    }
}

// ---------------------------------------------------------------------------
// IQ data packets
// ---------------------------------------------------------------------------

/// The frame header with index `idx` in the rotation.
pub open spec fn spec_header(idx: int) -> Seq<u8> {
    if idx == 0 {
        seq![127u8, 127, 127, 0, 0, 33, 17, 25]
    } else if idx == 1 {
        seq![127u8, 127, 127, 8, 0, 0, 0, 0]
    } else if idx == 2 {
        seq![127u8, 127, 127, 16, 0, 0, 0, 0]
    } else if idx == 3 {
        seq![127u8, 127, 127, 24, 0, 0, 0, 0]
    } else {
        seq![127u8, 127, 127, 32, 66, 66, 66, 66]
    }
}

/// The frame header with index `idx` (`idx < 5`) in the rotation.
pub fn frame_header(idx: usize) -> (h: [u8; 8])
    requires
        idx < NUM_HEADERS,
    ensures
        h@ == spec_header(idx as int),
{
    let h: [u8; 8] = if idx == 0 {
        [127, 127, 127, 0, 0, 33, 17, 25]
    } else if idx == 1 {
        [127, 127, 127, 8, 0, 0, 0, 0]
    } else if idx == 2 {
        [127, 127, 127, 16, 0, 0, 0, 0]
    } else if idx == 3 {
        [127, 127, 127, 24, 0, 0, 0, 0]
    } else {
        [127, 127, 127, 32, 66, 66, 66, 66]
    };
    assert(h@ =~= spec_header(idx as int));
    h
}

/// The low 24 bits of a sample value, most significant byte first.
pub open spec fn spec_i24_bytes(v: i32) -> Seq<u8> {
    seq![
        (((v as u32) >> 16u32) & 0xff) as u8,
        (((v as u32) >> 8u32) & 0xff) as u8,
        ((v as u32) & 0xff) as u8,
    ]
}

/// The signed value of three bytes, most significant first, read as a
/// 24-bit two's-complement number.
pub open spec fn spec_i24_value(b: Seq<u8>) -> int {
    let u = b[0] as int * 0x1_0000 + b[1] as int * 0x100 + b[2] as int;
    if u >= 0x80_0000 {
        u - 0x100_0000
    } else {
        u
    }
}

/// A sample value in the 24-bit range is read back unchanged from the three
/// bytes it is sent as.
pub proof fn lemma_i24_roundtrip(v: i32)
    requires
        -0x80_0000 <= v < 0x80_0000,
    ensures
        spec_i24_value(spec_i24_bytes(v)) == v,
{
    let u = v as u32;
    let b0 = ((u >> 16u32) & 0xff) as u8;
    let b1 = ((u >> 8u32) & 0xff) as u8;
    let b2 = (u & 0xff) as u8;
    assert(b0 as u32 * 0x1_0000 + b1 as u32 * 0x100 + b2 as u32 == u & 0xff_ffff) by (bit_vector)
        requires
            b0 == ((u >> 16u32) & 0xff) as u8,
            b1 == ((u >> 8u32) & 0xff) as u8,
            b2 == (u & 0xff) as u8,
    ;
    if v >= 0 {
        assert(u & 0xff_ffff == u && u < 0x80_0000) by (bit_vector)
            requires
                u == v as u32,
                0 <= v < 0x80_0000,
        ;
    } else {
        assert((u & 0xff_ffff) >= 0x80_0000 && (u & 0xff_ffff) as i32 == v + 0x100_0000) by (bit_vector)
            requires
                u == v as u32,
                -0x80_0000 <= v < 0,
        ;
    }
}

/// The six bytes of one IQ sample: I then Q, 24 bits each.
pub open spec fn spec_sample_bytes(s: (i32, i32)) -> Seq<u8> {
    spec_i24_bytes(s.0) + spec_i24_bytes(s.1)
}

/// The bytes of a run of IQ samples written one after another.
pub open spec fn spec_encode(e: Seq<(i32, i32)>) -> Seq<u8>
    decreases e.len(),
{
    if e.len() == 0 {
        Seq::empty()
    } else {
        spec_encode(e.drop_last()) + spec_sample_bytes(e.last())
    }
}

/// The samples at global index `g` of the first `r` receivers that have one,
/// in receiver order.
pub open spec fn spec_row(samples: Seq<Seq<(i32, i32)>>, g: int, r: nat) -> Seq<(i32, i32)>
    decreases r,
{
    if r == 0 {
        Seq::empty()
    } else {
        let prev = spec_row(samples, g, (r - 1) as nat);
        if g < samples[r - 1].len() {
            prev.push(samples[r - 1][g])
        } else {
            prev
        }
    }
}

/// The samples that frame `f` carries for its first `s` sample slots,
/// `per_frame` slots per frame, receivers interleaved.
pub open spec fn spec_frame_entries(
    samples: Seq<Seq<(i32, i32)>>,
    f: int,
    per_frame: int,
    s: nat,
) -> Seq<(i32, i32)>
    decreases s,
{
    if s == 0 {
        Seq::empty()
    } else {
        spec_frame_entries(samples, f, per_frame, (s - 1) as nat) + spec_row(
            samples,
            f * per_frame + s - 1,
            samples.len(),
        )
    }
}

/// Sample slots a 504-byte frame payload holds for `n` receivers, at six
/// bytes per receiver: 84 for one receiver, 42 for two, down to 7 for
/// twelve (none for no receiver).
pub open spec fn spec_slots(n: int) -> int {
    if n <= 0 {
        0
    } else {
        504int / (6 * n)
    }
}

pub(crate) proof fn lemma_no_slots_past(n: int)
    ensures
        n > 84 ==> spec_slots(n) == 0,
{
    if n > 84 {
        assert(504int / (6 * n) == 0) by (nonlinear_arith)
            requires
                n > 84,
        ;
    }
}

/// Sample slots per frame: half the sample count of the first receiver, at
/// most what a frame holds for this many receivers.
pub open spec fn spec_per_frame(samples: Seq<Seq<(i32, i32)>>) -> int {
    if samples.len() == 0 {
        0
    } else {
        let half = samples[0].len() as int / 2;
        let slots = spec_slots(samples.len() as int);
        if half < slots {
            half
        } else {
            slots
        }
    }
}

/// The samples frame `f` (0 or 1) of a packet carries.
pub open spec fn spec_frame(samples: Seq<Seq<(i32, i32)>>, f: int) -> Seq<(i32, i32)> {
    spec_frame_entries(samples, f, spec_per_frame(samples), spec_per_frame(samples) as nat)
}

/// `buf` with `data` written at offset `off`.
pub open spec fn spec_overlay(buf: Seq<u8>, off: int, data: Seq<u8>) -> Seq<u8> {
    Seq::new(buf.len(), |i: int| if off <= i < off + data.len() { data[i - off] } else { buf[i] })
}

/// Both frames of a packet fit: the samples of frame 0 fit between byte 16
/// and the end of the packet, those of frame 1 between byte 528 and the end.
pub open spec fn spec_packet_fits(samples: Seq<Seq<(i32, i32)>>) -> bool {
    &&& 16 + 6 * spec_frame(samples, 0).len() <= 1032
    &&& 528 + 6 * spec_frame(samples, 1).len() <= 1032
}

/// The 1032-byte data packet with sequence number `sequence`, whose frames
/// use headers `h` and `(h + 1) % 5`: magic, sequence (big endian), then two
/// frames of 512 bytes, each an 8-byte header followed by its samples.
/// Samples that overrun frame 0 are overwritten by frame 1 as it is written.
pub open spec fn spec_data_packet(sequence: u32, h: int, samples: Seq<Seq<(i32, i32)>>) -> Seq<u8> {
    let p0 = Seq::new(1032, |i: int| 0u8);
    let p1 = spec_overlay(p0, 0, spec_le_bytes(MAGIC_DATA_RX));
    let p2 = spec_overlay(p1, 4, spec_be_bytes(sequence));
    let p3 = spec_overlay(p2, 8, spec_header(h));
    let p4 = spec_overlay(p3, 16, spec_encode(spec_frame(samples, 0)));
    let p5 = spec_overlay(p4, 520, spec_header((h + 1) % 5));
    spec_overlay(p5, 528, spec_encode(spec_frame(samples, 1)))
}

proof fn lemma_single_frame_entries(s: Seq<(i32, i32)>, f: int, k: nat)
    requires
        s.len() == 126,
        0 <= f <= 1,
        k <= 63,
    ensures
        spec_frame_entries(seq![s], f, 63, k) == s.subrange(63 * f, 63 * f + k),
    decreases k,
{
    if k > 0 {
        lemma_single_frame_entries(s, f, (k - 1) as nat);
        let g = f * 63 + k - 1;
        assert(spec_row(seq![s], g, 0) == Seq::<(i32, i32)>::empty());
        assert(spec_row(seq![s], g, 1) == seq![s[g]]);
        assert(s.subrange(63 * f, 63 * f + k - 1).push(s[g]) =~= s.subrange(63 * f, 63 * f + k));
    }
}

/// With one receiver and 126 samples, a packet carries the samples in
/// order: the first 63 in frame 0, the next 63 in frame 1.
pub proof fn lemma_single_receiver_frames(s: Seq<(i32, i32)>)
    requires
        s.len() == 126,
    ensures
        spec_frame(seq![s], 0) == s.take(63),
        spec_frame(seq![s], 1) == s.subrange(63, 126),
{
    lemma_single_frame_entries(s, 0, 63);
    lemma_single_frame_entries(s, 1, 63);
    assert(s.subrange(0, 63) =~= s.take(63));
}

/// Every data packet is 1032 bytes long.
pub proof fn lemma_data_packet_len(sequence: u32, h: int, samples: Seq<Seq<(i32, i32)>>)
    ensures
        spec_data_packet(sequence, h, samples).len() == DATA_PACKET_LEN,
{
}

/// Encoded samples take six bytes each (24-bit I, then 24-bit Q).
pub proof fn lemma_encode_len(e: Seq<(i32, i32)>)
    ensures
        spec_encode(e).len() == 6 * e.len(),
    decreases e.len(),
{
    if e.len() > 0 {
        lemma_encode_len(e.drop_last());
    }
}

proof fn lemma_encode_push(e: Seq<(i32, i32)>, x: (i32, i32))
    ensures
        spec_encode(e.push(x)) == spec_encode(e) + spec_sample_bytes(x),
{
    assert(e.push(x).drop_last() =~= e);
}

proof fn lemma_row_len_mono(samples: Seq<Seq<(i32, i32)>>, g: int, r1: nat, r2: nat)
    requires
        r1 <= r2 <= samples.len(),
    ensures
        spec_row(samples, g, r1).len() <= spec_row(samples, g, r2).len(),
    decreases r2,
{
    if r1 < r2 {
        lemma_row_len_mono(samples, g, r1, (r2 - 1) as nat);
    }
}

proof fn lemma_frame_len_mono(samples: Seq<Seq<(i32, i32)>>, f: int, pf: int, s1: nat, s2: nat)
    requires
        s1 <= s2,
    ensures
        spec_frame_entries(samples, f, pf, s1).len() <= spec_frame_entries(samples, f, pf, s2).len(),
    decreases s2,
{
    if s1 < s2 {
        lemma_frame_len_mono(samples, f, pf, s1, (s2 - 1) as nat);
    }
}

proof fn lemma_row_len_le(samples: Seq<Seq<(i32, i32)>>, g: int, r: nat)
    ensures
        spec_row(samples, g, r).len() <= r,
    decreases r,
{
    if r > 0 {
        lemma_row_len_le(samples, g, (r - 1) as nat);
    }
}

proof fn lemma_frame_entries_len_le(samples: Seq<Seq<(i32, i32)>>, f: int, pf: int, s: nat)
    ensures
        spec_frame_entries(samples, f, pf, s).len() <= s * samples.len(),
    decreases s,
{
    if s > 0 {
        lemma_frame_entries_len_le(samples, f, pf, (s - 1) as nat);
        lemma_row_len_le(samples, f * pf + s - 1, samples.len());
        assert((s - 1) * samples.len() + samples.len() == s * samples.len()) by (nonlinear_arith);
    }
}

/// The samples of every packet fit in their frames: each frame carries at
/// most 504 bytes of samples, whatever the receivers hand over.
pub proof fn lemma_packet_fits(samples: Seq<Seq<(i32, i32)>>)
    ensures
        spec_packet_fits(samples),
        6 * spec_frame(samples, 0).len() <= 504,
        6 * spec_frame(samples, 1).len() <= 504,
{
    let n = samples.len() as int;
    let pf = spec_per_frame(samples);
    if n > 0 {
        lemma_frame_entries_len_le(samples, 0, pf, pf as nat);
        lemma_frame_entries_len_le(samples, 1, pf, pf as nat);
        let sl = 504int / (6 * n);
        assert(sl * (6 * n) <= 504) by (nonlinear_arith)
            requires
                sl == 504int / (6 * n),
                n >= 1,
        ;
        assert(6 * (pf * n) <= 504) by (nonlinear_arith)
            requires
                0 <= pf <= sl,
                sl * (6 * n) <= 504,
                n >= 1,
        ;
    }
}

/// Sequence number of the `n`-th packet (from 0) of a fresh builder: each
/// `build_packet` adds one, wrapping.
pub open spec fn spec_nth_sequence(n: nat) -> u32
    decreases n,
{
    if n == 0 {
        0
    } else {
        spec_nth_sequence((n - 1) as nat).wrapping_add(1)
    }
}

/// Header index the `n`-th packet (from 0) of a fresh builder starts with:
/// each `build_packet` advances it by two, modulo five.
pub open spec fn spec_nth_header(n: nat) -> int
    decreases n,
{
    if n == 0 {
        0
    } else {
        (spec_nth_header((n - 1) as nat) + 2) % 5
    }
}

/// The packets of a fresh builder (sequence 0, header 0, as `new` makes
/// it), whatever their samples: `build_packet` takes the builder from the
/// state of the `n`-th packet to that of the next, and the `n`-th packet
/// carries the data magic and sequence number `n` (modulo 2^32), its first
/// frame header (2n) mod 5 and its second (2n + 1) mod 5.
pub proof fn lemma_packet_run(n: nat, samples: Seq<Seq<(i32, i32)>>)
    ensures
        spec_nth_sequence(0) == 0 && spec_nth_header(0) == 0,
        spec_nth_sequence(n + 1) == spec_nth_sequence(n).wrapping_add(1),
        spec_nth_header(n + 1) == (spec_nth_header(n) + 2) % 5,
        spec_nth_sequence(n) as int == n % 0x1_0000_0000,
        spec_nth_header(n) == (2 * n) % 5,
        ({
            let p = spec_data_packet(spec_nth_sequence(n), spec_nth_header(n), samples);
            &&& p.len() == DATA_PACKET_LEN
            &&& p.subrange(0, 4) == spec_le_bytes(MAGIC_DATA_RX)
            &&& p.subrange(4, 8) == spec_be_bytes(spec_nth_sequence(n))
            &&& p.subrange(8, 16) == spec_header(((2 * n) % 5) as int)
            &&& p.subrange(520, 528) == spec_header(((2 * n + 1) % 5) as int)
        }),
    decreases n,
{
    if n > 0 {
        lemma_packet_run((n - 1) as nat, samples);
        let m = (n - 1) as int;
        assert((m % 0x1_0000_0000 + 1 > 0xffff_ffff ==> (m % 0x1_0000_0000 + 1 - 0x1_0000_0000) == n
            % 0x1_0000_0000) && (m % 0x1_0000_0000 + 1 <= 0xffff_ffff ==> m % 0x1_0000_0000 + 1 == n
            % 0x1_0000_0000)) by (nonlinear_arith)
            requires
                m >= 0,
                n == m + 1,
        ;
        assert(((2 * m) % 5 + 2) % 5 == (2 * n) % 5) by (nonlinear_arith)
            requires
                m >= 0,
                n == m + 1,
        ;
    }
    let h = spec_nth_header(n);
    assert((h + 1) % 5 == (2 * n + 1) % 5) by (nonlinear_arith)
        requires
            h == (2 * n) % 5,
    ;
    lemma_packet_fits(samples);
    lemma_encode_len(spec_frame(samples, 0));
    lemma_encode_len(spec_frame(samples, 1));
    let p = spec_data_packet(spec_nth_sequence(n), h, samples);
    assert(p.subrange(0, 4) =~= spec_le_bytes(MAGIC_DATA_RX));
    assert(p.subrange(4, 8) =~= spec_be_bytes(spec_nth_sequence(n)));
    assert(p.subrange(8, 16) =~= spec_header(h));
    assert(p.subrange(520, 528) =~= spec_header((h + 1) % 5));
}

/// Builder of IQ data packets; keeps the sequence number and the header
/// rotation between packets.
pub struct DataPacketBuilder {
    sequence: u32,
    header_idx: usize,
}

impl DataPacketBuilder {
    #[verifier::type_invariant]
    spec fn inv(self) -> bool {
        self.header_idx < NUM_HEADERS
    }

    /// Sequence number of the next packet.
    pub closed spec fn spec_sequence(&self) -> u32 {
        self.sequence
    }

    /// Header index the next packet starts with.
    pub closed spec fn spec_header_idx(&self) -> int {
        self.header_idx as int
    }

    /// A builder whose first packet has sequence number 0 and header 0.
    pub fn new() -> (b: Self)
        ensures
            b.spec_sequence() == 0,
            b.spec_header_idx() == 0,
    {
        DataPacketBuilder { sequence: 0, header_idx: 0 }
    }

    /// Builds one 1032-byte packet from the IQ samples of each receiver
    /// (receivers interleaved per sample slot; each frame has half of the
    /// first receiver's samples, at most as many slots as its 504-byte
    /// payload holds for this many receivers), then advances the sequence
    /// number (wrapping) and the header rotation by two.
    pub fn build_packet(&mut self, samples: &[Vec<(i32, i32)>]) -> (packet: Vec<u8>)
        ensures
            packet@ == spec_data_packet(
                old(self).spec_sequence(),
                old(self).spec_header_idx(),
                samples@.map_values(|v: Vec<(i32, i32)>| v@),
            ),
            final(self).spec_sequence() == old(self).spec_sequence().wrapping_add(1),
            final(self).spec_header_idx() == (old(self).spec_header_idx() + 2) % 5,
    {
        proof {
            use_type_invariant(&*self);
        }
        let ghost ss = samples@.map_values(|v: Vec<(i32, i32)>| v@);
        let ghost seq0 = self.sequence;
        let ghost h0 = self.header_idx as int;
        let mut packet: Vec<u8> = vec![0u8; 1032];
        let ghost p0 = packet@;
        assert(p0 =~= Seq::new(1032, |i: int| 0u8));
        // magic, little endian
        let magic = MAGIC_DATA_RX;
        packet.set(0, (magic & 0xff) as u8);
        packet.set(1, ((magic >> 8u32) & 0xff) as u8);
        packet.set(2, ((magic >> 16u32) & 0xff) as u8);
        packet.set(3, ((magic >> 24u32) & 0xff) as u8);
        assert(packet@ =~= spec_overlay(p0, 0, spec_le_bytes(MAGIC_DATA_RX)));
        let ghost p1 = packet@;
        // sequence number, big endian
        let sq = self.sequence;
        packet.set(4, ((sq >> 24u32) & 0xff) as u8);
        packet.set(5, ((sq >> 16u32) & 0xff) as u8);
        packet.set(6, ((sq >> 8u32) & 0xff) as u8);
        packet.set(7, (sq & 0xff) as u8);
        assert(packet@ =~= spec_overlay(p1, 4, spec_be_bytes(seq0)));
        self.sequence = self.sequence.wrapping_add(1);
        let num_receivers = samples.len();
        let samples_per_receiver = if samples.len() > 0 {
            samples[0].len()
        } else {
            0
        };
        let slots: usize = if num_receivers == 0 || num_receivers > 84 {
            0
        } else {
            504 / (6 * num_receivers)
        };
        proof {
            lemma_no_slots_past(num_receivers as int);
        }
        let samples_this_frame = if samples_per_receiver / 2 < slots {
            samples_per_receiver / 2
        } else {
            slots
        };
        assert(samples_this_frame as int == spec_per_frame(ss));
        proof {
            lemma_packet_fits(ss);
        }
        let mut frame_idx: usize = 0;
        while frame_idx < 2
            invariant
                frame_idx <= 2,
                ss == samples@.map_values(|v: Vec<(i32, i32)>| v@),
                spec_packet_fits(ss),
                num_receivers == ss.len(),
                samples_this_frame as int == spec_per_frame(ss),
                samples_per_receiver == (if ss.len() > 0 { ss[0].len() as int } else { 0 }),
                self.header_idx < NUM_HEADERS,
                self.header_idx as int == (h0 + frame_idx) % 5,
                self.sequence == seq0.wrapping_add(1),
                0 <= h0 < 5,
                frame_idx == 0 ==> packet@ == spec_overlay(p1, 4, spec_be_bytes(seq0)),
                frame_idx == 1 ==> packet@ == spec_overlay(
                    spec_overlay(spec_overlay(p1, 4, spec_be_bytes(seq0)), 8, spec_header(h0)),
                    16,
                    spec_encode(spec_frame(ss, 0)),
                ),
                frame_idx == 2 ==> packet@ == spec_data_packet(seq0, h0, ss),
                p1 == spec_overlay(Seq::new(1032, |i: int| 0u8), 0, spec_le_bytes(MAGIC_DATA_RX)),
                packet@.len() == 1032,
            decreases 2 - frame_idx,
        {
            let frame_offset = 8 + frame_idx * 512;
            let header = frame_header(self.header_idx);
            let ghost before_header = packet@;
            let mut k: usize = 0;
            while k < 8
                invariant
                    k <= 8,
                    frame_offset == 8 + frame_idx * 512,
                    frame_idx < 2,
                    packet@.len() == 1032,
                    packet@ =~= spec_overlay(before_header, frame_offset as int, header@.subrange(0, k as int)),
                    before_header.len() == 1032,
                decreases 8 - k,
            {
                packet.set(frame_offset + k, header[k]);
                k = k + 1;
                assert(packet@ =~= spec_overlay(before_header, frame_offset as int, header@.subrange(0, k as int)));
            }
            assert(header@.subrange(0, 8) =~= header@);
            self.header_idx = (self.header_idx + 1) % NUM_HEADERS;
            let ghost after_header = packet@;
            let ghost f = frame_idx as int;
            let ghost pf = samples_this_frame as int;
            let mut write_offset = frame_offset + 8;
            let mut sample_idx: usize = 0;
            proof {
                lemma_frame_len_mono(ss, f, pf, 0, pf as nat);
                lemma_encode_len(spec_frame(ss, f));
            }
            while sample_idx < samples_this_frame
                invariant
                    frame_idx < 2,
                    f == frame_idx as int,
                    pf == samples_this_frame as int,
                    pf == spec_per_frame(ss),
                    ss == samples@.map_values(|v: Vec<(i32, i32)>| v@),
                    spec_packet_fits(ss),
                    num_receivers == ss.len(),
                    samples_per_receiver == (if ss.len() > 0 { ss[0].len() as int } else { 0 }),
                    sample_idx <= samples_this_frame,
                    frame_offset == 8 + frame_idx * 512,
                    after_header.len() == 1032,
                    packet@.len() == 1032,
                    write_offset as int == frame_offset + 8 + 6 * spec_frame_entries(ss, f, pf, sample_idx as nat).len(),
                    packet@ =~= spec_overlay(
                        after_header,
                        frame_offset + 8,
                        spec_encode(spec_frame_entries(ss, f, pf, sample_idx as nat)),
                    ),
                decreases samples_this_frame - sample_idx,
            {
                let global_sample_idx = frame_idx * samples_this_frame + sample_idx;
                proof {
                    lemma_frame_len_mono(ss, f, pf, (sample_idx + 1) as nat, pf as nat);
                }
                let ghost base_entries = spec_frame_entries(ss, f, pf, sample_idx as nat);
                let mut rx_idx: usize = 0;
                while rx_idx < num_receivers
                    invariant
                        frame_idx < 2,
                        f == frame_idx as int,
                        pf == samples_this_frame as int,
                        ss == samples@.map_values(|v: Vec<(i32, i32)>| v@),
                        spec_packet_fits(ss),
                        num_receivers == ss.len(),
                        rx_idx <= num_receivers,
                        sample_idx < samples_this_frame,
                        global_sample_idx == frame_idx * samples_this_frame + sample_idx,
                        frame_offset == 8 + frame_idx * 512,
                        after_header.len() == 1032,
                        packet@.len() == 1032,
                        base_entries == spec_frame_entries(ss, f, pf, sample_idx as nat),
                        spec_frame_entries(ss, f, pf, (sample_idx + 1) as nat).len() <= spec_frame(ss, f).len(),
                        write_offset as int == frame_offset + 8 + 6 * (base_entries + spec_row(ss, global_sample_idx as int, rx_idx as nat)).len(),
                        packet@ =~= spec_overlay(
                            after_header,
                            frame_offset + 8,
                            spec_encode(base_entries + spec_row(ss, global_sample_idx as int, rx_idx as nat)),
                        ),
                    decreases num_receivers - rx_idx,
                {
                    proof {
                        lemma_row_len_mono(ss, global_sample_idx as int, (rx_idx + 1) as nat, ss.len());
                        lemma_encode_len(base_entries + spec_row(ss, global_sample_idx as int, rx_idx as nat));
                    }
                    if rx_idx < samples.len() && global_sample_idx < samples[rx_idx].len() {
                        let (i, q) = samples[rx_idx][global_sample_idx];
                        let ghost cur = base_entries + spec_row(ss, global_sample_idx as int, rx_idx as nat);
                        let ghost before = packet@;
                        assert(ss[rx_idx as int] == samples@[rx_idx as int]@);
                        assert(base_entries + spec_row(ss, global_sample_idx as int, (rx_idx + 1) as nat)
                            =~= cur.push((i, q)));
                        proof {
                            lemma_encode_push(cur, (i, q));
                            lemma_encode_len(cur);
                        }
                        let iu = i as u32;
                        let qu = q as u32;
                        packet.set(write_offset, ((iu >> 16u32) & 0xff) as u8);
                        packet.set(write_offset + 1, ((iu >> 8u32) & 0xff) as u8);
                        packet.set(write_offset + 2, (iu & 0xff) as u8);
                        packet.set(write_offset + 3, ((qu >> 16u32) & 0xff) as u8);
                        packet.set(write_offset + 4, ((qu >> 8u32) & 0xff) as u8);
                        packet.set(write_offset + 5, (qu & 0xff) as u8);
                        write_offset = write_offset + 6;
                        assert(packet@ =~= spec_overlay(
                            after_header,
                            frame_offset + 8,
                            spec_encode(cur.push((i, q))),
                        ));
                    } else {
                        assert(base_entries + spec_row(ss, global_sample_idx as int, (rx_idx + 1) as nat)
                            =~= base_entries + spec_row(ss, global_sample_idx as int, rx_idx as nat));
                    }
                    rx_idx = rx_idx + 1;
                }
                assert(spec_frame_entries(ss, f, pf, (sample_idx + 1) as nat) =~= base_entries
                    + spec_row(ss, global_sample_idx as int, num_receivers as nat));
                sample_idx = sample_idx + 1;
            }
            proof {
                assert(spec_frame_entries(ss, f, pf, sample_idx as nat) == spec_frame(ss, f));
                let inner = spec_overlay(before_header, frame_offset as int, header@);
                assert(after_header == inner);
                if frame_idx == 0 {
                    assert(header@ == spec_header(h0));
                } else {
                    assert(header@ == spec_header((h0 + 1) % 5));
                }
            }
            frame_idx = frame_idx + 1;
        }
        packet
    }
}

} // verus!
