//! The decisions of the Hermes Lite server: per-receiver sample buffering,
//! handling of client datagrams and control frames, and the choice of the
//! next IQ data packet. Sockets and threads stay with the caller, which
//! feeds each received datagram to [`ServerState::handle_command`] and
//! polls [`ServerState::next_data_packet`].
use vstd::prelude::*;
use crate::protocol::{
    spec_command_type, spec_data_packet, spec_default_config, spec_reply_bytes, lemma_new_reply_bytes,
    spec_general_config, spec_sample_rate, spec_slots, lemma_no_slots_past,
    spec_u32_be, spec_u32_le, u32_from_be, u32_from_le, lemma_general_receivers_bounded, CommandType,
    ControlPacket, DataPacketBuilder, DiscoveryReply, RxConfig, MAGIC_DATA_TX,
    MAGIC_DISCOVERY, MAGIC_START, MAGIC_STOP,
};

verus! {

/// Number of receivers a Hermes Lite 2 supports.
pub const MAX_RECEIVERS: usize = 12;
/// UDP port of the command socket.
pub const COMMAND_PORT: u16 = 1024;
/// Samples per receiver in one data packet with one receiver (63 per
/// frame, two frames).
pub const SAMPLES_PER_PACKET: usize = 126;

/// Buffered IQ samples (24-bit values) of one receiver.
#[derive(Clone)]
pub struct ChannelState {
    buffer: Vec<(i32, i32)>,
}

impl View for ChannelState {
    type V = Seq<(i32, i32)>;

    closed spec fn view(&self) -> Seq<(i32, i32)> {
        self.buffer@
    }
}

/// What `get_samples(count)` hands out from buffer `b`: the first `count`
/// samples, padded with zero samples when fewer are buffered.
pub open spec fn spec_take_samples(b: Seq<(i32, i32)>, count: nat) -> Seq<(i32, i32)> {
    if b.len() >= count {
        b.take(count as int)
    } else {
        b + Seq::new((count - b.len()) as nat, |i: int| (0i32, 0i32))
    }
}

/// What stays buffered after `get_samples(count)`.
pub open spec fn spec_rest_samples(b: Seq<(i32, i32)>, count: nat) -> Seq<(i32, i32)> {
    if b.len() >= count {
        b.skip(count as int)
    } else {
        Seq::empty()
    }
}

impl ChannelState {
    /// An empty buffer. The sample rate does not change the buffer.
    pub fn new(_sample_rate: u32) -> (c: Self)
        ensures
            c@ == Seq::<(i32, i32)>::empty(),
    {
        ChannelState { buffer: Vec::with_capacity(63 * 4) }
    }

    /// Appends one sample.
    pub fn add_sample(&mut self, i: i32, q: i32)
        ensures
            final(self)@ == old(self)@.push((i, q)),
    {
        self.buffer.push((i, q));
    }

    /// Removes and returns the oldest `count` samples; when fewer are
    /// buffered, returns all of them padded with zero samples.
    pub fn get_samples(&mut self, count: usize) -> (r: Vec<(i32, i32)>)
        ensures
            r@ == spec_take_samples(old(self)@, count as nat),
            final(self)@ == spec_rest_samples(old(self)@, count as nat),
    {
        let ghost b = self.buffer@;
        let n = self.buffer.len();
        let mut result: Vec<(i32, i32)> = Vec::with_capacity(count);
        let take = if n >= count {
            count
        } else {
            n
        };
        let mut i: usize = 0;
        while i < take
            invariant
                take <= n,
                n == b.len(),
                self.buffer@ == b,
                i <= take,
                result@ == b.take(i as int),
            decreases take - i,
        {
            result.push(self.buffer[i]);
            i = i + 1;
            assert(result@ =~= b.take(i as int));
        }
        let mut rest: Vec<(i32, i32)> = Vec::new();
        let mut j: usize = take;
        while j < n
            invariant
                take <= j <= n,
                n == b.len(),
                self.buffer@ == b,
                rest@ == b.subrange(take as int, j as int),
            decreases n - j,
        {
            rest.push(self.buffer[j]);
            j = j + 1;
            assert(rest@ =~= b.subrange(take as int, j as int));
        }
        let mut k: usize = take;
        while k < count
            invariant
                take <= k <= count,
                take == (if n >= count { count } else { n }),
                result@ == b.take(take as int) + Seq::new((k - take) as nat, |x: int| (0i32, 0i32)),
            decreases count - k,
        {
            result.push((0i32, 0i32));
            k = k + 1;
            assert(result@ =~= b.take(take as int) + Seq::new((k - take) as nat, |x: int| (0i32, 0i32)));
        }
        self.buffer = rest;
        proof {
            if n >= count {
                assert(result@ =~= b.take(count as int));
                assert(self.buffer@ =~= b.skip(count as int));
            } else {
                assert(b.take(n as int) =~= b);
                assert(self.buffer@ =~= Seq::<(i32, i32)>::empty());
            }
        }
        result
    }

    /// Number of buffered samples.
    pub fn samples_available(&self) -> (n: usize)
        ensures
            n == self@.len(),
    {
        self.buffer.len()
    }
}

/// Handing out samples keeps their order: what was handed out followed by
/// what stays is what was buffered, when enough samples were buffered.
pub proof fn lemma_take_rest_fifo(b: Seq<(i32, i32)>, count: nat)
    requires
        b.len() >= count,
    ensures
        spec_take_samples(b, count) + spec_rest_samples(b, count) == b,
        spec_take_samples(b, count).len() == count,
{
    assert(b.take(count as int) + b.skip(count as int) =~= b);
}

/// `get_samples(count)` always hands out exactly `count` samples.
pub proof fn lemma_take_len(b: Seq<(i32, i32)>, count: nat)
    ensures
        spec_take_samples(b, count).len() == count,
{
}

/// The MAC address a server without a configured one announces, derived
/// from a UNIX timestamp in seconds: 0x02 (locally administered), then the
/// five low bytes of the timestamp, most significant first.
pub open spec fn spec_mac_from_timestamp(ts: u64) -> Seq<u8> {
    seq![
        0x02u8,
        ((ts >> 32u64) & 0xff) as u8,
        ((ts >> 24u64) & 0xff) as u8,
        ((ts >> 16u64) & 0xff) as u8,
        ((ts >> 8u64) & 0xff) as u8,
        (ts & 0xff) as u8,
    ]
}

/// The MAC address derived from a UNIX timestamp in seconds.
pub fn mac_from_timestamp(ts: u64) -> (mac: [u8; 6])
    ensures
        mac@ == spec_mac_from_timestamp(ts),
{
    let mac = [
        0x02u8,
        ((ts >> 32u64) & 0xff) as u8,
        ((ts >> 24u64) & 0xff) as u8,
        ((ts >> 16u64) & 0xff) as u8,
        ((ts >> 8u64) & 0xff) as u8,
        (ts & 0xff) as u8,
    ];
    assert(mac@ =~= spec_mac_from_timestamp(ts));
    mac
}

/// The MAC address a test server announces when none is configured.
pub fn default_test_mac() -> (mac: [u8; 6])
    ensures
        mac@ == seq![0x02u8, 0, 0, 0, 0, 1],
{
    let mac = [0x02u8, 0, 0, 0, 0, 1];
    assert(mac@ =~= seq![0x02u8, 0, 0, 0, 0, 1]);
    mac
}

/// Effect of one control frame.
#[derive(Debug, Clone, Copy, PartialEq, Eq, Structural)]
pub enum ControlEffect {
    /// The frame was shorter than five bytes.
    Malformed,
    /// A general frame set the sample rate, receiver count and ADC
    /// configuration.
    ConfigChanged { previous: RxConfig, current: RxConfig },
    /// The client set the NCO frequency (Hz) of a receiver.
    Frequency { rx: usize, freq: u64 },
    /// The client set the attenuation (dB); it is stored in the configuration.
    Attenuation(u8),
    /// The client selected the low-pass filter (the C4 byte); it is stored
    /// in the configuration.
    LpfSelect(u8),
    /// A command code the protocol does not define.
    Unknown(u8),
    /// A command that a receive-only server ignores.
    Ignored,
}

/// The attenuation in dB that the C4 byte of an attenuation frame asks for.
pub open spec fn spec_attenuation(c4: u8) -> u8 {
    if c4 & 0x40u8 != 0 {
        c4 & 0x3fu8
    } else if c4 & 0x20u8 != 0 {
        ((c4 & 0x1fu8) * 2) as u8
    } else {
        0
    }
}

/// An attenuation frame (C0 = 0x0a << 1, either MOX bit) is applied and
/// stored: with bit 6 of C4 set the attenuation is the low six bits of C4,
/// whatever bit 5 says; with bit 6 clear and bit 5 set it is twice the low
/// five bits; with both clear it is 0. Nothing else of the configuration
/// changes, and the attenuation never exceeds 63 dB.
pub proof fn lemma_attenuation_frame(frame: Seq<u8>, cfg: RxConfig)
    requires
        frame.len() >= 5,
        frame[0] == 0x14 || frame[0] == 0x15,
    ensures
        ({
            let c4 = frame[4];
            let att: int = if c4 & 0x40u8 != 0 {
                (c4 % 64) as int
            } else if c4 & 0x20u8 != 0 {
                2 * (c4 % 32) as int
            } else {
                0
            };
            &&& spec_control_effect(frame, cfg) == ControlEffect::Attenuation(att as u8)
            &&& spec_config_after(frame, cfg) == (RxConfig { attenuation_db: att as u8, ..cfg })
            &&& 0 <= att <= 63
        }),
{
    let c0 = frame[0];
    assert((c0 == 0x14u8 || c0 == 0x15u8) ==> c0 >> 1u8 == 0x0au8) by (bit_vector);
    let c4 = frame[4];
    assert(c4 & 0x3fu8 == c4 % 64 && c4 & 0x1fu8 == c4 % 32) by (bit_vector);
}

/// The effect of a control frame, given the configuration before it.
pub open spec fn spec_control_effect(frame: Seq<u8>, cfg: RxConfig) -> ControlEffect {
    if frame.len() < 5 {
        ControlEffect::Malformed
    } else {
        match spec_command_type(frame[0] >> 1u8) {
            CommandType::General => ControlEffect::ConfigChanged {
                previous: cfg,
                current: spec_general_update(cfg, frame[1], frame[3], frame[4]),
            },
            CommandType::RxFreq(rx) => ControlEffect::Frequency {
                rx,
                freq: spec_u32_be(frame[1], frame[2], frame[3], frame[4]) as u64,
            },
            CommandType::Attenuation => ControlEffect::Attenuation(spec_attenuation(frame[4])),
            CommandType::LpfSelect => ControlEffect::LpfSelect(frame[4]),
            CommandType::Unknown(code) => ControlEffect::Unknown(code),
            _ => ControlEffect::Ignored,
        }
    }
}

/// The configuration after a general frame with payload C1..C4 = d0..d3:
/// its sample rate, receiver count and ADC configuration, keeping the last
/// received attenuation and filter selection.
pub open spec fn spec_general_update(cfg: RxConfig, d0: u8, d2: u8, d3: u8) -> RxConfig {
    RxConfig { attenuation_db: cfg.attenuation_db, lpf_select: cfg.lpf_select, ..spec_general_config(d0, d2, d3) }
}

/// The configuration after a control frame: a general frame sets the rate,
/// receivers and ADC configuration; an attenuation or filter frame stores
/// its value; other frames leave it unchanged.
pub open spec fn spec_config_after(frame: Seq<u8>, cfg: RxConfig) -> RxConfig {
    match spec_control_effect(frame, cfg) {
        ControlEffect::ConfigChanged { current, .. } => current,
        ControlEffect::Attenuation(a) => RxConfig { attenuation_db: a, ..cfg },
        ControlEffect::LpfSelect(v) => RxConfig { lpf_select: v, ..cfg },
        _ => cfg,
    }
}

/// Kind of a datagram from a client, by its magic prefix.
#[derive(Debug, Clone, Copy, PartialEq, Eq, Structural)]
pub enum PacketKind {
    Discovery,
    Start,
    Stop,
    DataTx,
    Other,
}

/// The kind of a datagram whose first four bytes (little endian) are `magic`.
pub open spec fn spec_packet_kind(magic: u32) -> PacketKind {
    if magic == MAGIC_DISCOVERY {
        PacketKind::Discovery
    } else if magic == MAGIC_START {
        PacketKind::Start
    } else if magic == MAGIC_STOP {
        PacketKind::Stop
    } else if magic == MAGIC_DATA_TX {
        PacketKind::DataTx
    } else {
        PacketKind::Other
    }
}

/// The kind of a datagram of at least four bytes.
pub fn packet_kind(packet: &[u8]) -> (k: PacketKind)
    requires
        packet@.len() >= 4,
    ensures
        k == spec_packet_kind(spec_u32_le(packet@[0], packet@[1], packet@[2], packet@[3])),
{
    let magic = u32_from_le(packet[0], packet[1], packet[2], packet[3]);
    if magic == MAGIC_DISCOVERY {
        PacketKind::Discovery
    } else if magic == MAGIC_START {
        PacketKind::Start
    } else if magic == MAGIC_STOP {
        PacketKind::Stop
    } else if magic == MAGIC_DATA_TX {
        PacketKind::DataTx
    } else {
        PacketKind::Other
    }
}

/// What the caller does after a datagram was handled.
pub struct CommandOutcome {
    /// A discovery reply to send back to the sender.
    pub reply: Option<[u8; 60]>,
    /// The sender becomes the client (its address replaces the previous one).
    pub new_client: bool,
    /// Receiver frequency changes (receiver, Hz) for the frequency callback,
    /// in the order of the control frames.
    pub freq_changes: Vec<(usize, u64)>,
    /// Effects of the control frames the datagram carried.
    pub effects: Vec<ControlEffect>,
}

/// Offsets of the control frames a client datagram of `size` bytes carries:
/// the first at byte 11 when it has at least 523 bytes, the second at byte
/// 523 when it has at least 1032 bytes.
pub open spec fn spec_control_offsets(size: int) -> Seq<int> {
    if size >= 1032 {
        seq![11int, 523int]
    } else if size >= 523 {
        seq![11int]
    } else {
        Seq::empty()
    }
}

/// The frequency changes of a sequence of effects, in order.
pub open spec fn spec_freq_changes(effects: Seq<ControlEffect>) -> Seq<(usize, u64)>
    decreases effects.len(),
{
    if effects.len() == 0 {
        Seq::empty()
    } else {
        let prev = spec_freq_changes(effects.drop_last());
        match effects.last() {
            ControlEffect::Frequency { rx, freq } => prev.push((rx, freq)),
            _ => prev,
        }
    }
}

/// Minimum buffered sample count over the first `n` receivers (0 when `n` is 0).
pub open spec fn spec_min_available(ch: Seq<Seq<(i32, i32)>>, n: nat) -> int
    decreases n,
{
    if n == 0 {
        0
    } else if n == 1 {
        ch[0].len() as int
    } else {
        let m = spec_min_available(ch, (n - 1) as nat);
        if (ch[n - 1].len() as int) < m {
            ch[n - 1].len() as int
        } else {
            m
        }
    }
}

proof fn lemma_min_le(ch: Seq<Seq<(i32, i32)>>, n: nat, i: int)
    requires
        0 <= i < n,
        n <= ch.len(),
    ensures
        spec_min_available(ch, n) <= ch[i].len(),
    decreases n,
{
    if n > 1 && i < n - 1 {
        lemma_min_le(ch, (n - 1) as nat, i);
    }
}

/// Samples per receiver that one data packet carries for `n` receivers:
/// 126 (63 per frame), or fewer where the slots of both frames hold fewer
/// (84 for two receivers, 56 for three, down to 14 for twelve).
pub open spec fn spec_packet_samples(n: int) -> int {
    if 2 * spec_slots(n) < 126 {
        2 * spec_slots(n)
    } else {
        126
    }
}

/// Samples per receiver that one data packet carries for `n` receivers.
pub fn packet_samples(n: usize) -> (k: usize)
    ensures
        k == spec_packet_samples(n as int),
{
    if n == 0 || n > 84 {
        proof {
            lemma_no_slots_past(n as int);
        }
        0
    } else {
        let k: usize = 2 * (504 / (6 * n));
        if k < 126 {
            k
        } else {
            126
        }
    }
}

/// One step of the data transmitter.
pub enum DataStep {
    /// No active client.
    Idle,
    /// No receiver is announced, or some announced receiver has fewer
    /// samples buffered than a packet carries; the smallest buffered count
    /// is given.
    Starved(usize),
    /// The packet to send to the client.
    Packet(Vec<u8>),
}

/// Shared state of the server.
pub struct ServerState {
    rx_config: RxConfig,
    /// `None` without client, else whether the client is streaming.
    client_active: Option<bool>,
    channel_states: Vec<ChannelState>,
    packet_builder: DataPacketBuilder,
}

impl ServerState {
    /// Well-formedness: twelve receiver buffers, at most twelve receivers announced.
    pub closed spec fn wf(&self) -> bool {
        &&& self.channel_states.len() == MAX_RECEIVERS
        &&& self.rx_config.num_receivers <= MAX_RECEIVERS
    }

    /// A well-formed server never announces more than twelve receivers.
    pub proof fn lemma_receivers_bounded(&self)
        requires
            self.wf(),
        ensures
            self.spec_config().num_receivers <= MAX_RECEIVERS,
            self.spec_channels().len() == MAX_RECEIVERS,
    {
    }

    /// Current receiver configuration.
    pub closed spec fn spec_config(&self) -> RxConfig {
        self.rx_config
    }

    /// `None` without client, else whether the client is streaming.
    pub closed spec fn spec_client(&self) -> Option<bool> {
        self.client_active
    }

    /// Buffered samples of each of the twelve receivers.
    pub closed spec fn spec_channels(&self) -> Seq<Seq<(i32, i32)>> {
        self.channel_states@.map_values(|c: ChannelState| c@)
    }

    /// Sequence number of the next data packet.
    pub closed spec fn spec_sequence(&self) -> u32 {
        self.packet_builder.spec_sequence()
    }

    /// Header index of the next data packet.
    pub closed spec fn spec_header_idx(&self) -> int {
        self.packet_builder.spec_header_idx()
    }

    /// The state of a server that was just created: default configuration,
    /// no client, twelve empty receiver buffers, a fresh packet builder.
    pub fn new() -> (s: Self)
        ensures
            s.spec_config() == spec_default_config(),
            s.spec_client() is None,
            s.spec_channels() == Seq::new(12, |i: int| Seq::<(i32, i32)>::empty()),
            s.spec_sequence() == 0,
            s.spec_header_idx() == 0,
            s.wf(),
    {
        let mut channel_states: Vec<ChannelState> = Vec::new();
        let mut i: usize = 0;
        while i < MAX_RECEIVERS
            invariant
                i <= MAX_RECEIVERS,
                channel_states.len() == i,
                forall|k: int| 0 <= k < i ==> channel_states@[k]@ == Seq::<(i32, i32)>::empty(),
            decreases MAX_RECEIVERS - i,
        {
            channel_states.push(ChannelState::new(48_000));
            i = i + 1;
        }
        let s = ServerState {
            rx_config: RxConfig::default(),
            client_active: None,
            channel_states,
            packet_builder: DataPacketBuilder::new(),
        };
        assert(s.spec_channels() =~= Seq::new(12, |i: int| Seq::<(i32, i32)>::empty()));
        s
    }

    /// Current receiver configuration.
    pub fn rx_config(&self) -> (c: RxConfig)
        ensures
            c == self.spec_config(),
    {
        self.rx_config
    }

    /// `None` without client, else whether the client is streaming.
    pub fn client_active(&self) -> (c: Option<bool>)
        ensures
            c == self.spec_client(),
    {
        self.client_active
    }

    /// Number of receivers advertised and served.
    pub fn get_num_receivers(&self) -> (n: u8)
        ensures
            n == self.spec_config().num_receivers,
    {
        self.rx_config.num_receivers
    }

    /// Output sample rate in Hz.
    pub fn get_sample_rate(&self) -> (r: u32)
        ensures
            r == spec_sample_rate(self.spec_config().sample_rate_code),
    {
        self.rx_config.get_sample_rate()
    }

    /// Sets the number of receivers, at most twelve.
    pub fn set_num_receivers(&mut self, n: u8)
        requires
            old(self).wf(),
        ensures
            final(self).wf(),
            final(self).spec_config() == (RxConfig {
                num_receivers: if n <= 12 { n } else { 12u8 },
                ..old(self).spec_config()
            }),
            final(self).spec_client() == old(self).spec_client(),
            final(self).spec_channels() == old(self).spec_channels(),
            final(self).spec_sequence() == old(self).spec_sequence(),
            final(self).spec_header_idx() == old(self).spec_header_idx(),
    {
        let m: u8 = if n <= 12 {
            n
        } else {
            12
        };
        self.rx_config.num_receivers = m;
    }

    /// The client, if any, stops streaming (the server is shutting down).
    pub fn deactivate_client(&mut self)
        requires
            old(self).wf(),
        ensures
            final(self).wf(),
            final(self).spec_client() == (match old(self).spec_client() {
                Some(_) => Some(false),
                None => None,
            }),
            final(self).spec_config() == old(self).spec_config(),
            final(self).spec_channels() == old(self).spec_channels(),
            final(self).spec_sequence() == old(self).spec_sequence(),
            final(self).spec_header_idx() == old(self).spec_header_idx(),
    {
        if self.client_active.is_some() {
            self.client_active = Some(false);
        }
    }

    /// Buffered sample count of a receiver.
    pub fn samples_available(&self, channel_idx: usize) -> (n: usize)
        requires
            self.wf(),
            channel_idx < MAX_RECEIVERS,
        ensures
            n == self.spec_channels()[channel_idx as int].len(),
    {
        self.channel_states[channel_idx].samples_available()
    }

    /// Buffers samples produced for a receiver; samples for a receiver index
    /// of twelve or more are dropped.
    pub fn add_channel_samples(&mut self, channel_idx: usize, samples: &[(i32, i32)])
        requires
            old(self).wf(),
        ensures
            final(self).wf(),
            final(self).spec_channels() == (if channel_idx < MAX_RECEIVERS {
                old(self).spec_channels().update(
                    channel_idx as int,
                    old(self).spec_channels()[channel_idx as int] + samples@,
                )
            } else {
                old(self).spec_channels()
            }),
            final(self).spec_config() == old(self).spec_config(),
            final(self).spec_client() == old(self).spec_client(),
            final(self).spec_sequence() == old(self).spec_sequence(),
            final(self).spec_header_idx() == old(self).spec_header_idx(),
    {
        if channel_idx >= MAX_RECEIVERS {
            return;
        }
        let ghost start = self.spec_channels();
        let mut ch = ChannelState { buffer: Vec::new() };
        self.channel_states.set_and_swap(channel_idx, &mut ch);
        let ghost mid = self.channel_states@;
        let mut i: usize = 0;
        while i < samples.len()
            invariant
                i <= samples.len(),
                ch@ == start[channel_idx as int] + samples@.take(i as int),
                self.channel_states@ == mid,
            decreases samples.len() - i,
        {
            let (a, b) = samples[i];
            ch.add_sample(a, b);
            i = i + 1;
            assert(ch@ =~= start[channel_idx as int] + samples@.take(i as int));
        }
        assert(samples@.take(samples.len() as int) =~= samples@);
        self.channel_states.set_and_swap(channel_idx, &mut ch);
        assert(self.spec_channels() =~= start.update(channel_idx as int, start[channel_idx as int] + samples@));
    }

    /// Applies one control frame: a general frame sets the sample rate,
    /// receiver count and ADC configuration; an attenuation or filter frame
    /// stores its value; other commands leave the state unchanged and are
    /// reported.
    pub fn process_control_frame(&mut self, frame: &[u8]) -> (e: ControlEffect)
        requires
            old(self).wf(),
        ensures
            final(self).wf(),
            e == spec_control_effect(frame@, old(self).spec_config()),
            final(self).spec_config() == spec_config_after(frame@, old(self).spec_config()),
            final(self).spec_client() == old(self).spec_client(),
            final(self).spec_channels() == old(self).spec_channels(),
            final(self).spec_sequence() == old(self).spec_sequence(),
            final(self).spec_header_idx() == old(self).spec_header_idx(),
    {
        let packet = match ControlPacket::parse(frame) {
            Some(p) => p,
            None => return ControlEffect::Malformed,
        };
        match packet.cmd_type {
            CommandType::General => {
                match RxConfig::parse_general_packet(&packet.data) {
                    Some(new_config) => {
                        proof {
                            lemma_general_receivers_bounded(packet.data@[0], packet.data@[2], packet.data@[3]);
                        }
                        let prev = self.rx_config;
                        let current = RxConfig {
                            attenuation_db: prev.attenuation_db,
                            lpf_select: prev.lpf_select,
                            ..new_config
                        };
                        self.rx_config = current;
                        ControlEffect::ConfigChanged { previous: prev, current }
                    },
                    None => ControlEffect::Ignored,
                }
            },
            CommandType::RxFreq(rx_idx) => {
                let freq = u32_from_be(packet.data[0], packet.data[1], packet.data[2], packet.data[3]) as u64;
                ControlEffect::Frequency { rx: rx_idx, freq }
            },
            CommandType::Attenuation => {
                let c4 = packet.data[3];
                let att: u8 = if c4 & 0x40u8 != 0 {
                    c4 & 0x3fu8
                } else if c4 & 0x20u8 != 0 {
                    assert(c4 & 0x1fu8 <= 31) by (bit_vector);
                    (c4 & 0x1fu8) * 2
                } else {
                    0
                };
                self.rx_config.attenuation_db = att;
                ControlEffect::Attenuation(att)
            },
            CommandType::LpfSelect => {
                self.rx_config.lpf_select = packet.data[3];
                ControlEffect::LpfSelect(packet.data[3])
            },
            CommandType::Unknown(code) => ControlEffect::Unknown(code),
            _ => ControlEffect::Ignored,
        }
    }

    /// Handles one datagram received on the command socket from a client.
    ///
    /// - Fewer than four bytes, or an unknown magic: nothing happens.
    /// - Discovery: reply with this server's MAC, the receiver count and
    ///   whether a client is streaming.
    /// - Start: the sender becomes the client and streams.
    /// - Stop: the client, if any, stops streaming.
    /// - Data from the client: the client streams (a new sender becomes the
    ///   client only when there was none), then the embedded control frames
    ///   are applied.
    pub fn handle_command(&mut self, mac_address: [u8; 6], packet: &[u8]) -> (out: CommandOutcome)
        requires
            old(self).wf(),
        ensures
            final(self).wf(),
            ({
                let kind = if packet@.len() < 4 {
                    PacketKind::Other
                } else {
                    spec_packet_kind(spec_u32_le(packet@[0], packet@[1], packet@[2], packet@[3]))
                };
                let old_active = match old(self).spec_client() {
                    Some(a) => a,
                    None => false,
                };
                &&& out.reply is Some <==> kind == PacketKind::Discovery
                &&& out.reply matches Some(r) ==> r@ == spec_reply_bytes(
                    mac_address,
                    old(self).spec_config().num_receivers,
                    old_active,
                )
                &&& out.new_client <==> (kind == PacketKind::Start || (kind == PacketKind::DataTx
                    && old(self).spec_client() is None))
                &&& final(self).spec_client() == (match kind {
                    PacketKind::Start => Some(true),
                    PacketKind::DataTx => Some(true),
                    PacketKind::Stop => match old(self).spec_client() {
                        Some(_) => Some(false),
                        None => None,
                    },
                    _ => old(self).spec_client(),
                })
                &&& kind != PacketKind::DataTx ==> out.effects@.len() == 0
                    && final(self).spec_config() == old(self).spec_config()
                &&& kind == PacketKind::DataTx ==> {
                    let offs = spec_control_offsets(packet@.len() as int);
                    &&& out.effects@.len() == offs.len()
                    &&& offs.len() >= 1 ==> out.effects@[0] == spec_control_effect(
                        packet@.subrange(11, 16),
                        old(self).spec_config(),
                    )
                    &&& offs.len() == 1 ==> final(self).spec_config() == spec_config_after(
                        packet@.subrange(11, 16),
                        old(self).spec_config(),
                    )
                    &&& offs.len() == 2 ==> {
                        let mid = spec_config_after(packet@.subrange(11, 16), old(self).spec_config());
                        &&& out.effects@[1] == spec_control_effect(packet@.subrange(523, 528), mid)
                        &&& final(self).spec_config() == spec_config_after(packet@.subrange(523, 528), mid)
                    }
                    &&& offs.len() == 0 ==> final(self).spec_config() == old(self).spec_config()
                }
                &&& out.freq_changes@ == spec_freq_changes(out.effects@)
                &&& final(self).spec_channels() == old(self).spec_channels()
                &&& final(self).spec_sequence() == old(self).spec_sequence()
                &&& final(self).spec_header_idx() == old(self).spec_header_idx()
            }),
    {
        let mut out = CommandOutcome {
            reply: None,
            new_client: false,
            freq_changes: Vec::new(),
            effects: Vec::new(),
        };
        if packet.len() < 4 {
            return out;
        }
        let kind = packet_kind(packet);
        match kind {
            PacketKind::Discovery => {
                let is_active = match self.client_active {
                    Some(a) => a,
                    None => false,
                };
                let reply = DiscoveryReply::new(mac_address, self.rx_config.num_receivers, is_active);
                let bytes = reply.to_bytes();
                proof {
                    lemma_new_reply_bytes(reply, mac_address, self.rx_config.num_receivers, is_active);
                }
                out.reply = Some(bytes);
            },
            PacketKind::Start => {
                self.client_active = Some(true);
                out.new_client = true;
            },
            PacketKind::Stop => {
                if self.client_active.is_some() {
                    self.client_active = Some(false);
                }
            },
            PacketKind::DataTx => {
                if self.client_active.is_some() {
                    self.client_active = Some(true);
                } else {
                    self.client_active = Some(true);
                    out.new_client = true;
                }
                if packet.len() >= 523 {
                    let e0 = self.process_control_frame(vstd::slice::slice_subrange(packet, 11, 16));
                    out.effects.push(e0);
                    if let ControlEffect::Frequency { rx, freq } = e0 {
                        out.freq_changes.push((rx, freq));
                    }
                    proof {
                        let ef = out.effects@;
                        assert(ef.drop_last() =~= Seq::<ControlEffect>::empty());
                        assert(ef.last() == e0);
                        assert(spec_freq_changes(ef.drop_last()) =~= Seq::<(usize, u64)>::empty());
                        assert(out.freq_changes@ =~= spec_freq_changes(ef));
                    }
                }
                if packet.len() >= 1032 {
                    let ghost before = out.effects@;
                    let e1 = self.process_control_frame(vstd::slice::slice_subrange(packet, 523, 528));
                    out.effects.push(e1);
                    if let ControlEffect::Frequency { rx, freq } = e1 {
                        out.freq_changes.push((rx, freq));
                    }
                    assert(out.effects@.drop_last() =~= before);
                }
            },
            PacketKind::Other => {},
        }
        out
    }

    /// One step of the data transmitter. With an active client, at least one
    /// announced receiver, and for each announced receiver at least as many
    /// samples buffered as a packet carries for that many receivers, takes
    /// that many samples from each and builds the next packet from them.
    pub fn next_data_packet(&mut self) -> (step: DataStep)
        requires
            old(self).wf(),
        ensures
            final(self).wf(),
            ({
                let active = old(self).spec_client() == Some(true);
                let n = old(self).spec_config().num_receivers as nat;
                let ch = old(self).spec_channels();
                let m = spec_min_available(ch, n);
                let k = spec_packet_samples(n as int);
                &&& !active ==> step is Idle
                &&& active && (n == 0 || m < k) ==> (step matches DataStep::Starved(x) && x == m)
                &&& active && n >= 1 && m >= k ==> {
                    &&& (step matches DataStep::Packet(p) && p@ == spec_data_packet(
                        old(self).spec_sequence(),
                        old(self).spec_header_idx(),
                        Seq::new(n, |i: int| ch[i].take(k)),
                    ))
                    &&& final(self).spec_channels() == Seq::new(
                        12,
                        |i: int| if i < n { ch[i].skip(k) } else { ch[i] },
                    )
                    &&& final(self).spec_sequence() == old(self).spec_sequence().wrapping_add(1)
                    &&& final(self).spec_header_idx() == (old(self).spec_header_idx() + 2) % 5
                }
                &&& !(step is Packet) ==> {
                    &&& final(self).spec_channels() == ch
                    &&& final(self).spec_sequence() == old(self).spec_sequence()
                    &&& final(self).spec_header_idx() == old(self).spec_header_idx()
                }
                &&& final(self).spec_config() == old(self).spec_config()
                &&& final(self).spec_client() == old(self).spec_client()
            }),
    {
        let active = match self.client_active {
            Some(a) => a,
            None => false,
        };
        if !active {
            return DataStep::Idle;
        }
        let n = self.rx_config.num_receivers as usize;
        let ghost ch = self.spec_channels();
        // minimum buffered count over the announced receivers
        let mut min_samples: usize = 0;
        let mut i: usize = 0;
        while i < n
            invariant
                n <= MAX_RECEIVERS,
                self.channel_states.len() == MAX_RECEIVERS,
                ch == self.spec_channels(),
                i <= n,
                min_samples as int == spec_min_available(ch, i as nat),
            decreases n - i,
        {
            let c = self.channel_states[i].samples_available();
            assert(c == ch[i as int].len());
            if i == 0 || c < min_samples {
                min_samples = c;
            }
            i = i + 1;
        }
        let k = packet_samples(n);
        if n == 0 || min_samples < k {
            return DataStep::Starved(min_samples);
        }
        proof {
            assert forall|j: int| 0 <= j < n implies ch[j].len() >= k by {
                lemma_min_le(ch, n as nat, j);
            }
        }
        let ghost builder = self.packet_builder;
        let ghost cfg = self.rx_config;
        let ghost client = self.client_active;
        let mut samples: Vec<Vec<(i32, i32)>> = Vec::new();
        let mut r: usize = 0;
        while r < n
            invariant
                1 <= n <= MAX_RECEIVERS,
                r <= n,
                k as int == spec_packet_samples(n as int),
                forall|j: int| 0 <= j < n ==> ch[j].len() >= k,
                ch.len() == MAX_RECEIVERS,
                self.channel_states.len() == MAX_RECEIVERS,
                self.packet_builder == builder,
                self.rx_config == cfg,
                self.client_active == client,
                self.spec_channels() == Seq::new(12, |j: int| if j < r { ch[j].skip(k as int) } else { ch[j] }),
                samples@.map_values(|v: Vec<(i32, i32)>| v@) == Seq::new(r as nat, |j: int| ch[j].take(k as int)),
            decreases n - r,
        {
            let ghost before_ch = self.channel_states@;
            let ghost old_spec = self.spec_channels();
            assert(self.spec_channels()[r as int] == ch[r as int]);
            assert(before_ch[r as int]@ == ch[r as int]);
            let mut cur = ChannelState { buffer: Vec::new() };
            self.channel_states.set_and_swap(r, &mut cur);
            assert(cur == before_ch[r as int]);
            let taken = cur.get_samples(k);
            assert(cur@ == ch[r as int].skip(k as int));
            let ghost put = cur;
            self.channel_states.set_and_swap(r, &mut cur);
            assert(self.channel_states@ =~= before_ch.update(r as int, put));
            assert(self.spec_channels() =~= old_spec.update(r as int, ch[r as int].skip(k as int)));
            let ghost before = samples@.map_values(|v: Vec<(i32, i32)>| v@);
            samples.push(taken);
            assert(samples@.map_values(|v: Vec<(i32, i32)>| v@) =~= before.push(ch[r as int].take(k as int)));
            r = r + 1;
            assert(samples@.map_values(|v: Vec<(i32, i32)>| v@) =~= Seq::new(r as nat, |j: int| ch[j].take(k as int)));
            assert(self.spec_channels() =~= Seq::new(12, |j: int| if j < r { ch[j].skip(k as int) } else { ch[j] }));
        }
        let p = self.packet_builder.build_packet(&samples);
        DataStep::Packet(p)
    }
}

} // verus!
