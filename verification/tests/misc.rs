use sddc::client::{
    configure_command, frequency_command, magic_packet, parse_discovery_reply, ClientError, DataStats,
};
use sddc::flash::{
    image_chunks_fit, load_firmware, plan_firmware, read_u32_le, readback_matches, validate_firmware_header, ChunkWrite,
    FlashError, ImageOutcome,
};
use sddc::interface::{RadioModel, Register, FX3Command};
use sddc::mac::{parse_mac_address, MacParseError};
use sddc::protocol::{DataPacketBuilder, DiscoveryReply, MAGIC_DATA_TX, MAGIC_DISCOVERY};
use sddc::sample_rate::calculate_sample_rate;
use sddc::scan::{average_lock_time, combine_ranges, lock_step, FreqResult, LockAction};
use sddc::server::ServerState;
use sddc::usb::{LoggedUsb, UsbError, UsbInterface};
use std::cell::RefCell;
use std::collections::HashMap;
use std::time::Duration;

#[test]
fn mac_addresses_parse() {
    assert_eq!(parse_mac_address("00:11:22:33:44:55"), Ok([0x00, 0x11, 0x22, 0x33, 0x44, 0x55]));
    assert_eq!(parse_mac_address("aA:Bb:0c:+d:00ff:1"), Ok([0xaa, 0xbb, 0x0c, 0x0d, 0xff, 0x01]));
    assert_eq!(parse_mac_address("00:11:22:33:44"), Err(MacParseError::WrongOctetCount));
    assert_eq!(parse_mac_address("00:11:22:33:44:55:66"), Err(MacParseError::WrongOctetCount));
    assert_eq!(parse_mac_address(""), Err(MacParseError::WrongOctetCount));
    assert_eq!(
        parse_mac_address("00:zz:22:33:44:100"),
        Err(MacParseError::InvalidOctet(b"zz".to_vec()))
    );
    assert_eq!(parse_mac_address("00:11:22:33:44:100"), Err(MacParseError::InvalidOctet(b"100".to_vec())));
    assert_eq!(parse_mac_address("00:11::33:44:55"), Err(MacParseError::InvalidOctet(Vec::new())));
    assert_eq!(parse_mac_address("00:11:+:33:44:55"), Err(MacParseError::InvalidOctet(b"+".to_vec())));
    assert_eq!(parse_mac_address("00:11:-1:33:44:55"), Err(MacParseError::InvalidOctet(b"-1".to_vec())));
    assert_eq!(parse_mac_address("00:11:é:33:44:55"), Err(MacParseError::InvalidOctet("é".as_bytes().to_vec())));
}

#[test]
fn sample_rate_choices() {
    assert_eq!(calculate_sample_rate(48_000), (49_152_000, 1024));
    assert_eq!(calculate_sample_rate(96_000), (49_152_000, 512));
    assert_eq!(calculate_sample_rate(192_000), (49_152_000, 256));
    assert_eq!(calculate_sample_rate(384_000), (49_152_000, 128));
    assert_eq!(calculate_sample_rate(500_000), (32_000_000, 64));
    assert_eq!(calculate_sample_rate(1_000_000), (64_000_000, 64));
    assert_eq!(calculate_sample_rate(10_000), (40_960_000, 4096));
    assert_eq!(calculate_sample_rate(10), (32_000_000, 1));
    assert_eq!(calculate_sample_rate(100_000), (51_200_000, 512));
}

fn fr(freq_mhz: u32, harmonic: bool, lock_time_ms: u64) -> FreqResult {
    FreqResult { freq_mhz, locked: true, harmonic, lock_time_ms }
}

#[test]
fn scan_results_combine_into_ranges() {
    assert!(combine_ranges(&[]).is_empty());
    let r = combine_ranges(&[
        fr(50, true, 3),
        fr(51, true, 4),
        fr(52, false, 5),
        fr(60, true, 6),
        fr(61, true, 7),
        fr(70, false, 8),
    ]);
    assert_eq!(r.len(), 3);
    assert_eq!((r[0].start_mhz, r[0].end_mhz, r[0].count), (50, 52, 3));
    assert!(!r[0].all_harmonic && r[0].any_harmonic);
    assert_eq!(r[0].lock_times, vec![3, 4, 5]);
    assert_eq!((r[1].start_mhz, r[1].end_mhz, r[1].count), (60, 61, 2));
    assert!(r[1].all_harmonic && r[1].any_harmonic);
    assert_eq!((r[2].start_mhz, r[2].end_mhz, r[2].count), (70, 70, 1));
    assert!(!r[2].all_harmonic && !r[2].any_harmonic);
    assert_eq!(r.iter().map(|x| x.count as usize).sum::<usize>(), 6);
}

#[test]
fn firmware_header_checks() {
    assert!(matches!(validate_firmware_header(b"CY"), Err(FlashError::TooSmall)));
    assert!(matches!(validate_firmware_header(b"XY\x00\xB0"), Err(FlashError::BadSignature)));
    assert!(matches!(validate_firmware_header(b"CY\x00\xB1"), Err(FlashError::UnsupportedImage)));
    assert!(validate_firmware_header(b"CY\x1C\xB0").is_ok());
    assert_eq!(read_u32_le(&[1, 2, 3, 4, 5], 1).unwrap(), 0x05040302);
    assert!(matches!(read_u32_le(&[1, 2, 3, 4, 5], 2), Err(FlashError::Truncated)));
    assert!(readback_matches(&[1, 2], &[1, 2, 3]));
    assert!(!readback_matches(&[1, 2], &[1, 3, 3]));
    assert!(!readback_matches(&[1, 2], &[1]));
}

struct FakeLoader {
    ram: RefCell<HashMap<u32, u8>>,
    writes: RefCell<Vec<(u8, u16, u16, usize)>>,
    corrupt: bool,
}

impl UsbInterface for FakeLoader {
    fn control_write(&self, request: u8, value: u16, index: u16, data: &[u8], _t: Duration) -> Result<(), UsbError> {
        let addr = ((index as u32) << 16) | value as u32;
        for (k, b) in data.iter().enumerate() {
            self.ram.borrow_mut().insert(addr + k as u32, *b);
        }
        self.writes.borrow_mut().push((request, value, index, data.len()));
        Ok(())
    }

    fn control_read(&self, _r: u8, value: u16, index: u16, length: u16, _t: Duration) -> Result<Vec<u8>, UsbError> {
        let addr = ((index as u32) << 16) | value as u32;
        let ram = self.ram.borrow();
        let mut v: Vec<u8> = (0..length as u32).map(|k| *ram.get(&(addr + k)).unwrap_or(&0)).collect();
        if self.corrupt {
            v[0] ^= 0xff;
        }
        Ok(v)
    }
}

fn image(words: &[u32], address: u32, jump: u32, checksum: Option<u32>) -> Vec<u8> {
    let mut fw = b"CY\x1C\xB0".to_vec();
    fw.extend_from_slice(&(words.len() as u32).to_le_bytes());
    fw.extend_from_slice(&address.to_le_bytes());
    let mut sum = 0u32;
    for w in words {
        fw.extend_from_slice(&w.to_le_bytes());
        sum = sum.wrapping_add(*w);
    }
    fw.extend_from_slice(&0u32.to_le_bytes());
    fw.extend_from_slice(&jump.to_le_bytes());
    fw.extend_from_slice(&checksum.unwrap_or(sum).to_le_bytes());
    fw
}

#[test]
fn firmware_loads_verifies_and_jumps() {
    let words: Vec<u32> = (0..1500).map(|k| 0x1000_0000 + k).collect();
    let fw = image(&words, 0x4000_0000, 0x4000_1234, None);
    let mut usb = LoggedUsb::new(FakeLoader { ram: RefCell::new(HashMap::new()), writes: RefCell::new(Vec::new()), corrupt: false });
    assert!(load_firmware(&mut usb, &fw, Duration::from_secs(1)).is_ok());
    let w = usb.device().writes.borrow();
    // 6000 bytes in chunks of 4096 and 1904, then the empty jump write
    assert_eq!(w.len(), 3);
    assert_eq!(w[0], (0xA0, 0x0000, 0x4000, 4096));
    assert_eq!(w[1], (0xA0, 0x1000, 0x4000, 1904));
    assert_eq!(w[2], (0xA0, 0x1234, 0x4000, 0));
    assert_eq!(*usb.device().ram.borrow().get(&0x4000_0000).unwrap(), 0x00);
    assert_eq!(*usb.device().ram.borrow().get(&0x4000_0003).unwrap(), 0x10);
}

#[test]
fn firmware_errors() {
    let good = image(&[1, 2, 3], 0x100, 0x200, None);
    let usb = || FakeLoader { ram: RefCell::new(HashMap::new()), writes: RefCell::new(Vec::new()), corrupt: false };
    let bad_sum = image(&[1, 2, 3], 0x100, 0x200, Some(7));
    assert!(matches!(
        load_firmware(&mut LoggedUsb::new(usb()), &bad_sum, Duration::from_secs(1)),
        Err(FlashError::ChecksumMismatch { calculated: 6, expected: 7 })
    ));
    let truncated = &good[..good.len() - 2];
    assert!(matches!(load_firmware(&mut LoggedUsb::new(usb()), truncated, Duration::from_secs(1)), Err(FlashError::Truncated)));
    let cut_segment = &good[..14];
    assert!(matches!(load_firmware(&mut LoggedUsb::new(usb()), cut_segment, Duration::from_secs(1)), Err(FlashError::Truncated)));
    let mut corrupt = LoggedUsb::new(FakeLoader { ram: RefCell::new(HashMap::new()), writes: RefCell::new(Vec::new()), corrupt: true });
    assert!(matches!(load_firmware(&mut corrupt, &good, Duration::from_secs(1)), Err(FlashError::VerifyFailed(0x100))));
    assert!(matches!(load_firmware(&mut LoggedUsb::new(usb()), b"CY", Duration::from_secs(1)), Err(FlashError::TooSmall)));
}

#[test]
fn client_requests() {
    assert_eq!(magic_packet(MAGIC_DISCOVERY), vec![0xef, 0xfe, 0x02, 0x00]);
    let p = frequency_command(8, 7_074_000).unwrap();
    assert_eq!(p.len(), 1032);
    assert_eq!(&p[0..4], &MAGIC_DATA_TX.to_le_bytes());
    assert_eq!(&p[4..8], &[0, 0, 0, 0]);
    assert_eq!(&p[8..16], &[0x7F, 0x7F, 0x7F, 0x26, 0x00, 0x6B, 0xF0, 0xD0]);
    assert_eq!(&p[520..528], &[0x7F, 0x7F, 0x7F, 0x02, 0x00, 0x00, 0x00, 0x00]);
    assert!(p[16..520].iter().all(|&b| b == 0));
    assert!(p[528..].iter().all(|&b| b == 0));
    assert_eq!(frequency_command(12, 1), Err(ClientError::InvalidRx(12)));
    assert_eq!(frequency_command(0, 1).unwrap()[11], 0x04);
    for rx in 0..12u8 {
        assert!(frequency_command(rx, 1).is_ok());
    }
    let c = configure_command(3, 4);
    assert_eq!(&c[11..16], &[0x00, 0x03, 0x00, 0x00, 0x18]);
    let c = configure_command(0xFF, 0);
    assert_eq!(&c[11..16], &[0x00, 0x03, 0x00, 0x00, 0x00]);
}

#[test]
fn client_commands_reach_the_server() {
    let mut s = ServerState::new();
    for rx in 0..12u8 {
        let out = s.handle_command([0; 6], &frequency_command(rx, 7_074_000 + rx as u64).unwrap());
        assert_eq!(out.freq_changes, vec![(rx as usize, 7_074_000 + rx as u64)]);
    }
    let out = s.handle_command([0; 6], &configure_command(2, 4));
    assert!(out.freq_changes.is_empty());
    assert_eq!(s.get_num_receivers(), 4);
    assert_eq!(s.get_sample_rate(), 192_000);
}

#[test]
fn client_reads_server_discovery_reply() {
    let mac = [9, 8, 7, 6, 5, 4];
    let bytes = DiscoveryReply::new(mac, 3, true).to_bytes();
    let info = parse_discovery_reply(&bytes).unwrap();
    assert_eq!(info.mac, mac);
    assert_eq!(info.status, 3);
    assert_eq!(info.board_id, 73);
    assert_eq!(info.protocol_version, 6);
    assert_eq!(info.num_receivers, 3);
    assert_eq!(parse_discovery_reply(&bytes[..59]).unwrap_err(), ClientError::InvalidReply);
    let mut wrong = bytes;
    wrong[2] = 0x03;
    assert!(parse_discovery_reply(&wrong).is_err());
}

#[test]
fn data_stats_count_packets_and_drops() {
    let mut st = DataStats::default();
    let mut b = DataPacketBuilder::new();
    let none: Vec<Vec<(i32, i32)>> = Vec::new();
    for _ in 0..3 {
        st.record_packet(&b.build_packet(&none));
    }
    assert_eq!((st.packet_count, st.total_bytes, st.invalid_packets, st.dropped_packets), (3, 3096, 0, 0));
    assert_eq!((st.first_seq, st.last_seq, st.prev_seq), (0, 2, 2));
    b.build_packet(&none); // lost
    st.record_packet(&b.build_packet(&none));
    assert_eq!(st.dropped_packets, 1);
    st.record_packet(&[1, 2, 3]);
    st.record_packet(&MAGIC_DATA_TX.to_le_bytes().repeat(2));
    assert_eq!((st.packet_count, st.invalid_packets), (6, 2));
}

#[test]
fn register_and_model_codes() {
    assert_eq!(Register::REG_ADC.address(), 0x02);
    assert_eq!(Register::REG_TUNER.address(), 0x82);
    assert_eq!(Register::REG_TUNER_CENTER_FREQ_HIGH.address(), 0xa4);
    assert_eq!(FX3Command::NVMOP.code(), 0x03);
    assert_eq!(RadioModel::RX888pro.code(), 0x07);
    assert_eq!(RadioModel::from_code(0x04), Some(RadioModel::RX888r2));
    assert_eq!(RadioModel::from_code(0x06), None);
}

#[test]
fn firmware_chunk_addresses_fit() {
    let words: Vec<u32> = (0..1500).collect();
    // 6000 bytes: chunks at the address and 4096 above it
    assert!(image_chunks_fit(&image(&words, 0xFFFF_EFFF, 0, None)));
    assert!(!image_chunks_fit(&image(&words, 0xFFFF_F000, 0, None)));
    assert!(image_chunks_fit(&image(&[1], 0xFFFF_FFFF, 0, None)));
    // an image without segments, or a truncated one, has nothing to write
    assert!(image_chunks_fit(&image(&[], 0, 0, None)));
    assert!(image_chunks_fit(b"CY"));
}

#[test]
fn scan_average_lock_times() {
    assert_eq!(average_lock_time(&[]), 0);
    assert_eq!(average_lock_time(&[10, 20, 35]), 21);
    assert_eq!(average_lock_time(&[u64::MAX]), u64::MAX);
    let r = combine_ranges(&[fr(100, false, 10), fr(101, false, 30), fr(105, true, 7)]);
    assert_eq!(average_lock_time(&r[0].lock_times), 20);
    assert_eq!(average_lock_time(&r[1].lock_times), 7);
}

#[test]
fn firmware_plan_lists_chunks_and_outcome() {
    let words: Vec<u32> = (0..1500).collect();
    let (chunks, outcome) = plan_firmware(&image(&words, 0x4000_0000, 0x4000_1234, None));
    assert_eq!(
        chunks,
        vec![
            ChunkWrite { address: 0x4000_0000, start: 12, end: 12 + 4096 },
            ChunkWrite { address: 0x4000_1000, start: 12 + 4096, end: 12 + 6000 },
        ]
    );
    assert_eq!(outcome, ImageOutcome::Valid(0x4000_1234));
    let (chunks, outcome) = plan_firmware(&image(&[1, 2, 3], 0x100, 0x200, Some(7)));
    assert_eq!(chunks, vec![ChunkWrite { address: 0x100, start: 12, end: 24 }]);
    assert_eq!(outcome, ImageOutcome::Mismatch { calculated: 6, expected: 7 });
    let good = image(&[1, 2, 3], 0x100, 0x200, None);
    let (chunks, outcome) = plan_firmware(&good[..good.len() - 2]);
    assert_eq!(chunks.len(), 1);
    assert_eq!(outcome, ImageOutcome::Truncated);
    let (chunks, outcome) = plan_firmware(&good[..14]);
    assert!(chunks.is_empty());
    assert_eq!(outcome, ImageOutcome::Truncated);
}

struct DeadUsb;

impl UsbInterface for DeadUsb {
    fn control_write(&self, _r: u8, _v: u16, _i: u16, _d: &[u8], _t: Duration) -> Result<(), UsbError> {
        Err(UsbError { message: "USB write failed".to_string() })
    }

    fn control_read(&self, _r: u8, _v: u16, _i: u16, _l: u16, _t: Duration) -> Result<Vec<u8>, UsbError> {
        Err(UsbError { message: "USB read failed".to_string() })
    }
}

#[test]
fn firmware_usb_failure_is_reported() {
    let fw = image(&[1, 2, 3], 0x100, 0x200, None);
    match load_firmware(&mut LoggedUsb::new(DeadUsb), &fw, Duration::from_secs(1)) {
        Err(FlashError::Usb(e)) => assert_eq!(e.message, "USB write failed"),
        other => panic!("unexpected result {:?}", other),
    }
    // the header is checked before any transfer
    assert!(matches!(load_firmware(&mut LoggedUsb::new(DeadUsb), b"XY\x00\xB0", Duration::from_secs(1)), Err(FlashError::BadSignature)));
}

#[test]
fn printed_mac_parses_back() {
    for mac in [[0x02u8, 0xAB, 0x00, 0xFF, 0x10, 0x7E], [0, 0, 0, 0, 0, 0], [0xFF; 6]] {
        let text = format!(
            "{:02X}:{:02X}:{:02X}:{:02X}:{:02X}:{:02X}",
            mac[0], mac[1], mac[2], mac[3], mac[4], mac[5]
        );
        assert_eq!(parse_mac_address(&text), Ok(mac));
    }
}

#[test]
fn lock_wait_steps() {
    assert_eq!(lock_step(0, 5, 12, 1000, Some((true, true))), LockAction::Locked { harmonic: true, lock_time_ms: 12 });
    // a lock counts even past the timeout
    assert_eq!(lock_step(4, 5, 2000, 1000, Some((true, false))), LockAction::Locked { harmonic: false, lock_time_ms: 2000 });
    assert_eq!(lock_step(0, 5, 12, 1000, Some((false, true))), LockAction::Retry);
    assert_eq!(lock_step(0, 5, 12, 1000, None), LockAction::Retry);
    assert_eq!(lock_step(4, 5, 12, 1000, None), LockAction::GaveUp);
    assert_eq!(lock_step(1, 5, 1001, 1000, Some((false, false))), LockAction::TimedOut);
    assert_eq!(lock_step(4, 5, 1000, 1000, None), LockAction::GaveUp);
}

#[test]
fn bad_header_touches_no_device() {
    let mut usb = LoggedUsb::new(FakeLoader { ram: RefCell::new(HashMap::new()), writes: RefCell::new(Vec::new()), corrupt: false });
    assert!(matches!(load_firmware(&mut usb, b"XY\x00\xB0", Duration::from_secs(1)), Err(FlashError::BadSignature)));
    assert!(usb.device().writes.borrow().is_empty());
    assert!(usb.device().ram.borrow().is_empty());
}

#[test]
fn checksum_mismatch_does_not_start_firmware() {
    let fw = image(&[1, 2, 3], 0x100, 0x200, Some(7));
    let mut usb = LoggedUsb::new(FakeLoader { ram: RefCell::new(HashMap::new()), writes: RefCell::new(Vec::new()), corrupt: false });
    assert!(matches!(load_firmware(&mut usb, &fw, Duration::from_secs(1)), Err(FlashError::ChecksumMismatch { .. })));
    // the data is written, but no jump to the start address follows
    assert_eq!(*usb.device().writes.borrow(), vec![(0xA0, 0x0100, 0x0000, 12)]);
}
