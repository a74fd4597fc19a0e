use sddc::protocol::{
    frame_header, CommandType, ControlPacket, DataPacketBuilder, DiscoveryReply, RxConfig, MAGIC_DATA_RX,
};

#[test]
fn test_discovery_reply() {
    let mac = [0x12, 0x34, 0x56, 0x78, 0x9A, 0xBC];
    let reply = DiscoveryReply::new(mac, 4, false);
    let bytes = reply.to_bytes();

    assert_eq!(bytes[0], 0xEF);
    assert_eq!(bytes[1], 0xFE);
    assert_eq!(bytes[2], 0x02);
    assert_eq!(bytes[3], 0x02); // inactive
    assert_eq!(&bytes[4..10], &mac);
    assert_eq!(bytes[10], 73);
    assert_eq!(bytes[19], 4);
}

#[test]
fn test_rx_config_parse() {
    let data = [0x00, 0x00, 0x00, 0x18]; // 4 receivers (3 << 3 + 1 = 4)
    let config = RxConfig::parse_general_packet(&data).unwrap();
    assert_eq!(config.num_receivers, 4);
}

#[test]
fn test_sample_rates() {
    let mut config = RxConfig {
        sample_rate_code: 0,
        ..Default::default()
    };

    assert_eq!(config.get_sample_rate(), 48_000);
    assert_eq!(config.get_decimation(), 1280);

    config.sample_rate_code = 3;
    assert_eq!(config.get_sample_rate(), 384_000);
    assert_eq!(config.get_decimation(), 160);
}

#[test]
fn discovery_reply_active_status_and_zero_padding() {
    let mac = [1, 2, 3, 4, 5, 6];
    let bytes = DiscoveryReply::new(mac, 12, true).to_bytes();
    assert_eq!(bytes.len(), 60);
    assert_eq!(bytes[3], 0x03);
    assert_eq!(bytes[11], 0x06);
    for i in 12..19 {
        assert_eq!(bytes[i], 0);
    }
    for i in 20..60 {
        assert_eq!(bytes[i], 0);
    }
}

#[test]
fn all_sample_rate_codes_multiply_to_converter_clock() {
    for code in 0u8..=255 {
        let c = RxConfig { sample_rate_code: code, ..Default::default() };
        assert_eq!(c.get_sample_rate() as u64 * c.get_decimation() as u64, 61_440_000);
    }
    let c = RxConfig { sample_rate_code: 1, ..Default::default() };
    assert_eq!((c.get_sample_rate(), c.get_decimation()), (96_000, 640));
    let c = RxConfig { sample_rate_code: 2, ..Default::default() };
    assert_eq!((c.get_sample_rate(), c.get_decimation()), (192_000, 320));
    let c = RxConfig { sample_rate_code: 7, ..Default::default() };
    assert_eq!((c.get_sample_rate(), c.get_decimation()), (48_000, 1280));
}

#[test]
fn default_rx_config_is_one_receiver_at_48k() {
    let c = RxConfig::default();
    assert_eq!(c.num_receivers, 1);
    assert_eq!(c.sample_rate_code, 0);
    assert_eq!(c.adc_config, 0);
    assert_eq!(c.attenuation_db, 0);
    assert_eq!(c.lpf_select, 0);
}

#[test]
fn general_packet_fields_and_short_payload() {
    let c = RxConfig::parse_general_packet(&[0xFF, 0x00, 0x0C, 0xFF]).unwrap();
    assert_eq!(c.sample_rate_code, 3);
    assert_eq!(c.adc_config, 3);
    assert_eq!(c.num_receivers, 8);
    assert!(RxConfig::parse_general_packet(&[0, 0, 0]).is_none());
    let c = RxConfig::parse_general_packet(&[0, 0, 0, 0]).unwrap();
    assert_eq!(c.num_receivers, 1);
}

#[test]
fn command_codes_decode() {
    assert_eq!(CommandType::from_raw(0x00), CommandType::General);
    assert_eq!(CommandType::from_raw(0x01), CommandType::TxFreq);
    assert_eq!(CommandType::from_raw(0x02), CommandType::RxFreq(0));
    assert_eq!(CommandType::from_raw(0x08), CommandType::RxFreq(6));
    assert_eq!(CommandType::from_raw(0x09), CommandType::LpfSelect);
    assert_eq!(CommandType::from_raw(0x0a), CommandType::Attenuation);
    assert_eq!(CommandType::from_raw(0x0c), CommandType::TxGainPtt);
    assert_eq!(CommandType::from_raw(0x0e), CommandType::LnaGainTx);
    assert_eq!(CommandType::from_raw(0x0f), CommandType::CwConfig);
    assert_eq!(CommandType::from_raw(0x10), CommandType::CwHangTime);
    assert_eq!(CommandType::from_raw(0x11), CommandType::Unknown(0x11));
    assert_eq!(CommandType::from_raw(0x12), CommandType::RxFreq(7));
    assert_eq!(CommandType::from_raw(0x16), CommandType::RxFreq(11));
    assert_eq!(CommandType::from_raw(0x17), CommandType::PttLatency);
    assert_eq!(CommandType::from_raw(0x20), CommandType::Unknown(0x20));
    assert_eq!(CommandType::from_raw(0x2b), CommandType::Predistortion);
    assert_eq!(CommandType::from_raw(0x30), CommandType::Unknown(0x30));
    assert_eq!(CommandType::from_raw(0x39), CommandType::MiscCommands);
    assert_eq!(CommandType::from_raw(0x3a), CommandType::ResetOnDisconnect);
    assert_eq!(CommandType::from_raw(0x3b), CommandType::Ad9866Spi);
    assert_eq!(CommandType::from_raw(0x3c), CommandType::I2c1);
    assert_eq!(CommandType::from_raw(0x3d), CommandType::I2c2);
    assert_eq!(CommandType::from_raw(0x3e), CommandType::Unknown(0x3e));
    assert_eq!(CommandType::from_raw(0x3f), CommandType::ErrorResponse);
    assert_eq!(CommandType::from_raw(0x7f), CommandType::Unknown(0x7f));
}

#[test]
fn client_rx_codes_decode_to_their_receiver() {
    for rx in 0u8..12 {
        let code = if rx < 7 { 0x02 + rx } else { 0x12 + (rx - 7) };
        assert_eq!(CommandType::from_raw(code), CommandType::RxFreq(rx as usize));
    }
}

#[test]
fn control_packet_parse_shifts_c0() {
    let p = ControlPacket::parse(&[0x05, 1, 2, 3, 4, 99]).unwrap();
    assert_eq!(p.cmd_type, CommandType::RxFreq(0));
    assert_eq!(p.data, [1, 2, 3, 4]);
    assert!(ControlPacket::parse(&[0x04, 1, 2, 3]).is_none());
}

#[test]
fn data_packet_layout_single_receiver() {
    let mut b = DataPacketBuilder::new();
    let mut rx: Vec<(i32, i32)> = Vec::new();
    for k in 0..126 {
        rx.push((0x123456 + k, -1 - k));
    }
    let p = b.build_packet(&[rx.clone()]);
    assert_eq!(p.len(), 1032);
    assert_eq!(&p[0..4], &MAGIC_DATA_RX.to_le_bytes());
    assert_eq!(&p[4..8], &[0, 0, 0, 0]);
    assert_eq!(&p[8..16], &frame_header(0));
    assert_eq!(&p[16..22], &[0x12, 0x34, 0x56, 0xFF, 0xFF, 0xFF]);
    // sample 1 follows directly
    assert_eq!(&p[22..28], &[0x12, 0x34, 0x57, 0xFF, 0xFF, 0xFE]);
    // frame 0 holds 63 samples, then zeros up to the second header
    assert!(p[16 + 63 * 6..520].iter().all(|&x| x == 0));
    assert_eq!(&p[520..528], &frame_header(1));
    // frame 1 starts with sample 63
    let (i, q) = rx[63];
    let ib = i.to_be_bytes();
    let qb = q.to_be_bytes();
    assert_eq!(&p[528..534], &[ib[1], ib[2], ib[3], qb[1], qb[2], qb[3]]);
    assert!(p[528 + 63 * 6..].iter().all(|&x| x == 0));

    let p2 = b.build_packet(&[rx]);
    assert_eq!(&p2[4..8], &[0, 0, 0, 1]);
    assert_eq!(&p2[8..16], &frame_header(2));
    assert_eq!(&p2[520..528], &frame_header(3));
}

#[test]
fn data_packet_headers_rotate_and_sequence_counts() {
    let mut b = DataPacketBuilder::new();
    let empty: Vec<Vec<(i32, i32)>> = Vec::new();
    let mut seen = Vec::new();
    for n in 0u32..6 {
        let p = b.build_packet(&empty);
        assert_eq!(p.len(), 1032);
        assert_eq!(u32::from_be_bytes([p[4], p[5], p[6], p[7]]), n);
        seen.push(p[8 + 3]);
        seen.push(p[520 + 3]);
        assert!(p[16..520].iter().all(|&x| x == 0));
        assert!(p[528..].iter().all(|&x| x == 0));
    }
    assert_eq!(seen, vec![0, 8, 16, 24, 32, 0, 8, 16, 24, 32, 0, 8]);
}

#[test]
fn data_packet_skips_short_receivers() {
    let mut b = DataPacketBuilder::new();
    let a: Vec<(i32, i32)> = vec![(1, 2), (3, 4), (5, 6), (7, 8)];
    let c: Vec<(i32, i32)> = vec![(9, 10)];
    let p = b.build_packet(&[a, c]);
    // frame 0: slot 0 -> a[0], c[0]; slot 1 -> a[1]
    assert_eq!(&p[16..22], &[0, 0, 1, 0, 0, 2]);
    assert_eq!(&p[22..28], &[0, 0, 9, 0, 0, 10]);
    assert_eq!(&p[28..34], &[0, 0, 3, 0, 0, 4]);
    assert_eq!(&p[34..40], &[0, 0, 0, 0, 0, 0]);
    // frame 1: slot 0 -> a[2]; slot 1 -> a[3]
    assert_eq!(&p[528..534], &[0, 0, 5, 0, 0, 6]);
    assert_eq!(&p[534..540], &[0, 0, 7, 0, 0, 8]);
}

fn i24(b: &[u8]) -> i32 {
    let u = ((b[0] as i32) << 16) | ((b[1] as i32) << 8) | b[2] as i32;
    if u >= 0x80_0000 {
        u - 0x100_0000
    } else {
        u
    }
}

#[test]
fn data_packet_samples_read_back_as_24_bit() {
    let mut samples = vec![(0i32, 0i32); 126];
    samples[0] = (-5, 8_388_607);
    samples[1] = (-8_388_608, 1);
    samples[63] = (123_456, -654_321);
    let mut b = DataPacketBuilder::new();
    let p = b.build_packet(&[samples]);
    assert_eq!((i24(&p[16..19]), i24(&p[19..22])), (-5, 8_388_607));
    assert_eq!((i24(&p[22..25]), i24(&p[25..28])), (-8_388_608, 1));
    // the second frame starts with sample 63
    assert_eq!((i24(&p[528..531]), i24(&p[531..534])), (123_456, -654_321));
}

#[test]
fn two_receivers_of_126_samples_fill_42_slots_per_frame() {
    let mut b = DataPacketBuilder::new();
    let a: Vec<(i32, i32)> = (0..126).map(|k| (k, 0)).collect();
    let c: Vec<(i32, i32)> = (0..126).map(|k| (0, k)).collect();
    let p = b.build_packet(&[a, c]);
    assert_eq!(p.len(), 1032);
    // slot 41 of frame 0 fills the payload up to the second header
    assert_eq!(&p[16 + 41 * 12..16 + 41 * 12 + 3], &[0, 0, 41]);
    assert_eq!(&p[16 + 41 * 12 + 9..520], &[0, 0, 41]);
    // frame 1 carries slots 42 to 83, and its header is intact
    assert_eq!(&p[520..528], &frame_header(1));
    assert_eq!(&p[528..531], &[0, 0, 42]);
    assert_eq!(&p[528 + 41 * 12..528 + 41 * 12 + 3], &[0, 0, 83]);
    assert_eq!(&p[1029..1032], &[0, 0, 83]);
}

#[test]
fn one_receiver_of_168_samples_fills_both_frames() {
    let mut b = DataPacketBuilder::new();
    let rx: Vec<(i32, i32)> = (0..168).map(|k| (k + 1, -(k + 1))).collect();
    let p = b.build_packet(&[rx]);
    // 84 slots per frame: sample 63 sits at byte 16 + 63 * 6 = 394
    assert_eq!(&p[394..400], &[0, 0, 64, 0xFF, 0xFF, 0xC0]);
    assert_eq!(&p[514..520], &[0, 0, 84, 0xFF, 0xFF, 0xAC]);
    assert_eq!(&p[528..531], &[0, 0, 85]);
    assert_eq!(&p[1026..1032], &[0, 0, 168, 0xFF, 0xFF, 0x58]);
}
