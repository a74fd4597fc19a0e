use sddc::protocol::{DataPacketBuilder, MAGIC_DATA_TX, MAGIC_DISCOVERY, MAGIC_START, MAGIC_STOP};
use sddc::server::{mac_from_timestamp, packet_samples, ChannelState, ControlEffect, DataStep, ServerState};

#[test]
fn test_server_creation() {
    let server = ServerState::new();
    assert_eq!(server.get_num_receivers(), 1);
    assert_eq!(server.get_sample_rate(), 48_000);
}

#[test]
fn channel_state_fifo_and_padding() {
    let mut c = ChannelState::new(48_000);
    assert_eq!(c.samples_available(), 0);
    c.add_sample(1, 2);
    c.add_sample(3, 4);
    c.add_sample(5, 6);
    assert_eq!(c.samples_available(), 3);
    assert_eq!(c.get_samples(2), vec![(1, 2), (3, 4)]);
    assert_eq!(c.samples_available(), 1);
    assert_eq!(c.get_samples(3), vec![(5, 6), (0, 0), (0, 0)]);
    assert_eq!(c.samples_available(), 0);
    assert_eq!(c.get_samples(0), Vec::<(i32, i32)>::new());
}

#[test]
fn channel_samples_are_added_and_counted() {
    let mut s = ServerState::new();
    s.add_channel_samples(0, &[(4194303, -4194304), (-6710886, 2516582)]);
    assert_eq!(s.samples_available(0), 2);
    s.add_channel_samples(12, &[(1, 1)]);
    for i in 1..12 {
        assert_eq!(s.samples_available(i), 0);
    }
}

#[test]
fn set_num_receivers_clamps_to_twelve() {
    let mut s = ServerState::new();
    s.set_num_receivers(5);
    assert_eq!(s.get_num_receivers(), 5);
    s.set_num_receivers(200);
    assert_eq!(s.get_num_receivers(), 12);
}

#[test]
fn mac_from_timestamp_uses_low_five_bytes() {
    assert_eq!(mac_from_timestamp(0x0102_0304_0506), [0x02, 0x02, 0x03, 0x04, 0x05, 0x06]);
    assert_eq!(mac_from_timestamp(0), [0x02, 0, 0, 0, 0, 0]);
}

fn freq_packet(freq: u32) -> Vec<u8> {
    let mut packet = vec![0u8; 1032];
    packet[0..4].copy_from_slice(&MAGIC_DATA_TX.to_le_bytes());
    packet[11] = 0x04; // (0x04 >> 1) == 0x02 -> receiver 0
    packet[12..16].copy_from_slice(&freq.to_be_bytes());
    packet
}

#[test]
fn discovery_reports_status_mac_and_receivers() {
    let mut s = ServerState::new();
    let mac = [0x02, 0, 0, 0, 0, 1];
    let out = s.handle_command(mac, &MAGIC_DISCOVERY.to_le_bytes());
    let reply = out.reply.unwrap();
    assert_eq!(&reply[0..4], &[0xEF, 0xFE, 0x02, 0x02]);
    assert_eq!(&reply[4..10], &mac);
    assert_eq!(reply[10], 73);
    assert_eq!(reply[19], 1);
    assert!(!out.new_client);

    let out = s.handle_command(mac, &MAGIC_START.to_le_bytes());
    assert!(out.new_client);
    assert!(out.reply.is_none());
    assert_eq!(s.client_active(), Some(true));
    let out = s.handle_command(mac, &MAGIC_DISCOVERY.to_le_bytes());
    assert_eq!(out.reply.unwrap()[3], 0x03);

    s.handle_command(mac, &MAGIC_STOP.to_le_bytes());
    assert_eq!(s.client_active(), Some(false));
}

#[test]
fn short_or_unknown_datagrams_are_ignored() {
    let mut s = ServerState::new();
    let out = s.handle_command([0; 6], &[0xef, 0xfe, 0x02]);
    assert!(out.reply.is_none() && !out.new_client && out.effects.is_empty());
    let out = s.handle_command([0; 6], &[1, 2, 3, 4, 5]);
    assert!(out.reply.is_none() && !out.new_client && out.effects.is_empty());
    assert_eq!(s.client_active(), None);
    // stop without client leaves no client
    s.handle_command([0; 6], &MAGIC_STOP.to_le_bytes());
    assert_eq!(s.client_active(), None);
}

#[test]
fn frequency_callback_invoked() {
    let mut s = ServerState::new();
    s.handle_command([0; 6], &MAGIC_START.to_le_bytes());
    let out = s.handle_command([0; 6], &freq_packet(7_074_000));
    assert!(!out.new_client);
    assert_eq!(out.freq_changes, vec![(0usize, 7_074_000u64)]);
    assert_eq!(out.effects.len(), 2);
    assert_eq!(out.effects[0], ControlEffect::Frequency { rx: 0, freq: 7_074_000 });
    assert_eq!(out.effects[1], ControlEffect::ConfigChanged { previous: sddc::protocol::RxConfig::default(), current: sddc::protocol::RxConfig::default() });
}

#[test]
fn data_from_unknown_sender_becomes_client() {
    let mut s = ServerState::new();
    let mut packet = vec![0u8; 600];
    packet[0..4].copy_from_slice(&MAGIC_DATA_TX.to_le_bytes());
    // general frame: 3 receivers, 192 kHz
    packet[11] = 0x00;
    packet[12] = 0x02;
    packet[15] = 0x10;
    let out = s.handle_command([0; 6], &packet);
    assert!(out.new_client);
    assert_eq!(s.client_active(), Some(true));
    assert_eq!(out.effects.len(), 1);
    assert!(out.freq_changes.is_empty());
    assert_eq!(s.get_num_receivers(), 3);
    assert_eq!(s.get_sample_rate(), 192_000);
}

#[test]
fn control_frame_effects() {
    let mut s = ServerState::new();
    // attenuation with bit 6: low six bits
    assert_eq!(s.process_control_frame(&[0x14, 0, 0, 0, 0x45]), ControlEffect::Attenuation(5));
    // attenuation with bit 5: twice the low five bits
    assert_eq!(s.process_control_frame(&[0x14, 0, 0, 0, 0x23]), ControlEffect::Attenuation(6));
    assert_eq!(s.process_control_frame(&[0x14, 0, 0, 0, 0x03]), ControlEffect::Attenuation(0));
    assert_eq!(s.process_control_frame(&[0x02, 0, 0, 0, 0]), ControlEffect::Ignored);
    assert_eq!(s.process_control_frame(&[0xFE, 0, 0, 0, 0]), ControlEffect::Unknown(0x7f));
    assert_eq!(s.process_control_frame(&[0x00, 0, 0]), ControlEffect::Malformed);
    assert_eq!(
        s.process_control_frame(&[0x28, 0x00, 0x00, 0x01, 0x00]),
        ControlEffect::Frequency { rx: 9, freq: 256 }
    );
}

#[test]
fn data_packets_follow_buffered_samples() {
    let mut s = ServerState::new();
    assert!(matches!(s.next_data_packet(), DataStep::Idle));
    s.handle_command([0; 6], &MAGIC_START.to_le_bytes());
    assert!(matches!(s.next_data_packet(), DataStep::Starved(0)));
    let samples: Vec<(i32, i32)> = (0..130).map(|k| (k, -k)).collect();
    s.add_channel_samples(0, &samples);
    let mut expected = DataPacketBuilder::new();
    let first: Vec<(i32, i32)> = samples[0..126].to_vec();
    let want = expected.build_packet(&[first]);
    match s.next_data_packet() {
        DataStep::Packet(p) => assert_eq!(p, want),
        _ => panic!("expected a packet"),
    }
    assert_eq!(s.samples_available(0), 4);
    assert!(matches!(s.next_data_packet(), DataStep::Starved(4)));
}

#[test]
fn several_receivers_share_a_packet() {
    assert_eq!(packet_samples(1), 126);
    assert_eq!(packet_samples(2), 84);
    assert_eq!(packet_samples(3), 56);
    assert_eq!(packet_samples(4), 42);
    assert_eq!(packet_samples(8), 20);
    assert_eq!(packet_samples(12), 14);
    assert_eq!(packet_samples(0), 0);
    assert_eq!(packet_samples(84), 2);
    assert_eq!(packet_samples(85), 0);
    let mut s = ServerState::new();
    s.handle_command([0; 6], &MAGIC_START.to_le_bytes());
    s.set_num_receivers(2);
    let a: Vec<(i32, i32)> = (0..126).map(|k| (k, k + 1000)).collect();
    let b: Vec<(i32, i32)> = (0..126).map(|k| (-k, -k - 1000)).collect();
    s.add_channel_samples(0, &a);
    assert!(matches!(s.next_data_packet(), DataStep::Starved(0)));
    s.add_channel_samples(1, &b);
    let mut expected = DataPacketBuilder::new();
    let want = expected.build_packet(&[a[..84].to_vec(), b[..84].to_vec()]);
    match s.next_data_packet() {
        DataStep::Packet(p) => {
            assert_eq!(p, want);
            assert_eq!(p.len(), 1032);
            // frame 0 interleaves receiver 0 and 1, slot by slot
            assert_eq!(&p[16..22], &[0, 0, 0, 0, 0x03, 0xE8]);
            assert_eq!(&p[22..28], &[0, 0, 0, 0xFF, 0xFC, 0x18]);
            // frame 1 starts with slot 42
            assert_eq!(&p[528..531], &[0, 0, 42]);
        }
        _ => panic!("expected a packet"),
    }
    assert_eq!(s.samples_available(0), 42);
    assert_eq!(s.samples_available(1), 42);
    assert_eq!(s.samples_available(2), 0);
    assert!(matches!(s.next_data_packet(), DataStep::Starved(42)));
    s.set_num_receivers(0);
    assert!(matches!(s.next_data_packet(), DataStep::Starved(0)));
}

#[test]
fn shutdown_stops_the_client() {
    let mut s = ServerState::new();
    s.deactivate_client();
    assert_eq!(s.client_active(), None);
    s.handle_command([0; 6], &MAGIC_START.to_le_bytes());
    s.deactivate_client();
    assert_eq!(s.client_active(), Some(false));
}

#[test]
fn attenuation_and_filter_selection_are_stored() {
    let mut s = ServerState::new();
    let before = s.rx_config();
    assert_eq!(s.process_control_frame(&[0x14, 0x00, 0x00, 0x00, 0x4A]), ControlEffect::Attenuation(10));
    let after = s.rx_config();
    assert_eq!(after.attenuation_db, 10);
    assert_eq!(
        (after.num_receivers, after.sample_rate_code, after.adc_config, after.lpf_select),
        (before.num_receivers, before.sample_rate_code, before.adc_config, before.lpf_select)
    );
    assert_eq!(s.process_control_frame(&[0x12, 0, 0, 0, 0x21]), ControlEffect::LpfSelect(0x21));
    assert_eq!(s.rx_config().lpf_select, 0x21);
    // a general frame keeps the last attenuation and filter selection
    s.process_control_frame(&[0x00, 0x01, 0x00, 0x00, 0x08]);
    let c = s.rx_config();
    assert_eq!((c.sample_rate_code, c.num_receivers, c.attenuation_db, c.lpf_select), (1, 2, 10, 0x21));
}
