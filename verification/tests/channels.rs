use sddc::channels::{
    channel_geometry, is_valid_decimation, plan_center_freq, spectrum_taps, xtal_for_samplerate, CenterFreqPlan,
    ChannelBank, ChannelError, FilterClass, SampleWindow, StartAction, StartStage, VirtualChannelConfig,
};

fn create_bank() -> ChannelBank<()> {
    ChannelBank::new()
}

#[test]
fn test_virtual_radio_creation() {
    let vradio = create_bank();
    assert_eq!(vradio.channel_count(), 0);
}

#[test]
fn test_channel_creation() {
    let mut vradio = create_bank();
    let result = vradio.create_channel(
        VirtualChannelConfig { center_freq: 14_070_000, lsb: false, decimation: 64 },
        0,
        (),
    );
    assert!(result.is_ok());
    let ch_idx = result.unwrap();
    assert_eq!(ch_idx, 0);
    assert_eq!(vradio.channel_count(), 1);
}

#[test]
fn test_multiple_channel_creation() {
    let mut vradio = create_bank();
    for i in 0..3u64 {
        let result = vradio.create_channel(
            VirtualChannelConfig {
                center_freq: 14_000_000 + i * 100_000,
                lsb: i % 2 == 0,
                decimation: 64 << (i % 3),
            },
            0,
            (),
        );
        assert!(result.is_ok());
        assert_eq!(result.unwrap(), i as usize);
    }
    assert_eq!(vradio.channel_count(), 3);
    assert_eq!(vradio.entry(2).mfft, 32);
}

#[test]
fn test_invalid_decimation() {
    let mut vradio = create_bank();
    let result = vradio.create_channel(
        VirtualChannelConfig { center_freq: 14_070_000, lsb: false, decimation: 63 },
        0,
        (),
    );
    assert!(result.is_err());
    assert!(result.unwrap_err().description().contains("power of 2"));
}

#[test]
fn test_zero_decimation() {
    let mut vradio = create_bank();
    let result = vradio.create_channel(
        VirtualChannelConfig { center_freq: 14_070_000, lsb: false, decimation: 0 },
        0,
        (),
    );
    assert!(result.is_err());
}

#[test]
fn test_channel_removal() {
    let mut vradio = create_bank();
    vradio
        .create_channel(VirtualChannelConfig { center_freq: 14_070_000, lsb: false, decimation: 64 }, 0, ())
        .unwrap();
    vradio
        .create_channel(VirtualChannelConfig { center_freq: 14_100_000, lsb: false, decimation: 64 }, 0, ())
        .unwrap();
    assert_eq!(vradio.channel_count(), 2);
    assert!(vradio.remove_channel(0).is_ok());
    assert_eq!(vradio.channel_count(), 1);
}

#[test]
fn test_dynamic_frequency_change() {
    let mut vradio = create_bank();
    let ch_idx = vradio
        .create_channel(VirtualChannelConfig { center_freq: 14_070_000, lsb: false, decimation: 64 }, 0, ())
        .unwrap();
    let new_freq = 14_236_000_u64;
    assert!(vradio.set_channel_center_freq(ch_idx, new_freq, 545).is_ok());
    let freq = vradio.get_channel_center_freq(ch_idx).unwrap();
    assert_eq!(freq, new_freq);
    assert_eq!(vradio.entry(ch_idx).tunebin, 545);
}

#[test]
fn test_dynamic_lsb_change() {
    let mut vradio = create_bank();
    let ch_idx = vradio
        .create_channel(VirtualChannelConfig { center_freq: 14_070_000, lsb: false, decimation: 64 }, 0, ())
        .unwrap();
    assert!(!vradio.get_channel_lsb(ch_idx).unwrap());
    assert!(vradio.set_channel_lsb(ch_idx, true).is_ok());
    assert!(vradio.get_channel_lsb(ch_idx).unwrap());
}

#[test]
fn test_invalid_channel_index() {
    let mut vradio = create_bank();
    assert!(vradio.set_channel_center_freq(0, 14_000_000, 0).is_err());
    assert!(vradio.get_channel_center_freq(0).is_err());
    assert!(vradio.set_channel_lsb(0, true).is_err());
    assert!(vradio.get_channel_lsb(0).is_err());
}

#[test]
fn test_start_without_channels() {
    let vradio = create_bank();
    let result = vradio.check_start();
    assert!(result.is_err());
    assert!(result.unwrap_err().description().contains("No channels"));
}

#[test]
fn running_bank_refuses_changes_of_its_channel_list() {
    let mut b = create_bank();
    b.create_channel(VirtualChannelConfig { center_freq: 1, lsb: false, decimation: 1 }, 0, ()).unwrap();
    assert_eq!(b.check_start(), Ok(()));
    b.set_running(true);
    assert_eq!(b.check_start(), Err(ChannelError::AlreadyRunning));
    assert_eq!(
        b.create_channel(VirtualChannelConfig { center_freq: 1, lsb: false, decimation: 2 }, 0, ()),
        Err(ChannelError::Running)
    );
    assert_eq!(b.remove_channel(0), Err(ChannelError::Running));
    // tuning still works while running
    assert_eq!(b.set_channel_center_freq(0, 5, 1), Ok(()));
    b.set_running(false);
    assert_eq!(b.remove_channel(3), Err(ChannelError::InvalidIndex(3)));
    assert_eq!(b.remove_channel(0), Ok(()));
}

#[test]
fn decimation_validation() {
    for d in [1usize, 2, 4, 64, 8192, 1 << 40] {
        assert!(is_valid_decimation(d));
    }
    for d in [0usize, 3, 6, 63, 100, usize::MAX] {
        assert!(!is_valid_decimation(d));
    }
}

#[test]
fn geometry_of_channels() {
    let g = channel_geometry(64);
    assert_eq!((g.mfft, g.max_taps, g.scrap_len, g.out_len), (128, 1024, 32, 96));
    assert_eq!(g.filter_class, FilterClass::Medium);
    let g = channel_geometry(2);
    assert_eq!((g.mfft, g.max_taps, g.scrap_len, g.out_len), (4096, 4096, 1024, 3072));
    assert_eq!(g.filter_class, FilterClass::Standard);
    let g = channel_geometry(512);
    assert_eq!((g.mfft, g.max_taps, g.scrap_len, g.out_len), (16, 128, 4, 12));
    assert_eq!(g.filter_class, FilterClass::High);
    assert_eq!(xtal_for_samplerate(64_000_000), 128_000_000);
}

#[test]
fn center_freq_plans() {
    assert_eq!(plan_center_freq(false, false, 7_000_000), CenterFreqPlan::Retune);
    assert_eq!(plan_center_freq(true, true, 7_000_000), CenterFreqPlan::Retune);
    assert_eq!(plan_center_freq(true, false, 7_000_000), CenterFreqPlan::StopAndSwitch { direct: true });
    assert_eq!(plan_center_freq(true, true, 30_000_000), CenterFreqPlan::StopAndSwitch { direct: false });
    assert_eq!(plan_center_freq(false, true, 145_000_000), CenterFreqPlan::Retune);
}

#[test]
fn spectrum_taps_positive_offset() {
    let taps = spectrum_taps(100, 16, 4097);
    assert_eq!(taps.len(), 16);
    for m in 0..8 {
        assert_eq!(taps[m], Some((100 + m, m)));
    }
    for m2 in 0..8 {
        assert_eq!(taps[8 + m2], Some((100 - 8 + m2, 4096 - 8 + m2)));
    }
}

#[test]
fn spectrum_taps_small_and_negative_offsets() {
    // offset 3: the second half starts at 8 - 3 = 5
    let taps = spectrum_taps(3, 16, 4097);
    for m2 in 0..5 {
        assert_eq!(taps[8 + m2], None);
    }
    assert_eq!(taps[13], Some((0, 4096 - 8 + 5)));
    // negative offset wraps the first half, no second half
    let taps = spectrum_taps(-2, 16, 4097);
    assert_eq!(taps[0], Some((4095, 0)));
    assert_eq!(taps[1], Some((4096, 1)));
    assert_eq!(taps[2], Some((0, 2)));
    assert_eq!(taps[7], Some((5, 7)));
    for p in 8..16 {
        assert_eq!(taps[p], None);
    }
    // near the top of the spectrum the first half is cut short
    let taps = spectrum_taps(4094, 16, 4097);
    assert_eq!(taps[0], Some((4094, 0)));
    assert_eq!(taps[1], Some((4095, 1)));
    assert_eq!(taps[2], None);
}

#[test]
fn sample_window_hands_out_full_windows_when_the_next_sample_arrives() {
    let mut w = SampleWindow::new();
    let a: Vec<i16> = (0..8192).map(|k| k as i16).collect();
    assert!(w.push_samples(&a).is_empty());
    let out = w.push_samples(&[7, 8]);
    assert_eq!(out.len(), 1);
    assert_eq!(out[0], a);
    let big: Vec<i16> = (0..(8192 * 2)).map(|k| (k % 1000) as i16).collect();
    let out = w.push_samples(&big);
    assert_eq!(out.len(), 2);
    assert_eq!(&out[0][0..2], &[7, 8]);
    assert_eq!(&out[0][2..], &big[0..8190]);
    assert_eq!(&out[1][..], &big[8190..16382]);
}

#[test]
fn start_steps_in_order() {
    let mut b = create_bank();
    assert_eq!(b.start_step(64_000_000, StartStage::Requested, true), StartAction::Refuse(ChannelError::NoChannels));
    b.create_channel(VirtualChannelConfig { center_freq: 1, lsb: false, decimation: 1 }, 0, ()).unwrap();
    assert_eq!(b.start_step(64_000_000, StartStage::Requested, true), StartAction::SetXtal(128_000_000));
    // a failed device call ends the start, still stopped
    assert_eq!(b.start_step(64_000_000, StartStage::XtalSet, false), StartAction::Fail);
    assert_eq!(b.start_step(64_000_000, StartStage::ReadStarted, false), StartAction::Fail);
    assert!(!b.is_running());
    assert_eq!(b.start_step(64_000_000, StartStage::XtalSet, true), StartAction::StartReading);
    assert!(!b.is_running());
    assert_eq!(b.start_step(64_000_000, StartStage::ReadStarted, true), StartAction::Started);
    assert!(b.is_running());
    assert_eq!(b.start_step(64_000_000, StartStage::Requested, true), StartAction::Refuse(ChannelError::AlreadyRunning));
}
