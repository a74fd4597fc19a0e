use sddc::capture::{capture_stats, sample_at, sample_histogram, CaptureStats, HISTOGRAM_BINS, HISTOGRAM_SAMPLES};

fn bytes(samples: &[i16]) -> Vec<u8> {
    samples.iter().flat_map(|s| s.to_le_bytes()).collect()
}

#[test]
fn capture_statistics_are_exact() {
    let mut data = bytes(&[1, -2, 300, -32768, 32767]);
    data.push(0x55); // an odd last byte is no sample
    assert_eq!(sample_at(&data, 3), -32768);
    assert_eq!(
        capture_stats(&data),
        CaptureStats { count: 5, sum: 298, sum_sq: 2_147_508_118, min: -32768, max: 32767 }
    );
    // no samples: the extremes start out reversed
    assert_eq!(capture_stats(&[7]), CaptureStats { count: 0, sum: 0, sum_sq: 0, min: i16::MAX, max: i16::MIN });
}

#[test]
fn histogram_splits_the_range_in_twenty() {
    let ramp: Vec<i16> = (0..40).collect();
    let h = sample_histogram(&bytes(&ramp), 0, 39);
    assert_eq!(h.len(), HISTOGRAM_BINS);
    assert!(h.iter().all(|&c| c == 2));
    let h = sample_histogram(&bytes(&[-5, 5, 5]), -5, 5);
    assert_eq!(h[0], 1);
    assert_eq!(h[18], 2);
    assert_eq!(h.iter().sum::<u32>(), 3);
}

#[test]
fn histogram_counts_only_the_first_samples() {
    let data = bytes(&vec![7i16; HISTOGRAM_SAMPLES + 3]);
    let st = capture_stats(&data);
    assert_eq!(st.count, HISTOGRAM_SAMPLES + 3);
    let h = sample_histogram(&data, st.min, st.max);
    assert_eq!(h[0], HISTOGRAM_SAMPLES as u32);
    assert_eq!(h.iter().sum::<u32>(), HISTOGRAM_SAMPLES as u32);
}
