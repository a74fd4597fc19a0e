//! Integer statistics of a raw capture: 16-bit little-endian ADC samples,
//! their count, sum, sum of squares, extremes and a 20-bin histogram of
//! the first samples.
use vstd::prelude::*;

verus! {

/// Bins of the sample histogram.
pub const HISTOGRAM_BINS: usize = 20;
/// Samples from the start of a capture that the histogram counts.
pub const HISTOGRAM_SAMPLES: usize = 500_000;

/// Sample `k` of a capture: bytes `2k` and `2k + 1`, a 16-bit little-endian
/// two's complement value.
pub open spec fn spec_sample(data: Seq<u8>, k: int) -> int {
    let u = data[2 * k] as int + 256 * data[2 * k + 1] as int;
    if u >= 32768 {
        u - 65536
    } else {
        u
    }
}

/// Sum of the first `n` samples.
pub open spec fn spec_sum(data: Seq<u8>, n: nat) -> int
    decreases n,
{
    if n == 0 {
        0
    } else {
        spec_sum(data, (n - 1) as nat) + spec_sample(data, n - 1)
    }
}

/// Sum of the squares of the first `n` samples.
pub open spec fn spec_sum_sq(data: Seq<u8>, n: nat) -> int
    decreases n,
{
    if n == 0 {
        0
    } else {
        spec_sum_sq(data, (n - 1) as nat) + spec_sample(data, n - 1) * spec_sample(data, n - 1)
    }
}

/// Smallest of the first `n` samples (32767 when there are none).
pub open spec fn spec_min(data: Seq<u8>, n: nat) -> int
    decreases n,
{
    if n == 0 {
        32767
    } else {
        let m = spec_min(data, (n - 1) as nat);
        let s = spec_sample(data, n - 1);
        if s < m {
            s
        } else {
            m
        }
    }
}

/// Largest of the first `n` samples (-32768 when there are none).
pub open spec fn spec_max(data: Seq<u8>, n: nat) -> int
    decreases n,
{
    if n == 0 {
        -32768
    } else {
        let m = spec_max(data, (n - 1) as nat);
        let s = spec_sample(data, n - 1);
        if s > m {
            s
        } else {
            m
        }
    }
}

/// The statistics of a capture.
#[derive(Debug, Clone, Copy, PartialEq, Eq)]
pub struct CaptureStats {
    /// Whole samples (an odd last byte is left out).
    pub count: usize,
    pub sum: i64,
    pub sum_sq: i64,
    pub min: i16,
    pub max: i16,
}

/// Sample `k` of a capture.
pub fn sample_at(data: &[u8], k: usize) -> (s: i16)
    requires
        2 * k + 1 < data@.len(),
    ensures
        s as int == spec_sample(data@, k as int),
{
    let len = data.len();
    assert(2 * k + 1 < len);
    let u: u16 = data[2 * k] as u16 + 256 * (data[2 * k + 1] as u16);
    if u >= 32768 {
        (u as i32 - 65536) as i16
    } else {
        u as i16
    }
}

proof fn lemma_sample_range(data: Seq<u8>, k: int)
    requires
        0 <= k,
        2 * k + 1 < data.len(),
    ensures
        -32768 <= spec_sample(data, k) <= 32767,
        0 <= spec_sample(data, k) * spec_sample(data, k) <= 0x4000_0000,
{
    let s = spec_sample(data, k);
    assert(0 <= s * s <= 0x4000_0000) by (nonlinear_arith)
        requires
            -32768 <= s <= 32767,
    ;
}

/// Count, sum, sum of squares, smallest and largest of the samples of a
/// capture (shorter than 2^34 bytes, so that the sum of squares fits in
/// 64 bits).
pub fn capture_stats(data: &[u8]) -> (st: CaptureStats)
    requires
        data@.len() < 0x4_0000_0000,
    ensures
        st.count == data@.len() / 2,
        st.sum == spec_sum(data@, st.count as nat),
        st.sum_sq == spec_sum_sq(data@, st.count as nat),
        st.min == spec_min(data@, st.count as nat),
        st.max == spec_max(data@, st.count as nat),
{
    let count = data.len() / 2;
    let mut sum: i64 = 0;
    let mut sum_sq: i64 = 0;
    let mut min: i16 = i16::MAX;
    let mut max: i16 = i16::MIN;
    let mut k: usize = 0;
    while k < count
        invariant
            count == data@.len() / 2,
            count < 0x2_0000_0000,
            k <= count,
            sum == spec_sum(data@, k as nat),
            sum_sq == spec_sum_sq(data@, k as nat),
            min == spec_min(data@, k as nat),
            max == spec_max(data@, k as nat),
            -32768 * k <= sum <= 32767 * k,
            0 <= sum_sq <= 0x4000_0000 * k,
        decreases count - k,
    {
        let s = sample_at(data, k);
        proof {
            lemma_sample_range(data@, k as int);
        }
        sum = sum + s as i64;
        sum_sq = sum_sq + (s as i64) * (s as i64);
        if s < min {
            min = s;
        }
        if s > max {
            max = s;
        }
        k = k + 1;
    }
    CaptureStats { count, sum, sum_sq, min, max }
}

/// The histogram bin of sample value `s` for extremes `lo` and `hi`: the
/// range `lo..=hi` in twenty equal parts, anything past the last in it.
pub open spec fn spec_bin(s: int, lo: int, hi: int) -> int {
    let b = (s - lo) * 20 / (hi - lo + 1);
    if b < 19 {
        b
    } else {
        19
    }
}

/// How many of the first `n` samples fall in bin `b`.
pub open spec fn spec_bin_count(data: Seq<u8>, n: nat, lo: int, hi: int, b: int) -> nat
    decreases n,
{
    if n == 0 {
        0
    } else {
        spec_bin_count(data, (n - 1) as nat, lo, hi, b) + if spec_bin(spec_sample(data, n - 1), lo, hi) == b {
            1nat
        } else {
            0nat
        }
    }
}

proof fn lemma_bin_count_le(data: Seq<u8>, n: nat, lo: int, hi: int, b: int)
    ensures
        spec_bin_count(data, n, lo, hi, b) <= n,
    decreases n,
{
    if n > 0 {
        lemma_bin_count_le(data, (n - 1) as nat, lo, hi, b);
    }
}

/// Samples the histogram counts: the first 500 000, or all when fewer.
pub open spec fn spec_histogram_len(data: Seq<u8>) -> nat {
    let count = data.len() / 2;
    if count < HISTOGRAM_SAMPLES {
        count
    } else {
        HISTOGRAM_SAMPLES as nat
    }
}

/// Histogram of the first 500 000 samples (all, when fewer) over twenty
/// equal parts of `min..=max`, the extremes of the capture. The extremes
/// must span fewer than 32767 values, as their difference plus one is
/// 16-bit arithmetic.
pub fn sample_histogram(data: &[u8], min: i16, max: i16) -> (h: Vec<u32>)
    requires
        spec_histogram_len(data@) > 0 ==> min <= max && max - min < 32767,
        forall|k: int| 0 <= k < spec_histogram_len(data@) ==> min <= #[trigger] spec_sample(data@, k) <= max,
    ensures
        h@.len() == HISTOGRAM_BINS,
        forall|b: int| 0 <= b < 20 ==> #[trigger] h@[b] == spec_bin_count(data@, spec_histogram_len(data@), min as int, max as int, b),
{
    let count = data.len() / 2;
    let n = if count < HISTOGRAM_SAMPLES {
        count
    } else {
        HISTOGRAM_SAMPLES
    };
    let mut h: Vec<u32> = vec![0u32; HISTOGRAM_BINS];
    let mut k: usize = 0;
    while k < n
        invariant
            n == spec_histogram_len(data@),
            n <= HISTOGRAM_SAMPLES,
            2 * n <= data@.len(),
            k <= n,
            n > 0 ==> min <= max && max - min < 32767,
            forall|j: int| 0 <= j < n ==> min <= #[trigger] spec_sample(data@, j) <= max,
            h@.len() == 20,
            forall|b: int| 0 <= b < 20 ==> #[trigger] h@[b] == spec_bin_count(data@, k as nat, min as int, max as int, b),
        decreases n - k,
    {
        let s = sample_at(data, k);
        assert(min <= spec_sample(data@, k as int) <= max);
        let off: usize = (s as i32 - min as i32) as usize;
        let width: usize = (max as i32 - min as i32 + 1) as usize;
        let q: usize = off * 20 / width;
        let b: usize = if q < 19 {
            q
        } else {
            19
        };
        assert(b as int == spec_bin(s as int, min as int, max as int));
        proof {
            lemma_bin_count_le(data@, k as nat, min as int, max as int, b as int);
        }
        let c = h[b];
        h.set(b, c + 1);
        k = k + 1;
        assert forall|bb: int| 0 <= bb < 20 implies #[trigger] h@[bb] == spec_bin_count(
            data@,
            k as nat,
            min as int,
            max as int,
            bb,
        ) by {}
    }
    h
}

} // verus!
