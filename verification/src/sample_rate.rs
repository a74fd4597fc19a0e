//! Choice of the converter sample rate and decimation for an output rate.
use vstd::prelude::*;

verus! {

/// Lowest converter rate the search accepts, in Hz.
pub const MIN_ADC_RATE: u32 = 32_000_000;
/// Highest converter rate the search accepts, in Hz.
pub const MAX_ADC_RATE: u32 = 64_000_000;

/// Two to the power `p`.
pub open spec fn spec_pow2(p: nat) -> nat
    decreases p,
{
    if p == 0 {
        1
    } else {
        2 * spec_pow2((p - 1) as nat)
    }
}

/// Whether a converter rate lies in the accepted range.
pub open spec fn spec_in_range(rate: nat) -> bool {
    MIN_ADC_RATE <= rate <= MAX_ADC_RATE
}

/// The first power `p` from `p` up to 12 for which `out * 2^p` is an accepted
/// converter rate.
pub open spec fn spec_search(out: nat, p: nat) -> Option<nat>
    decreases 13 - p,
{
    if p > 12 {
        None
    } else if spec_in_range(out * spec_pow2(p)) {
        Some(p)
    } else {
        spec_search(out, p + 1)
    }
}

/// The products the search computes, from power `p` until it stops, fit in
/// 32 bits.
pub open spec fn spec_search_fits(out: nat, p: nat) -> bool
    decreases 13 - p,
{
    if p > 12 {
        true
    } else {
        &&& out * spec_pow2(p) <= u32::MAX
        &&& (spec_in_range(out * spec_pow2(p)) || spec_search_fits(out, p + 1))
    }
}

/// The converter rate and decimation chosen for an output rate: 49.152 MHz
/// with decimation 1024, 512, 256 or 128 for 48, 96, 192 and 384 kHz; for
/// other rates the smallest power-of-two decimation from 64 to 4096 that
/// puts the converter between 32 and 64 MHz, else 32 MHz with decimation 1.
pub open spec fn spec_sample_rate_choice(out: u32) -> (int, int) {
    if out == 48_000 {
        (49_152_000, 1024)
    } else if out == 96_000 {
        (49_152_000, 512)
    } else if out == 192_000 {
        (49_152_000, 256)
    } else if out == 384_000 {
        (49_152_000, 128)
    } else {
        match spec_search(out as nat, 6) {
            Some(p) => (out * spec_pow2(p), spec_pow2(p) as int),
            None => (32_000_000, 1),
        }
    }
}

/// The standard rates need no search; for others the search must not
/// overflow 32 bits.
pub open spec fn spec_sample_rate_ok(out: u32) -> bool {
    out == 48_000 || out == 96_000 || out == 192_000 || out == 384_000 || spec_search_fits(out as nat, 6)
}

/// Returns (converter rate in Hz, decimation) for an output rate in Hz.
pub fn calculate_sample_rate(output_rate: u32) -> (r: (u32, usize))
    requires
        spec_sample_rate_ok(output_rate),
    ensures
        (r.0 as int, r.1 as int) == spec_sample_rate_choice(output_rate),
{
    let (target_rate, decimation): (u32, u32) = match output_rate {
        48_000 => (49_152_000, 1024),
        96_000 => (49_152_000, 512),
        192_000 => (49_152_000, 256),
        384_000 => (49_152_000, 128),
        _ => search_rate(output_rate),
    };
    (target_rate, decimation as usize)
}

/// The search for a power-of-two decimation from 64 to 4096.
fn search_rate(output_rate: u32) -> (r: (u32, u32))
    requires
        spec_search_fits(output_rate as nat, 6),
    ensures
        (r.0 as int, r.1 as int) == (match spec_search(output_rate as nat, 6) {
            Some(p) => (output_rate * spec_pow2(p), spec_pow2(p) as int),
            None => (32_000_000int, 1int),
        }),
{
    let mut power: u32 = 6;
    let mut dec: u32 = 64;
    proof {
        reveal_with_fuel(spec_pow2, 7);
    }
    while power <= 12
        invariant
            6 <= power <= 13,
            power <= 12 ==> dec as nat == spec_pow2(power as nat),
            spec_search(output_rate as nat, 6) == spec_search(output_rate as nat, power as nat),
            spec_search_fits(output_rate as nat, power as nat),
        decreases 13 - power,
    {
        assert(output_rate * spec_pow2(power as nat) <= u32::MAX);
        let rate = output_rate * dec;
        if MIN_ADC_RATE <= rate && rate <= MAX_ADC_RATE {
            return (rate, dec);
        }
        proof {
            assert(spec_pow2((power + 1) as nat) == 2 * spec_pow2(power as nat));
            if power < 12 {
                lemma_pow2_le_4096((power + 1) as nat);
            }
        }
        if power < 12 {
            dec = dec * 2;
        }
        power = power + 1;
    }
    (32_000_000, 1)
}

/// A searched decimation is a power of two between 64 and 4096 and puts the
/// converter between 32 and 64 MHz.
pub proof fn lemma_search_in_range(out: nat, p: nat)
    requires
        spec_search(out, p) is Some,
    ensures
        p <= spec_search(out, p)->0 <= 12,
        spec_in_range(out * spec_pow2(spec_search(out, p)->0)),
    decreases 13 - p,
{
    if p <= 12 && !spec_in_range(out * spec_pow2(p)) {
        lemma_search_in_range(out, p + 1);
    }
}

/// The chosen converter rate is the output rate times the decimation,
/// unless the search found no decimation (then 32 MHz and 1); a searched
/// decimation lies between 64 and 4096 and puts the rate between 32 and 64 MHz.
pub proof fn lemma_choice_product(out: u32)
    ensures
        ({
            let (rate, dec) = spec_sample_rate_choice(out);
            &&& (out == 48_000 || out == 96_000 || out == 192_000 || out == 384_000
                || spec_search(out as nat, 6) is Some) ==> rate == out * dec
            &&& spec_search(out as nat, 6) is Some && !(out == 48_000 || out == 96_000 || out == 192_000
                || out == 384_000) ==> spec_in_range(rate as nat) && 64 <= dec <= 4096
        }),
{
    if spec_search(out as nat, 6) is Some {
        lemma_search_in_range(out as nat, 6);
        let p = spec_search(out as nat, 6)->0;
        lemma_pow2_bounds(p);
    }
}

proof fn lemma_pow2_bounds(p: nat)
    requires
        6 <= p <= 12,
    ensures
        64 <= spec_pow2(p) <= 4096,
    decreases p,
{
    reveal_with_fuel(spec_pow2, 13);
    if p > 6 {
        lemma_pow2_bounds((p - 1) as nat);
    }
}

/// Every output rate up to 1 MHz can be searched without overflow.
pub proof fn lemma_small_rates_fit(out: nat, p: nat)
    requires
        out <= 1_000_000,
        6 <= p <= 13,
    ensures
        spec_search_fits(out, p),
    decreases 13 - p,
{
    if p <= 12 {
        lemma_pow2_le_4096(p);
        assert(out * spec_pow2(p) <= 1_000_000 * 4096) by (nonlinear_arith)
            requires
                out <= 1_000_000,
                spec_pow2(p) <= 4096,
        ;
        lemma_small_rates_fit(out, p + 1);
    }
}

proof fn lemma_pow2_le_4096(p: nat)
    requires
        p <= 12,
    ensures
        spec_pow2(p) <= 4096,
    decreases p,
{
    reveal_with_fuel(spec_pow2, 13);
    if p > 0 {
        lemma_pow2_le_4096((p - 1) as nat);
    }
}

} // verus!
