//! Summary of a tuner scan: runs of consecutive frequencies (1 MHz apart)
//! at which the PLL locked are combined into ranges.
use vstd::prelude::*;

verus! {

/// Outcome of one scanned frequency whose PLL locked.
#[derive(Debug, Clone, Copy)]
pub struct FreqResult {
    pub freq_mhz: u32,
    pub locked: bool,
    pub harmonic: bool,
    pub lock_time_ms: u64,
}

/// A run of consecutive locked frequencies.
#[derive(Debug)]
pub struct FreqRange {
    pub start_mhz: u32,
    pub end_mhz: u32,
    pub count: u32,
    pub all_harmonic: bool,
    pub any_harmonic: bool,
    pub lock_times: Vec<u64>,
}

/// The contents of a range.
pub struct RangeView {
    pub start_mhz: u32,
    pub end_mhz: u32,
    pub count: u32,
    pub all_harmonic: bool,
    pub any_harmonic: bool,
    pub lock_times: Seq<u64>,
}

impl View for FreqRange {
    type V = RangeView;

    open spec fn view(&self) -> RangeView {
        RangeView {
            start_mhz: self.start_mhz,
            end_mhz: self.end_mhz,
            count: self.count,
            all_harmonic: self.all_harmonic,
            any_harmonic: self.any_harmonic,
            lock_times: self.lock_times@,
        }
    }
}

/// Whether result `i` starts a new run: the first result, or one that is
/// not exactly 1 MHz above the previous.
pub open spec fn spec_is_break(r: Seq<FreqResult>, i: int) -> bool {
    i == 0 || r[i].freq_mhz - r[i - 1].freq_mhz != 1
}

/// Indices among the first `n` results that start a run, in order.
pub open spec fn spec_breaks(r: Seq<FreqResult>, n: nat) -> Seq<int>
    decreases n,
{
    if n == 0 {
        Seq::empty()
    } else {
        let prev = spec_breaks(r, (n - 1) as nat);
        if spec_is_break(r, n - 1) {
            prev.push(n - 1)
        } else {
            prev
        }
    }
}

/// Number of harmonic results in `a..b`.
pub open spec fn spec_harmonic_count(r: Seq<FreqResult>, a: int, b: int) -> nat
    decreases b - a,
{
    if b <= a {
        0
    } else {
        spec_harmonic_count(r, a, b - 1) + if r[b - 1].harmonic { 1nat } else { 0nat }
    }
}

/// The range made of results `a..b`.
pub open spec fn spec_range(r: Seq<FreqResult>, a: int, b: int) -> RangeView {
    let start = r[a].freq_mhz;
    let end = r[b - 1].freq_mhz;
    let count = (end - start + 1) as u32;
    RangeView {
        start_mhz: start,
        end_mhz: end,
        count,
        all_harmonic: spec_harmonic_count(r, a, b) == count,
        any_harmonic: spec_harmonic_count(r, a, b) > 0,
        lock_times: Seq::new((b - a) as nat, |k: int| r[a + k].lock_time_ms),
    }
}

/// The ranges of a scan: one per run of consecutive frequencies, in order.
pub open spec fn spec_combine(r: Seq<FreqResult>) -> Seq<RangeView> {
    let b = spec_breaks(r, r.len());
    Seq::new(
        b.len(),
        |j: int| spec_range(r, b[j], if j + 1 < b.len() { b[j + 1] } else { r.len() as int }),
    )
}

/// Sum of the frequency counts of ranges.
pub open spec fn spec_count_sum(rs: Seq<RangeView>) -> int
    decreases rs.len(),
{
    if rs.len() == 0 {
        0
    } else {
        spec_count_sum(rs.drop_last()) + rs.last().count
    }
}

/// Frequencies never decrease from one result to the next.
pub open spec fn spec_sorted(r: Seq<FreqResult>) -> bool {
    forall|i: int| 1 <= i < r.len() ==> r[i - 1].freq_mhz <= #[trigger] r[i].freq_mhz
}

proof fn lemma_breaks_facts(r: Seq<FreqResult>, n: nat)
    requires
        n <= r.len(),
    ensures
        n > 0 ==> spec_breaks(r, n).len() > 0 && spec_breaks(r, n)[0] == 0,
        forall|j: int| 0 <= j < spec_breaks(r, n).len() ==> 0 <= #[trigger] spec_breaks(r, n)[j] < n,
        forall|j: int, k: int|
            0 <= j < k < spec_breaks(r, n).len() ==> spec_breaks(r, n)[j] < spec_breaks(r, n)[k],
    decreases n,
{
    if n > 0 {
        lemma_breaks_facts(r, (n - 1) as nat);
        let prev = spec_breaks(r, (n - 1) as nat);
        if spec_is_break(r, n - 1) {
            assert(spec_breaks(r, n) == prev.push(n - 1));
        } else {
            assert(spec_breaks(r, n) == prev);
        }
        if n == 1 {
            assert(spec_is_break(r, 0));
            assert(prev.len() == 0);
        }
    }
}

proof fn lemma_harmonic_count_le(r: Seq<FreqResult>, a: int, b: int)
    ensures
        spec_harmonic_count(r, a, b) <= if b >= a { b - a } else { 0 },
    decreases b - a,
{
    if b > a {
        lemma_harmonic_count_le(r, a, b - 1);
    }
}

/// Combines the results of a scan, in scan order, into ranges of
/// consecutive frequencies.
pub fn combine_ranges(results: &[FreqResult]) -> (ranges: Vec<FreqRange>)
    requires
        spec_sorted(results@),
        results@.len() <= u32::MAX,
    ensures
        ranges@.map_values(|x: FreqRange| x@) == spec_combine(results@),
        spec_count_sum(spec_combine(results@)) == results@.len(),
{
    let ghost r = results@;
    if results.len() == 0 {
        assert(spec_combine(r) =~= Seq::<RangeView>::empty());
        return Vec::new();
    }
    let mut ranges: Vec<FreqRange> = Vec::new();
    let mut current_start = results[0].freq_mhz;
    let mut current_end = results[0].freq_mhz;
    let mut cs: usize = 0;
    let mut harmonic_count: usize = if results[0].harmonic {
        1
    } else {
        0
    };
    let mut lock_times: Vec<u64> = Vec::new();
    lock_times.push(results[0].lock_time_ms);
    let mut i: usize = 1;
    assert(spec_breaks(r, 0) =~= Seq::<int>::empty());
    assert(spec_is_break(r, 0));
    assert(spec_breaks(r, 1) =~= seq![0int]);
    assert(spec_harmonic_count(r, 0, 0) == 0);
    assert(spec_harmonic_count(r, 0, 1) == harmonic_count);
    assert(lock_times@ =~= Seq::new(1, |k: int| r[0 + k].lock_time_ms));
    assert(spec_count_sum(ranges@.map_values(|x: FreqRange| x@)) == 0);
    while i < results.len()
        invariant
            r == results@,
            spec_sorted(r),
            r.len() <= u32::MAX,
            1 <= i <= r.len(),
            cs < i,
            spec_breaks(r, i as nat).len() >= 1,
            spec_breaks(r, i as nat).last() == cs as int,
            current_start == r[cs as int].freq_mhz,
            current_end == r[i - 1].freq_mhz,
            current_end - current_start == i - 1 - cs,
            harmonic_count == spec_harmonic_count(r, cs as int, i as int),
            lock_times@ == Seq::new((i - cs) as nat, |k: int| r[cs + k].lock_time_ms),
            spec_count_sum(ranges@.map_values(|x: FreqRange| x@)) + (i - cs) == i,
            ranges@.map_values(|x: FreqRange| x@) == Seq::new(
                (spec_breaks(r, i as nat).len() - 1) as nat,
                |j: int| spec_range(r, spec_breaks(r, i as nat)[j], spec_breaks(r, i as nat)[j + 1]),
            ),
        decreases r.len() - i,
    {
        let item = results[i];
        let ghost bi = spec_breaks(r, i as nat);
        proof {
            lemma_harmonic_count_le(r, cs as int, i as int);
        }
        assert(r[i - 1].freq_mhz <= r[i as int].freq_mhz);
        if item.freq_mhz - current_end == 1 {
            current_end = item.freq_mhz;
            if item.harmonic {
                harmonic_count = harmonic_count + 1;
            }
            assert(spec_harmonic_count(r, cs as int, i + 1) == spec_harmonic_count(r, cs as int, i as int)
                + if r[i as int].harmonic { 1nat } else { 0nat });
            lock_times.push(item.lock_time_ms);
            assert(spec_breaks(r, (i + 1) as nat) == bi);
            assert(lock_times@ =~= Seq::new((i + 1 - cs) as nat, |k: int| r[cs + k].lock_time_ms));
        } else {
            let count = (current_end - current_start) + 1;
            let range = FreqRange {
                start_mhz: current_start,
                end_mhz: current_end,
                count,
                all_harmonic: harmonic_count == count as usize,
                any_harmonic: harmonic_count > 0,
                lock_times,
            };
            assert(range@ == spec_range(r, cs as int, i as int));
            let ghost prev = ranges@.map_values(|x: FreqRange| x@);
            ranges.push(range);
            let ghost bn = spec_breaks(r, (i + 1) as nat);
            assert(bn == bi.push(i as int));
            assert(ranges@.map_values(|x: FreqRange| x@) =~= prev.push(spec_range(r, cs as int, i as int)));
            assert(ranges@.map_values(|x: FreqRange| x@).drop_last() =~= prev);
            assert(bn[bn.len() - 2] == cs as int);
            assert(bn[bn.len() - 1] == i as int);
            assert(ranges@.map_values(|x: FreqRange| x@) =~= Seq::new(
                (bn.len() - 1) as nat,
                |j: int| spec_range(r, bn[j], bn[j + 1]),
            ));
            current_start = item.freq_mhz;
            current_end = item.freq_mhz;
            cs = i;
            harmonic_count = if item.harmonic {
                1
            } else {
                0
            };
            lock_times = Vec::new();
            lock_times.push(item.lock_time_ms);
            assert(lock_times@ =~= Seq::new(1, |k: int| r[cs + k].lock_time_ms));
            assert(spec_harmonic_count(r, cs as int, cs as int) == 0);
            assert(spec_harmonic_count(r, cs as int, i + 1) == harmonic_count);
        }
        i = i + 1;
    }
    let count = (current_end - current_start) + 1;
    let last = FreqRange {
        start_mhz: current_start,
        end_mhz: current_end,
        count,
        all_harmonic: harmonic_count == count as usize,
        any_harmonic: harmonic_count > 0,
        lock_times,
    };
    assert(last@ == spec_range(r, cs as int, r.len() as int));
    let ghost prev = ranges@.map_values(|x: FreqRange| x@);
    ranges.push(last);
    proof {
        let b = spec_breaks(r, r.len());
        lemma_breaks_facts(r, r.len());
        assert(i == r.len());
        assert(b.last() == cs as int);
        assert(ranges@.map_values(|x: FreqRange| x@) =~= prev.push(spec_range(r, cs as int, r.len() as int)));
        assert(ranges@.map_values(|x: FreqRange| x@).drop_last() =~= prev);
        let rv = ranges@.map_values(|x: FreqRange| x@);
        assert forall|j: int| 0 <= j < b.len() implies #[trigger] rv[j] == spec_range(
            r,
            b[j],
            if j + 1 < b.len() { b[j + 1] } else { r.len() as int },
        ) by {
            if j + 1 < b.len() {
                assert(prev[j] == spec_range(r, b[j], b[j + 1]));
            }
        }
        assert(ranges@.map_values(|x: FreqRange| x@) =~= spec_combine(r));
    }
    ranges
}

/// Sum of lock times.
pub open spec fn spec_sum(s: Seq<u64>) -> int
    decreases s.len(),
{
    if s.len() == 0 {
        0
    } else {
        spec_sum(s.drop_last()) + s.last()
    }
}

proof fn lemma_sum_prefix(s: Seq<u64>, i: int)
    requires
        0 <= i <= s.len(),
    ensures
        0 <= spec_sum(s.take(i)) <= spec_sum(s),
    decreases s.len(),
{
    if i == s.len() {
        assert(s.take(i) =~= s);
        if s.len() > 0 {
            lemma_sum_prefix(s.drop_last(), i - 1);
            assert(s.drop_last().take(i - 1) =~= s.drop_last());
        }
    } else {
        lemma_sum_prefix(s.drop_last(), i);
        assert(s.drop_last().take(i) =~= s.take(i));
    }
}

/// Average lock time of a range in ms, rounded down; 0 without lock times.
pub fn average_lock_time(lock_times: &[u64]) -> (avg: u64)
    requires
        spec_sum(lock_times@) <= u64::MAX,
    ensures
        lock_times@.len() == 0 ==> avg == 0,
        lock_times@.len() > 0 ==> avg == spec_sum(lock_times@) / (lock_times@.len() as int),
{
    if lock_times.len() == 0 {
        return 0;
    }
    let mut total: u64 = 0;
    let mut i: usize = 0;
    while i < lock_times.len()
        invariant
            i <= lock_times@.len(),
            spec_sum(lock_times@) <= u64::MAX,
            total == spec_sum(lock_times@.take(i as int)),
        decreases lock_times@.len() - i,
    {
        proof {
            lemma_sum_prefix(lock_times@, i + 1);
            assert(lock_times@.take(i + 1).drop_last() =~= lock_times@.take(i as int));
        }
        total = total + lock_times[i];
        i = i + 1;
    }
    proof {
        assert(lock_times@.take(i as int) =~= lock_times@);
    }
    total / (lock_times.len() as u64)
}

/// What to do after one poll of the tuner status while waiting for its PLL
/// to lock.
#[derive(Debug, Clone, Copy, PartialEq, Eq, Structural)]
pub enum LockAction {
    /// The PLL locked: the harmonic flag the poll reported and the time since
    /// tuning (ms).
    Locked { harmonic: bool, lock_time_ms: u64 },
    /// More than the timeout has passed without lock.
    TimedOut,
    /// Poll again after the retry delay.
    Retry,
    /// The last attempt passed without lock.
    GaveUp,
}

/// The action after poll number `attempt` (from 0) of `retries`, at
/// `elapsed_ms` since tuning, when the poll gave `status` (`None` when it
/// failed, else the PLL lock and harmonic flags): a lock ends the wait; else
/// the timeout ends it, then the last attempt; else poll again.
pub open spec fn spec_lock_step(
    attempt: u32,
    retries: u32,
    elapsed_ms: u64,
    timeout_ms: u64,
    status: Option<(bool, bool)>,
) -> LockAction {
    match status {
        Some((true, harmonic)) => LockAction::Locked { harmonic, lock_time_ms: elapsed_ms },
        _ => if elapsed_ms > timeout_ms {
            LockAction::TimedOut
        } else if attempt + 1 >= retries {
            LockAction::GaveUp
        } else {
            LockAction::Retry
        },
    }
}

/// One step of waiting for the PLL to lock after tuning.
pub fn lock_step(attempt: u32, retries: u32, elapsed_ms: u64, timeout_ms: u64, status: Option<(bool, bool)>) -> (a:
    LockAction)
    ensures
        a == spec_lock_step(attempt, retries, elapsed_ms, timeout_ms, status),
{
    if let Some((locked, harmonic)) = status {
        if locked {
            return LockAction::Locked { harmonic, lock_time_ms: elapsed_ms };
        }
    }
    if elapsed_ms > timeout_ms {
        LockAction::TimedOut
    } else if attempt as u64 + 1 >= retries as u64 {
        LockAction::GaveUp
    } else {
        LockAction::Retry
    }
}

} // verus!
