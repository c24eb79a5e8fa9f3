//! Conversion from chart time to MIDI ticks.
use vstd::prelude::*;

verus! {

/// Chart ticks in one quarter note, a quarter of a measure.
pub const CHART_TICKS_PER_QUARTER: u64 = 768;

/// The MIDI tick of a chart time: `mtime / 3072 * 4 * time_base`, rounded to
/// the nearest integer, a half rounding up.
pub open spec fn spec_mtime_to_ticks(mtime: nat, time_base: nat) -> nat {
    ((mtime * time_base + 384) / 768) as nat
}

/// The tick is the integer nearest to `mtime * time_base / 768`.
pub proof fn lemma_ticks_nearest(mtime: nat, time_base: nat)
    ensures
        768 * spec_mtime_to_ticks(mtime, time_base) - 384 <= mtime * time_base,
        mtime * time_base < 768 * spec_mtime_to_ticks(mtime, time_base) + 384,
{
    let n: int = (mtime * time_base + 384) as int;
    assert(n == 768 * (n / 768) + n % 768 && 0 <= n % 768 < 768) by {
        vstd::arithmetic::div_mod::lemma_fundamental_div_mod(n, 768);
    }
}

/// A later chart time never maps to an earlier tick: this holds of every
/// pair of times and every time base, with no bound on either.
pub proof fn lemma_ticks_monotone(earlier: nat, later: nat, time_base: nat)
    requires
        earlier <= later,
    ensures
        spec_mtime_to_ticks(earlier, time_base) <= spec_mtime_to_ticks(later, time_base),
{
    assert(earlier * time_base <= later * time_base) by (nonlinear_arith)
        requires
            earlier <= later,
    ;
    vstd::arithmetic::div_mod::lemma_div_is_ordered(
        (earlier * time_base + 384) as int,
        (later * time_base + 384) as int,
        768,
    );
}

/// A chart time that is a whole number of measures maps to that many times
/// four quarter notes.
pub proof fn lemma_ticks_whole_measures(measures: nat, time_base: nat)
    ensures
        spec_mtime_to_ticks(3072 * measures, time_base) == 4 * measures * time_base,
{
    let t: int = (4 * measures * time_base) as int;
    assert((3072 * measures) * time_base + 384 == 768 * t + 384) by (nonlinear_arith)
        requires
            t == 4 * measures * time_base,
    ;
    vstd::arithmetic::div_mod::lemma_fundamental_div_mod_converse(768 * t + 384, 768, t, 384);
}

/// Where a time can be converted, every earlier time can be too, and its
/// tick is no later: `mtime_to_ticks` never decreases over the times that
/// it takes.
pub proof fn lemma_mtime_to_ticks_monotone(earlier: u64, later: u64, time_base: u16)
    requires
        earlier <= later,
        later * time_base + 384 <= u64::MAX,
    ensures
        earlier * time_base + 384 <= u64::MAX,
        spec_mtime_to_ticks(earlier as nat, time_base as nat) <= spec_mtime_to_ticks(
            later as nat,
            time_base as nat,
        ),
{
    assert(earlier * time_base <= later * time_base) by (nonlinear_arith)
        requires
            earlier <= later,
    ;
    lemma_ticks_monotone(earlier as nat, later as nat, time_base as nat);
}

/// Converts a chart time to MIDI ticks at `time_base` ticks per quarter note.
pub fn mtime_to_ticks(mtime: u64, time_base: u16) -> (ticks: u64)
    requires
        mtime * time_base + 384 <= u64::MAX,
    ensures
        ticks == spec_mtime_to_ticks(mtime as nat, time_base as nat),
{
    let base: u64 = time_base as u64;
    (mtime * base + 384) / CHART_TICKS_PER_QUARTER
}

} // verus!
