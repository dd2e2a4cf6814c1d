//! Noise gate: a peak-amplitude classifier with a timed hold.
use vstd::prelude::*;

verus! {

/// Bit pattern of single-precision positive infinity: magnitudes above it
/// are NaNs.
pub const INFINITY_BITS: u32 = 0x7f80_0000;

/// Bit that carries the sign of a single-precision float.
pub const SIGN_BIT: u32 = 0x8000_0000;

/// Magnitude of a sample given as single-precision bits: the bits of its
/// absolute value, or 0 for a NaN (a NaN never raises the peak).
///
/// For non-negative, non-NaN floats the order of the bit patterns is the
/// order of the values, so magnitudes compare as the absolute values do.
pub open spec fn magnitude(bits: u32) -> u32 {
    let m = if bits >= SIGN_BIT { (bits - SIGN_BIT) as u32 } else { bits };
    if m > INFINITY_BITS { 0 } else { m }
}

/// Largest magnitude in a block, 0 for an empty block.
pub open spec fn peak(s: Seq<u32>) -> u32
    decreases s.len(),
{
    if s.len() == 0 {
        0
    } else {
        let p = peak(s.drop_last());
        let m = magnitude(s.last());
        if m > p { m } else { p }
    }
}

/// Milliseconds from `from` to `now`; a clock that reads earlier counts as 0.
pub open spec fn elapsed(from: u64, now: u64) -> u64 {
    if now >= from { (now - from) as u64 } else { 0 }
}

pub fn sample_magnitude(bits: u32) -> (r: u32)
    ensures
        r == magnitude(bits),
{
    let m = if bits >= SIGN_BIT { bits - SIGN_BIT } else { bits };
    if m > INFINITY_BITS { 0 } else { m }
}

/// Peak magnitude of a block of samples.
pub fn peak_amplitude(samples: &[u32]) -> (r: u32)
    ensures
        r == peak(samples@),
{
    let mut p: u32 = 0;
    let mut i: usize = 0;
    while i < samples.len()
        invariant
            i <= samples@.len(),
            p == peak(samples@.subrange(0, i as int)),
        decreases samples@.len() - i,
    {
        let m = sample_magnitude(samples[i]);
        assert(samples@.subrange(0, i + 1).drop_last() =~= samples@.subrange(0, i as int));
        if m > p {
            p = m;
        }
        i = i + 1;
    }
    assert(samples@.subrange(0, samples@.len() as int) =~= samples@);
    p
}

/// Gate state: threshold and hold, and when it last saw a block above the
/// threshold.
pub struct NoiseGate {
    /// Magnitude (single-precision bits) that a block's peak must exceed.
    pub threshold: u32,
    /// How long the noise gate stays open after the last loud block, in ms.
    pub hold_ms: u64,
    pub last_active_ms: u64,
    pub is_active: bool,
}

impl NoiseGate {
    /// State after a block with peak `p` arrives at time `now`.
    pub open spec fn next(self, p: u32, now: u64) -> NoiseGate {
        if p > self.threshold {
            NoiseGate { last_active_ms: now, is_active: true, ..self }
        } else if self.is_active && elapsed(self.last_active_ms, now) > self.hold_ms {
            NoiseGate { is_active: false, ..self }
        } else {
            self
        }
    }

    pub fn new(threshold: u32, hold_ms: u64, now_ms: u64) -> (r: NoiseGate)
        ensures
            r.threshold == threshold,
            r.hold_ms == hold_ms,
            r.last_active_ms == now_ms,
            !r.is_active,
    {
        NoiseGate { threshold, hold_ms, last_active_ms: now_ms, is_active: false }
    }

    /// Classifies one block arriving at `now_ms`; returns whether the noise gate is
    /// open afterwards.
    pub fn process(&mut self, samples: &[u32], now_ms: u64) -> (r: bool)
        ensures
            *final(self) == old(self).next(peak(samples@), now_ms),
            r == final(self).is_active,
            peak(samples@) > old(self).threshold ==> r && final(self).last_active_ms == now_ms,
    {
        let p = peak_amplitude(samples);
        if p > self.threshold {
            self.last_active_ms = now_ms;
            self.is_active = true;
        } else if self.is_active {
            let e = if now_ms >= self.last_active_ms { now_ms - self.last_active_ms } else { 0 };
            if e > self.hold_ms {
                self.is_active = false;
            }
        }
        self.is_active
    }
}

/// Gate state after a sequence of blocks, each given by its peak and its
/// arrival time.
pub open spec fn run_gate(g: NoiseGate, blocks: Seq<(u32, u64)>) -> NoiseGate
    decreases blocks.len(),
{
    if blocks.len() == 0 {
        g
    } else {
        let prev = run_gate(g, blocks.drop_last());
        prev.next(blocks.last().0, blocks.last().1)
    }
}

proof fn lemma_quiet_keeps_last_active(g: NoiseGate, blocks: Seq<(u32, u64)>)
    requires
        forall|i: int| 0 <= i < blocks.len() ==> blocks[i].0 <= g.threshold,
    ensures
        run_gate(g, blocks).last_active_ms == g.last_active_ms,
        run_gate(g, blocks).threshold == g.threshold,
        run_gate(g, blocks).hold_ms == g.hold_ms,
    decreases blocks.len(),
{
    if blocks.len() > 0 {
        lemma_quiet_keeps_last_active(g, blocks.drop_last());
    }
}

/// Once activity has ceased, the noise gate closes: after any non-empty run of
/// blocks none of which exceeds the threshold, the last of which arrives more
/// than the hold time after the noise gate last saw activity, the noise gate is closed.
pub proof fn lemma_gate_closes_after_hold(g: NoiseGate, blocks: Seq<(u32, u64)>)
    requires
        blocks.len() > 0,
        forall|i: int| 0 <= i < blocks.len() ==> blocks[i].0 <= g.threshold,
        elapsed(g.last_active_ms, blocks.last().1) > g.hold_ms,
    ensures
        !run_gate(g, blocks).is_active,
{
    lemma_quiet_keeps_last_active(g, blocks.drop_last());
}

} // verus!
